//! Laws of the commands: how what is written reads back.

use vstd::prelude::*;
use vstd::utf8::{encode_utf8, encode_utf8_valid_utf8, is_ascii_chars_encode_utf8, valid_utf8};
use crate::args::{A010Arg, BAUD, BINN, DISP, FPS, UNIT, lemma_names, lemma_values};
use crate::at::{
    AtArg, answer_head, answer_value, is_space, line_end, set_command, set_digits, trim_start,
};
use crate::codec::{Scan, all_accepted, scan};
use crate::commands::{A010Cmd, A010Rsp, response};
use crate::decimal::{digits, is_digit, lemma_digits_value};
use crate::machine::{CARRIAGE_RETURN, MachineView};
use crate::stream_laws::{is_text, line_is_received};

verus! {

/// The digits of a set command are the digits of the value, but for a value over a hundred with a
/// zero in its tens, which loses that zero.
pub proof fn set_digits_are_digits(value: u8)
    requires
        value < 100 || value % 100 >= 10,
    ensures
        set_digits(value) == digits(value as nat),
{
    reveal_with_fuel(digits, 3);
    assert(set_digits(value) =~= digits(value as nat));
}

/// The answer that tells a value: `+NAME=VALUE`.
pub open spec fn answer(name: Seq<u8>, value: u8) -> Seq<u8> {
    answer_head(name) + set_digits(value)
}

/// A set command is an answer with `AT` in front and a line end behind.
pub proof fn set_command_is_answer(name: Seq<u8>, value: u8)
    ensures
        set_command(name, value) == seq!['A' as u8, 'T' as u8] + answer(name, value) + line_end(),
{
    assert(set_command(name, value) =~= seq!['A' as u8, 'T' as u8] + answer(name, value)
        + line_end());
}

/// The value in an answer is read as it was written, but for a value over a hundred with a zero in
/// its tens.
pub proof fn answer_reads_back(name: Seq<u8>, value: u8)
    requires
        value < 100 || value % 100 >= 10,
    ensures
        answer_value(name, answer(name, value)) == Some(value),
{
    let head = answer_head(name);
    let line = answer(name, value);
    set_digits_are_digits(value);
    lemma_digits_value(value as nat);
    assert(line.subrange(0, head.len() as int) =~= head);
    assert(line.skip(head.len() as int) =~= digits(value as nat));
    assert(is_digit(digits(value as nat)[0]));
    assert(trim_start(digits(value as nat)) == digits(value as nat));
}

/// White space before the value of an answer does not matter.
pub proof fn space_does_not_matter(name: Seq<u8>, space: u8, rest: Seq<u8>)
    requires
        is_space(space),
    ensures
        answer_value(name, answer_head(name).push(space) + rest) == answer_value(
            name,
            answer_head(name) + rest,
        ),
{
    let head = answer_head(name);
    let n = head.len() as int;
    let spaced = head.push(space) + rest;
    let plain = head + rest;
    assert(spaced.subrange(0, n) =~= head);
    assert(plain.subrange(0, n) =~= head);
    assert(plain.skip(n) =~= rest);
    assert(spaced.skip(n)[0] == space);
    assert(spaced.skip(n).skip(1) =~= rest);
}

/// An answer for one name is none for another that is not the start of it.
proof fn lemma_other_name(name: Seq<u8>, other: Seq<u8>, value: u8, i: int)
    requires
        0 <= i < name.len(),
        0 <= i < other.len(),
        name[i] != other[i],
    ensures
        answer_value(other, answer(name, value)) is None,
{
    let line = answer(name, value);
    let head = answer_head(other);
    if head.is_prefix_of(line) {
        assert(line.subrange(0, head.len() as int)[i + 1] == head[i + 1]);
        assert(line[i + 1] == name[i]);
    }
}

/// An argument with an allowed value.
pub open spec fn is_valid(arg: A010Arg) -> bool {
    match arg {
        A010Arg::Binn(binn) => BINN::allows(binn.raw()),
        A010Arg::Disp(disp) => DISP::allows(disp.raw()),
        A010Arg::Baud(baud) => BAUD::allows(baud.raw()),
        A010Arg::Unit(unit) => UNIT::allows(unit.raw()),
        A010Arg::Fps(fps) => FPS::allows(fps.raw()),
    }
}

/// The answer that tells an argument.
pub open spec fn arg_answer(arg: A010Arg) -> Seq<u8> {
    answer(encode_utf8(arg.name()), arg.raw())
}

/// The response that tells an argument.
pub open spec fn arg_response(arg: A010Arg) -> A010Rsp {
    match arg {
        A010Arg::Binn(binn) => A010Rsp::Binn(binn),
        A010Arg::Disp(disp) => A010Rsp::Disp(disp),
        A010Arg::Baud(baud) => A010Rsp::Baud(baud),
        A010Arg::Unit(unit) => A010Rsp::Unit(unit),
        A010Arg::Fps(fps) => A010Rsp::Fps(fps),
    }
}

/// The allowed values are small.
proof fn lemma_small(arg: A010Arg)
    requires
        is_valid(arg),
    ensures
        arg.raw() < 20,
{
}

/// The answer that tells an argument is read as the response that tells it. It is what stands
/// between `AT` and the line end in the command that sets the argument.
pub proof fn arg_reads_back(arg: A010Arg)
    requires
        is_valid(arg),
    ensures
        response(arg_answer(arg)) == Some(arg_response(arg)),
        arg_response(arg).arg() == Some(arg),
        arg.set_bytes() == seq!['A' as u8, 'T' as u8] + arg_answer(arg) + line_end(),
{
    let name = encode_utf8(arg.name());
    let line = arg_answer(arg);
    lemma_names();
    lemma_values();
    lemma_small(arg);
    set_command_is_answer(name, arg.raw());
    answer_reads_back(name, arg.raw());
    assert(line[0] == '+' as u8);
    let binn = encode_utf8("BINN"@);
    let disp = encode_utf8("DISP"@);
    let baud = encode_utf8("BAUD"@);
    let unit = encode_utf8("UNIT"@);
    match arg {
        A010Arg::Binn(_) => {},
        A010Arg::Disp(a) => {
            lemma_other_name(name, binn, arg.raw(), 0);
        },
        A010Arg::Baud(a) => {
            lemma_other_name(name, binn, arg.raw(), 1);
            lemma_other_name(name, disp, arg.raw(), 0);
        },
        A010Arg::Unit(a) => {
            lemma_other_name(name, binn, arg.raw(), 0);
            lemma_other_name(name, disp, arg.raw(), 0);
            lemma_other_name(name, baud, arg.raw(), 0);
        },
        A010Arg::Fps(a) => {
            lemma_other_name(name, binn, arg.raw(), 0);
            lemma_other_name(name, disp, arg.raw(), 0);
            lemma_other_name(name, baud, arg.raw(), 0);
            lemma_other_name(name, unit, arg.raw(), 0);
        },
    }
}

/// The last digit of a set command.
proof fn lemma_last_digit(value: u8)
    ensures
        set_digits(value).len() >= 1,
        is_digit(set_digits(value).last()),
{
}

/// A command with allowed values.
pub open spec fn is_valid_cmd(cmd: A010Cmd) -> bool {
    cmd.arg() matches Some(arg) ==> is_valid(arg)
}

/// The byte before the line end tells queries from set commands.
proof fn lemma_cmd_tail(cmd: A010Cmd)
    ensures
        cmd is AT ==> cmd.bytes().len() == 4,
        !(cmd is AT) ==> cmd.bytes().len() >= 8,
        cmd is SetArg ==> cmd.bytes()[cmd.bytes().len() - 3] != '?' as u8,
        !(cmd is AT) && !(cmd is SetArg) ==> cmd.bytes()[cmd.bytes().len() - 3] == '?' as u8,
{
    lemma_names();
    if let A010Cmd::SetArg(arg) = cmd {
        lemma_last_digit(arg.raw());
        let digits = set_digits(arg.raw());
        assert(cmd.bytes()[cmd.bytes().len() - 3] == digits.last());
    }
}

/// The first two letters of its name tell queries apart.
proof fn lemma_query_name(cmd: A010Cmd)
    requires
        !(cmd is AT),
        !(cmd is SetArg),
    ensures
        cmd is GetBinn <==> cmd.bytes()[3] == 'B' as u8 && cmd.bytes()[4] == 'I' as u8,
        cmd is GetDisp <==> cmd.bytes()[3] == 'D' as u8,
        cmd is GetBaud <==> cmd.bytes()[3] == 'B' as u8 && cmd.bytes()[4] == 'A' as u8,
        cmd is GetUnit <==> cmd.bytes()[3] == 'U' as u8,
        cmd is GetFps <==> cmd.bytes()[3] == 'F' as u8,
{
    lemma_names();
}

/// Different commands have different lines.
pub proof fn commands_differ(cmd: A010Cmd, other: A010Cmd)
    requires
        is_valid_cmd(cmd),
        is_valid_cmd(other),
        cmd.bytes() == other.bytes(),
    ensures
        cmd == other,
{
    lemma_cmd_tail(cmd);
    lemma_cmd_tail(other);
    if let A010Cmd::SetArg(arg) = cmd {
        if let A010Cmd::SetArg(other_arg) = other {
            arg_reads_back(arg);
            arg_reads_back(other_arg);
            let end = cmd.bytes().len() - 2;
            assert(cmd.bytes().subrange(2, end) =~= arg_answer(arg));
            assert(other.bytes().subrange(2, end) =~= arg_answer(other_arg));
        }
    } else if !(cmd is AT) {
        lemma_query_name(cmd);
        lemma_query_name(other);
    }
}

/// Bytes below 128 are valid UTF-8.
pub proof fn lemma_ascii_is_valid(bytes: Seq<u8>)
    requires
        forall|i: int| 0 <= i < bytes.len() ==> #[trigger] bytes[i] < 128,
    ensures
        valid_utf8(bytes),
{
    let chars = bytes.map_values(|byte: u8| byte as char);
    is_ascii_chars_encode_utf8(chars);
    assert(encode_utf8(chars) =~= bytes);
    encode_utf8_valid_utf8(chars);
}

/// A byte of printable ASCII.
spec fn is_printable(byte: u8) -> bool {
    0x20 < byte < 128
}

/// An answer is printable where its name is.
proof fn lemma_answer_is_printable(name: Seq<u8>, value: u8)
    requires
        forall|i: int| 0 <= i < name.len() ==> is_printable(#[trigger] name[i]),
        value < 100,
    ensures
        forall|i: int|
            0 <= i < answer(name, value).len() ==> is_printable(#[trigger] answer(name, value)[i]),
        answer(name, value).len() <= name.len() + 4,
{
    let line = answer(name, value);
    assert forall|i: int| 0 <= i < line.len() implies is_printable(#[trigger] line[i]) by {
        if 1 <= i <= name.len() {
            assert(line[i] == name[i - 1]);
        }
    }
}

/// The answer that tells an argument is a line of valid text.
pub proof fn lemma_valid_answer(arg: A010Arg)
    requires
        is_valid(arg),
    ensures
        1 <= arg_answer(arg).len() <= 128,
        valid_utf8(arg_answer(arg)),
        forall|i: int|
            0 <= i < arg_answer(arg).len() ==> 0x20 < #[trigger] arg_answer(arg)[i] < 128,
{
    let name = encode_utf8(arg.name());
    let line = arg_answer(arg);
    lemma_small(arg);
    lemma_names();
    assert(name.len() <= 4);
    assert(forall|i: int| 0 <= i < name.len() ==> is_printable(#[trigger] name[i]));
    lemma_answer_is_printable(name, arg.raw());
    assert forall|i: int| 0 <= i < line.len() implies 0x20 < #[trigger] line[i] < 128 by {
        assert(is_printable(line[i]));
    }
    lemma_ascii_is_valid(line);
}

/// An answer of the camera is decoded: its line is received whole, is valid text and holds the
/// argument that was told.
pub proof fn answer_is_decoded(m: MachineView, arg: A010Arg)
    requires
        m.status is Cmd,
        m.line.len() == 0,
        is_valid(arg),
    ensures
        ({
            let line = arg_answer(arg);
            &&& all_accepted(m, line.push(CARRIAGE_RETURN))
            &&& scan(m, line.push(CARRIAGE_RETURN)) == (Scan {
                machine: m,
                taken: line.len() + 1,
                line: Some(line),
                frames: Seq::empty(),
                errors: Seq::empty(),
            })
            &&& valid_utf8(line)
            &&& response(line) == Some(arg_response(arg))
        }),
{
    let line = arg_answer(arg);
    arg_reads_back(arg);
    lemma_valid_answer(arg);
    assert forall|i: int| 0 <= i < line.len() implies is_text(#[trigger] line[i]) by {}
    assert(m.line + line =~= line);
    assert(m.line =~= Seq::empty());
    line_is_received(m, line, CARRIAGE_RETURN);
}

} // verus!
