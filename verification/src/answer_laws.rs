//! What commands and answers mean, byte for byte.

use vstd::prelude::*;
use vstd::utf8::encode_utf8;
use crate::args::{A010Arg, BAUD, BINN, DISP, FPS, UNIT, lemma_names, lemma_values};
use crate::at::{
    AtArg, answer_head, answer_value, get_command, is_space, set_command, set_digits, trim_start,
};
use crate::command_laws::{answer, arg_answer, is_valid, set_digits_are_digits};
use crate::commands::{A010Cmd, A010Rsp, answer_arg, ok_line, response};
use crate::decimal::{digits, digits_text, digits_value, is_digit, lemma_digits_value};

verus! {

/// The value of digits is the decimal one: each further digit counts one, and those before it ten
/// times as much as they did.
pub proof fn digits_are_decimal(front: Seq<u8>, digit: u8)
    requires
        0x30 <= digit <= 0x39,
    ensures
        digits_value(Seq::empty()) == 0,
        digits_value(front.push(digit)) == digits_value(front) * 10 + (digit - 0x30),
{
    assert(front.push(digit).drop_last() =~= front);
}

/// The digits of a number are decimal digits, have its value and start with a zero only where the
/// number is zero. Its text has the same characters.
pub proof fn digits_are_the_number(n: nat)
    ensures
        digits(n).len() > 0,
        forall|i: int| 0 <= i < digits(n).len() ==> 0x30 <= #[trigger] digits(n)[i] <= 0x39,
        digits_value(digits(n)) == n,
        digits(n)[0] == 0x30 ==> n == 0,
        n == 0 ==> digits(n).len() == 1,
        digits_text(n).len() == digits(n).len(),
        forall|i: int|
            0 <= i < digits(n).len() ==> #[trigger] digits_text(n)[i] == digits(n)[i] as char,
    decreases n,
{
    lemma_digits_value(n);
    assert forall|i: int| 0 <= i < digits(n).len() implies 0x30 <= #[trigger] digits(n)[i]
        <= 0x39 by {
        assert(is_digit(digits(n)[i]));
    }
    if n >= 10 {
        digits_are_the_number(n / 10);
    }
}

/// The command that asks for an argument is `AT+`, the name, `?` and a line end.
pub proof fn get_command_is_spelled(name: Seq<u8>)
    ensures
        get_command(name) == seq![0x41u8, 0x54u8, 0x2Bu8] + name + seq![0x3Fu8, 0x0Du8, 0x0Au8],
{
    assert(get_command(name) =~= seq![0x41u8, 0x54u8, 0x2Bu8] + name + seq![
        0x3Fu8,
        0x0Du8,
        0x0Au8,
    ]);
}

/// The command that sets an argument is `AT+`, the name, `=`, the value and a line end. The value
/// is written in decimal, but for one over a hundred with a zero in its tens, which loses that
/// zero.
pub proof fn set_command_is_spelled(name: Seq<u8>, value: u8)
    ensures
        ({
            let written = if value < 100 || value % 100 >= 10 {
                digits(value as nat)
            } else {
                digits((value / 100) as nat) + digits((value % 10) as nat)
            };
            &&& set_command(name, value) == seq![0x41u8, 0x54u8, 0x2Bu8] + name + seq![0x3Du8]
                + written + seq![0x0Du8, 0x0Au8]
            &&& answer(name, value) == seq![0x2Bu8] + name + seq![0x3Du8] + written
        }),
{
    let written = if value < 100 || value % 100 >= 10 {
        digits(value as nat)
    } else {
        digits((value / 100) as nat) + digits((value % 10) as nat)
    };
    if value < 100 || value % 100 >= 10 {
        set_digits_are_digits(value);
    } else {
        assert(set_digits(value) =~= written);
    }
    assert(set_command(name, value) =~= seq![0x41u8, 0x54u8, 0x2Bu8] + name + seq![0x3Du8]
        + written + seq![0x0Du8, 0x0Au8]);
    assert(answer(name, value) =~= seq![0x2Bu8] + name + seq![0x3Du8] + written);
}

/// White space in front of anything else is trimmed.
proof fn lemma_trim(spaces: Seq<u8>, rest: Seq<u8>)
    requires
        forall|i: int| 0 <= i < spaces.len() ==> is_space(#[trigger] spaces[i]),
        rest.len() > 0 ==> !is_space(rest[0]),
    ensures
        trim_start(spaces + rest) == rest,
    decreases spaces.len(),
{
    if spaces.len() == 0 {
        assert(spaces + rest =~= rest);
    } else {
        assert(is_space(spaces[0]));
        assert forall|i: int| 0 <= i < spaces.skip(1).len() implies is_space(
            #[trigger] spaces.skip(1)[i],
        ) by {
            assert(is_space(spaces[i + 1]));
        }
        lemma_trim(spaces.skip(1), rest);
        assert((spaces + rest).skip(1) =~= spaces.skip(1) + rest);
    }
}

/// What trimming takes away is white space.
proof fn lemma_trimmed(bytes: Seq<u8>) -> (count: int)
    ensures
        0 <= count <= bytes.len(),
        forall|i: int| 0 <= i < count ==> is_space(#[trigger] bytes[i]),
        trim_start(bytes) == bytes.skip(count),
    decreases bytes.len(),
{
    if bytes.len() > 0 && is_space(bytes[0]) {
        let rest = bytes.skip(1);
        let count = lemma_trimmed(rest);
        assert forall|i: int| 0 <= i < count + 1 implies is_space(#[trigger] bytes[i]) by {
            if i > 0 {
                assert(is_space(rest[i - 1]));
            }
        }
        assert(rest.skip(count) =~= bytes.skip(count + 1));
        count + 1
    } else {
        assert(bytes.skip(0) =~= bytes);
        0
    }
}

/// An answer is read: `+`, the name, `=`, any white space and digits give the value of the digits,
/// modulo 256.
pub proof fn answer_is_read(name: Seq<u8>, spaces: Seq<u8>, number: Seq<u8>)
    requires
        forall|i: int|
            0 <= i < spaces.len() ==> #[trigger] spaces[i] == 0x20 || spaces[i] == 0x09 || spaces[i]
                == 0x0A || spaces[i] == 0x0C || spaces[i] == 0x0D,
        number.len() > 0,
        forall|i: int| 0 <= i < number.len() ==> 0x30 <= #[trigger] number[i] <= 0x39,
    ensures
        answer_value(name, seq![0x2Bu8] + name + seq![0x3Du8] + spaces + number) == Some(
            (digits_value(number) % 256) as u8,
        ),
{
    let head = answer_head(name);
    let line = seq![0x2Bu8] + name + seq![0x3Du8] + spaces + number;
    assert(head =~= seq![0x2Bu8] + name + seq![0x3Du8]);
    assert(line.subrange(0, head.len() as int) =~= head);
    assert(line.skip(head.len() as int) =~= spaces + number);
    assert(0x30 <= number[0] <= 0x39);
    lemma_trim(spaces, number);
    assert forall|i: int| 0 <= i < number.len() implies is_digit(
        #[trigger] number[i],
    ) by {}
}

/// Nothing else is read as an answer: a line in which a value is read is `+`, the name, `=`, any
/// white space and digits with that value, modulo 256.
pub proof fn only_answers_are_read(name: Seq<u8>, line: Seq<u8>) -> (parts: (Seq<u8>, Seq<u8>))
    requires
        answer_value(name, line) is Some,
    ensures
        line == seq![0x2Bu8] + name + seq![0x3Du8] + parts.0 + parts.1,
        forall|i: int|
            0 <= i < parts.0.len() ==> #[trigger] parts.0[i] == 0x20 || parts.0[i] == 0x09
                || parts.0[i] == 0x0A || parts.0[i] == 0x0C || parts.0[i] == 0x0D,
        parts.1.len() > 0,
        forall|i: int| 0 <= i < parts.1.len() ==> 0x30 <= #[trigger] parts.1[i] <= 0x39,
        answer_value(name, line) == Some((digits_value(parts.1) % 256) as u8),
{
    let head = answer_head(name);
    let n = head.len() as int;
    let rest = line.skip(n);
    let count = lemma_trimmed(rest);
    let spaces = rest.take(count);
    let number = rest.skip(count);
    assert forall|i: int| 0 <= i < spaces.len() implies #[trigger] spaces[i] == 0x20 || spaces[i]
        == 0x09 || spaces[i] == 0x0A || spaces[i] == 0x0C || spaces[i] == 0x0D by {
        assert(is_space(rest[i]));
    }
    assert forall|i: int| 0 <= i < number.len() implies 0x30 <= #[trigger] number[i] <= 0x39 by {
        assert(is_digit(number[i]));
    }
    assert(line.subrange(0, n) =~= head);
    assert(line =~= line.subrange(0, n) + spaces + number);
    assert(head =~= seq![0x2Bu8] + name + seq![0x3Du8]);
    (spaces, number)
}

/// The values that the arguments allow, and those that have names.
pub proof fn allowed_values_are(value: u8)
    ensures
        BINN::allows(value) <==> value == 1 || value == 2 || value == 4,
        DISP::allows(value) <==> value <= 7,
        BAUD::allows(value) <==> value <= 8,
        UNIT::allows(value) <==> value <= 9,
        FPS::allows(value) <==> 1 <= value <= 19,
        BINN::has_name(value) <==> value == 1 || value == 2 || value == 4,
        DISP::has_name(value) <==> value <= 7,
        BAUD::has_name(value) <==> value <= 8,
        UNIT::has_name(value) <==> value <= 20,
        FPS::has_name(value) <==> value <= 20,
{
}

/// A line is an acknowledgement exactly if it is `OK`, and tells an argument exactly if it is an
/// answer for its name with a value that it allows.
pub proof fn response_is_what_the_line_says(
    line: Seq<u8>,
    binn: BINN,
    disp: DISP,
    baud: BAUD,
    unit: UNIT,
    fps: FPS,
)
    ensures
        response(line) == Some(A010Rsp::OK) <==> line == seq![0x4Fu8, 0x4Bu8],
        response(line) == Some(A010Rsp::Binn(binn)) <==> answer_value(
            seq![0x42u8, 0x49u8, 0x4Eu8, 0x4Eu8],
            line,
        ) == Some(binn.raw()) && (binn.raw() == 1 || binn.raw() == 2 || binn.raw() == 4),
        response(line) == Some(A010Rsp::Disp(disp)) <==> answer_value(
            seq![0x44u8, 0x49u8, 0x53u8, 0x50u8],
            line,
        ) == Some(disp.raw()) && disp.raw() <= 7,
        response(line) == Some(A010Rsp::Baud(baud)) <==> answer_value(
            seq![0x42u8, 0x41u8, 0x55u8, 0x44u8],
            line,
        ) == Some(baud.raw()) && baud.raw() <= 8,
        response(line) == Some(A010Rsp::Unit(unit)) <==> answer_value(
            seq![0x55u8, 0x4Eu8, 0x49u8, 0x54u8],
            line,
        ) == Some(unit.raw()) && unit.raw() <= 9,
        response(line) == Some(A010Rsp::Fps(fps)) <==> answer_value(
            seq![0x46u8, 0x50u8, 0x53u8],
            line,
        ) == Some(fps.raw()) && 1 <= fps.raw() <= 19,
{
    let binn_name = seq![0x42u8, 0x49u8, 0x4Eu8, 0x4Eu8];
    let disp_name = seq![0x44u8, 0x49u8, 0x53u8, 0x50u8];
    let baud_name = seq![0x42u8, 0x41u8, 0x55u8, 0x44u8];
    let unit_name = seq![0x55u8, 0x4Eu8, 0x49u8, 0x54u8];
    let fps_name = seq![0x46u8, 0x50u8, 0x53u8];
    lemma_names();
    lemma_values();
    assert(encode_utf8("BINN"@) =~= binn_name);
    assert(encode_utf8("DISP"@) =~= disp_name);
    assert(encode_utf8("BAUD"@) =~= baud_name);
    assert(encode_utf8("UNIT"@) =~= unit_name);
    assert(encode_utf8("FPS"@) =~= fps_name);
    lemma_head(binn_name, line);
    lemma_head(disp_name, line);
    lemma_head(baud_name, line);
    lemma_head(unit_name, line);
    lemma_head(fps_name, line);
    assert(ok_line() =~= seq![0x4Fu8, 0x4Bu8]);
    assert(answer_arg::<BINN>("BINN"@, line) is Some ==> answer_value(binn_name, line) is Some);
    assert(answer_arg::<DISP>("DISP"@, line) is Some ==> answer_value(disp_name, line) is Some);
    assert(answer_arg::<BAUD>("BAUD"@, line) is Some ==> answer_value(baud_name, line) is Some);
    assert(answer_arg::<UNIT>("UNIT"@, line) is Some ==> answer_value(unit_name, line) is Some);
    assert(answer_arg::<FPS>("FPS"@, line) is Some ==> answer_value(fps_name, line) is Some);
}

/// The start of an answer.
proof fn lemma_head(name: Seq<u8>, line: Seq<u8>)
    requires
        name.len() >= 2,
    ensures
        answer_value(name, line) is Some ==> line.len() >= 4 && line[0] == 0x2B && line[1]
            == name[0] && line[2] == name[1],
{
    if answer_value(name, line) is Some {
        let parts = only_answers_are_read(name, line);
        let whole = seq![0x2Bu8] + name + seq![0x3Du8] + parts.0 + parts.1;
        assert(whole[0] == 0x2B);
        assert(whole[1] == name[0]);
        assert(whole[2] == name[1]);
    }
}

/// A response that tells an argument tells just that one, and an acknowledgement tells none.
pub proof fn responses_tell(binn: BINN, disp: DISP, baud: BAUD, unit: UNIT, fps: FPS)
    ensures
        A010Rsp::OK.arg() is None,
        A010Rsp::Binn(binn).arg() == Some(A010Arg::Binn(binn)),
        A010Rsp::Disp(disp).arg() == Some(A010Arg::Disp(disp)),
        A010Rsp::Baud(baud).arg() == Some(A010Arg::Baud(baud)),
        A010Rsp::Unit(unit).arg() == Some(A010Arg::Unit(unit)),
        A010Rsp::Fps(fps).arg() == Some(A010Arg::Fps(fps)),
{
}

/// A set command sets its argument, and the others set none.
pub proof fn commands_set(cmd: A010Cmd, arg: A010Arg)
    ensures
        A010Cmd::SetArg(arg).arg() == Some(arg),
        !(cmd is SetArg) ==> cmd.arg() is None,
{
}

/// The bytes of every command: `AT`, a query for an argument by its name, or the command that sets
/// an argument by its name to its value.
pub proof fn commands_are_spelled(arg: A010Arg)
    ensures
        A010Cmd::AT.bytes() == seq![0x41u8, 0x54u8, 0x0Du8, 0x0Au8],
        A010Cmd::GetBinn.bytes() == get_command(seq![0x42u8, 0x49u8, 0x4Eu8, 0x4Eu8]),
        A010Cmd::GetDisp.bytes() == get_command(seq![0x44u8, 0x49u8, 0x53u8, 0x50u8]),
        A010Cmd::GetBaud.bytes() == get_command(seq![0x42u8, 0x41u8, 0x55u8, 0x44u8]),
        A010Cmd::GetUnit.bytes() == get_command(seq![0x55u8, 0x4Eu8, 0x49u8, 0x54u8]),
        A010Cmd::GetFps.bytes() == get_command(seq![0x46u8, 0x50u8, 0x53u8]),
        ({
            let name = match arg {
                A010Arg::Binn(_) => seq![0x42u8, 0x49u8, 0x4Eu8, 0x4Eu8],
                A010Arg::Disp(_) => seq![0x44u8, 0x49u8, 0x53u8, 0x50u8],
                A010Arg::Baud(_) => seq![0x42u8, 0x41u8, 0x55u8, 0x44u8],
                A010Arg::Unit(_) => seq![0x55u8, 0x4Eu8, 0x49u8, 0x54u8],
                A010Arg::Fps(_) => seq![0x46u8, 0x50u8, 0x53u8],
            };
            let value = match arg {
                A010Arg::Binn(binn) => binn.raw(),
                A010Arg::Disp(disp) => disp.raw(),
                A010Arg::Baud(baud) => baud.raw(),
                A010Arg::Unit(unit) => unit.raw(),
                A010Arg::Fps(fps) => fps.raw(),
            };
            &&& arg.set_bytes() == set_command(name, value)
            &&& A010Cmd::SetArg(arg).bytes() == set_command(name, value)
            &&& arg_answer(arg) == answer(name, value)
        }),
{
    lemma_names();
    assert(A010Cmd::AT.bytes() =~= seq![0x41u8, 0x54u8, 0x0Du8, 0x0Au8]);
    assert(encode_utf8("BINN"@) =~= seq![0x42u8, 0x49u8, 0x4Eu8, 0x4Eu8]);
    assert(encode_utf8("DISP"@) =~= seq![0x44u8, 0x49u8, 0x53u8, 0x50u8]);
    assert(encode_utf8("BAUD"@) =~= seq![0x42u8, 0x41u8, 0x55u8, 0x44u8]);
    assert(encode_utf8("UNIT"@) =~= seq![0x55u8, 0x4Eu8, 0x49u8, 0x54u8]);
    assert(encode_utf8("FPS"@) =~= seq![0x46u8, 0x50u8, 0x53u8]);
}

/// A valid argument is one with a value that its kind allows.
pub proof fn valid_args_are(arg: A010Arg)
    ensures
        is_valid(arg) <==> match arg {
            A010Arg::Binn(binn) => binn.raw() == 1 || binn.raw() == 2 || binn.raw() == 4,
            A010Arg::Disp(disp) => disp.raw() <= 7,
            A010Arg::Baud(baud) => baud.raw() <= 8,
            A010Arg::Unit(unit) => unit.raw() <= 9,
            A010Arg::Fps(fps) => 1 <= fps.raw() <= 19,
        },
{
}

} // verus!
