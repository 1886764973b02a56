//! AT commands that get and set one-byte arguments by name, and the answers to them.

use tokio_util::bytes::BytesMut;
use vstd::arithmetic::div_mod::{lemma_add_mod_noop, lemma_mul_mod_noop_left};
use vstd::prelude::*;
use vstd::slice::slice_subrange;
use vstd::utf8::encode_utf8;
use crate::buffer::{append, append_byte, buffered};
use crate::decimal::{NINE, ZERO, all_digits, digits, digits_text, digits_value, is_digit};

verus! {

/// What every command starts with.
pub open spec fn at_prefix() -> Seq<u8> {
    seq!['A' as u8, 'T' as u8, '+' as u8]
}

/// What every command ends with.
pub open spec fn line_end() -> Seq<u8> {
    seq!['\r' as u8, '\n' as u8]
}

/// The command that asks for an argument: `AT+NAME?`.
pub open spec fn get_command(name: Seq<u8>) -> Seq<u8> {
    at_prefix() + name + seq!['?' as u8] + line_end()
}

/// The digits that a set command writes: a leading zero digit is left out, and so is a zero in the
/// tens of a number over a hundred.
pub open spec fn set_digits(value: u8) -> Seq<u8> {
    (if value >= 100 {
        seq![(value / 100 + ZERO) as u8]
    } else {
        Seq::empty()
    }) + (if value % 100 >= 10 {
        seq![(value % 100 / 10 + ZERO) as u8]
    } else {
        Seq::empty()
    }) + seq![(value % 10 + ZERO) as u8]
}

/// The command that sets an argument: `AT+NAME=VALUE`.
pub open spec fn set_command(name: Seq<u8>, value: u8) -> Seq<u8> {
    at_prefix() + name + seq!['=' as u8] + set_digits(value) + line_end()
}

/// ASCII white space: space, tab, line feed, form feed and carriage return.
pub open spec fn is_space(byte: u8) -> bool {
    byte == 0x20 || byte == 0x09 || byte == 0x0A || byte == 0x0C || byte == 0x0D
}

/// The bytes from the first one on that is not white space.
pub open spec fn trim_start(bytes: Seq<u8>) -> Seq<u8>
    decreases bytes.len(),
{
    if bytes.len() > 0 && is_space(bytes[0]) {
        trim_start(bytes.skip(1))
    } else {
        bytes
    }
}

/// What an answer starts with: `+NAME=`.
pub open spec fn answer_head(name: Seq<u8>) -> Seq<u8> {
    seq!['+' as u8] + name + seq!['=' as u8]
}

/// The number that a non-empty run of digits stands for, modulo 256.
pub open spec fn number(bytes: Seq<u8>) -> Option<u8> {
    if bytes.len() > 0 && all_digits(bytes) {
        Some((digits_value(bytes) % 256) as u8)
    } else {
        None
    }
}

/// The value in an answer `+NAME=VALUE`, where white space may stand before the value.
pub open spec fn answer_value(name: Seq<u8>, line: Seq<u8>) -> Option<u8> {
    if answer_head(name).is_prefix_of(line) {
        number(trim_start(line.skip(answer_head(name).len() as int)))
    } else {
        None
    }
}

/// Appends the command that asks for an argument.
pub fn write_at_get_arg(name: &str, dst: &mut BytesMut)
    requires
        buffered(*old(dst)).len() + get_command(encode_utf8(name@)).len() <= isize::MAX,
    ensures
        buffered(*final(dst)) == buffered(*old(dst)) + get_command(encode_utf8(name@)),
{
    append(dst, &['A' as u8, 'T' as u8, '+' as u8]);
    append(dst, name.as_bytes());
    append(dst, &['?' as u8, '\r' as u8, '\n' as u8]);
    assert(buffered(*dst) =~= buffered(*old(dst)) + get_command(encode_utf8(name@)));
}

/// Appends the command that sets an argument.
pub fn write_at_set_arg(name: &str, value: u8, dst: &mut BytesMut)
    requires
        buffered(*old(dst)).len() + set_command(encode_utf8(name@), value).len() <= isize::MAX,
    ensures
        buffered(*final(dst)) == buffered(*old(dst)) + set_command(encode_utf8(name@), value),
{
    let ghost whole = value;
    let mut value: u8 = value;
    append(dst, &['A' as u8, 'T' as u8, '+' as u8]);
    append(dst, name.as_bytes());
    append_byte(dst, '=' as u8);
    if value >= 100 {
        append_byte(dst, value / 100 + ZERO);
        value = value % 100;
    }
    if value >= 10 {
        append_byte(dst, value / 10 + ZERO);
        value = value % 10;
    }
    append_byte(dst, value + ZERO);
    append(dst, &['\r' as u8, '\n' as u8]);
    assert(buffered(*dst) =~= buffered(*old(dst)) + set_command(encode_utf8(name@), whole));
}

/// The rest of `bytes` behind `prefix`, if it starts with it.
fn strip_prefix<'a>(bytes: &'a [u8], prefix: &[u8]) -> (rest: Option<&'a [u8]>)
    ensures
        rest is Some <==> prefix@.is_prefix_of(bytes@),
        rest matches Some(r) ==> r@ == bytes@.skip(prefix@.len() as int),
{
    if bytes.len() < prefix.len() {
        return None;
    }
    let mut i: usize = 0;
    while i < prefix.len()
        invariant
            i <= prefix@.len() <= bytes@.len(),
            forall|j: int| 0 <= j < i ==> bytes@[j] == prefix@[j],
        decreases prefix@.len() - i,
    {
        if bytes[i] != prefix[i] {
            assert(bytes@.subrange(0, prefix@.len() as int)[i as int] != prefix@[i as int]);
            return None;
        }
        i = i + 1;
    }
    assert(prefix@ =~= bytes@.subrange(0, prefix@.len() as int));
    let rest = slice_subrange(bytes, prefix.len(), bytes.len());
    assert(rest@ =~= bytes@.skip(prefix@.len() as int));
    Some(rest)
}

/// The bytes from the first one on that is not white space.
fn trim_ascii_start(bytes: &[u8]) -> (rest: &[u8])
    ensures
        rest@ == trim_start(bytes@),
{
    let mut i: usize = 0;
    assert(bytes@.skip(0) =~= bytes@);
    while i < bytes.len() && (bytes[i] == 0x20 || bytes[i] == 0x09 || bytes[i] == 0x0A || bytes[i]
        == 0x0C || bytes[i] == 0x0D)
        invariant
            i <= bytes@.len(),
            trim_start(bytes@.skip(i as int)) == trim_start(bytes@),
        decreases bytes@.len() - i,
    {
        assert(bytes@.skip(i as int).skip(1) =~= bytes@.skip(i + 1));
        i = i + 1;
    }
    let rest = slice_subrange(bytes, i, bytes.len());
    assert(rest@ =~= bytes@.skip(i as int));
    rest
}

/// Appending a digit commutes with reduction modulo 256.
proof fn lemma_append_digit(n: nat, value: u8, digit: u8)
    requires
        value == n % 256,
        digit < 10,
    ensures
        value.wrapping_mul(10).wrapping_add(digit) == (n * 10 + digit) % 256,
{
    let tens = value.wrapping_mul(10);
    assert(tens == (n * 10) % 256) by {
        lemma_mul_mod_noop_left(n as int, 10, 256);
    }
    assert(tens.wrapping_add(digit) == (tens + digit) % 256);
    lemma_add_mod_noop((n * 10) as int, digit as int, 256);
}

/// The number that a run of digits stands for, modulo 256.
fn parse_number(bytes: &[u8]) -> (value: Option<u8>)
    ensures
        value == number(bytes@),
{
    if bytes.len() < 1 {
        return None;
    }
    let mut value: u8 = 0;
    let mut i: usize = 0;
    assert(bytes@.take(0) =~= Seq::<u8>::empty());
    while i < bytes.len()
        invariant
            i <= bytes@.len(),
            forall|j: int| 0 <= j < i ==> is_digit(#[trigger] bytes@[j]),
            value == digits_value(bytes@.take(i as int)) % 256,
        decreases bytes@.len() - i,
    {
        let byte: u8 = bytes[i];
        if byte < ZERO || byte > NINE {
            assert(!is_digit(bytes@[i as int]));
            return None;
        }
        assert(bytes@.take(i + 1).drop_last() =~= bytes@.take(i as int));
        proof {
            lemma_append_digit(digits_value(bytes@.take(i as int)), value, (byte - ZERO) as u8);
        }
        value = value.wrapping_mul(10).wrapping_add(byte - ZERO);
        i = i + 1;
    }
    assert(bytes@.take(i as int) =~= bytes@);
    Some(value)
}

/// The value in an answer to a command, if it is an answer for this name.
pub fn decode_at_arg(name: &str, from: &[u8]) -> (value: Option<u8>)
    ensures
        value == answer_value(encode_utf8(name@), from@),
{
    let ghost head = answer_head(encode_utf8(name@));
    let ghost n = encode_utf8(name@).len() as int;
    let plus = ['+' as u8];
    let equals = ['=' as u8];
    match strip_prefix(from, &plus) {
        None => {
            proof {
                if head.is_prefix_of(from@) {
                    assert(from@.subrange(0, 1) =~= head.subrange(0, 1));
                }
            }
            None
        },
        Some(rest) => match strip_prefix(rest, name.as_bytes()) {
            None => {
                proof {
                    if head.is_prefix_of(from@) {
                        assert(rest@.subrange(0, n) =~= head.subrange(1, n + 1));
                    }
                }
                None
            },
            Some(rest) => match strip_prefix(rest, &equals) {
                None => {
                    proof {
                        if head.is_prefix_of(from@) {
                            assert(rest@.subrange(0, 1) =~= head.subrange(n + 1, n + 2));
                        }
                    }
                    None
                },
                Some(rest) => {
                    assert(from@.subrange(0, n + 2) =~= head);
                    assert(rest@ =~= from@.skip(n + 2));
                    parse_number(trim_ascii_start(rest))
                },
            },
        },
    }
}

/// The name of a value that is shown as the number that it is.
pub fn numeric_value_name_0_20(value: u8) -> (name: &'static str)
    requires
        value <= 20,
    ensures
        name@ == digits_text(value as nat),
{
    proof {
        reveal_with_fuel(digits, 2);
        reveal_strlit("0");
        reveal_strlit("1");
        reveal_strlit("2");
        reveal_strlit("3");
        reveal_strlit("4");
        reveal_strlit("5");
        reveal_strlit("6");
        reveal_strlit("7");
        reveal_strlit("8");
        reveal_strlit("9");
        reveal_strlit("10");
        reveal_strlit("11");
        reveal_strlit("12");
        reveal_strlit("13");
        reveal_strlit("14");
        reveal_strlit("15");
        reveal_strlit("16");
        reveal_strlit("17");
        reveal_strlit("18");
        reveal_strlit("19");
        reveal_strlit("20");
    }
    let name = match value {
        0 => "0",
        1 => "1",
        2 => "2",
        3 => "3",
        4 => "4",
        5 => "5",
        6 => "6",
        7 => "7",
        8 => "8",
        9 => "9",
        10 => "10",
        11 => "11",
        12 => "12",
        13 => "13",
        14 => "14",
        15 => "15",
        16 => "16",
        17 => "17",
        18 => "18",
        19 => "19",
        _ => "20",
    };
    assert(name@ =~= digits_text(value as nat));
    name
}

/// The bytes from `from` on and below `to`.
pub open spec fn values_between(from: int, to: int) -> Seq<u8> {
    Seq::new((if from <= to { to - from } else { 0 }) as nat, |i: int| (from + i) as u8)
}

/// The values that are allowed, smallest first.
pub open spec fn allowed_list(allows: spec_fn(u8) -> bool) -> Seq<u8> {
    values_between(0, 256).filter(allows)
}

/// Values that are not allowed add nothing to the list.
proof fn lemma_none_allowed(allows: spec_fn(u8) -> bool, from: int, to: int)
    requires
        0 <= from <= to <= 256,
        forall|value: u8| from <= value < to ==> !#[trigger] allows(value),
    ensures
        values_between(0, to).filter(allows) == values_between(0, from).filter(allows),
    decreases to - from,
{
    if from < to {
        lemma_none_allowed(allows, from, to - 1);
        assert(values_between(0, to).drop_last() =~= values_between(0, to - 1));
        assert(values_between(0, to).last() == (to - 1) as u8);
        reveal(Seq::filter);
    }
}

/// A byte occurs in a slice.
fn contains(bytes: &[u8], byte: u8) -> (r: bool)
    ensures
        r == bytes@.contains(byte),
{
    let mut i: usize = 0;
    while i < bytes.len()
        invariant
            i <= bytes@.len(),
            forall|j: int| 0 <= j < i ==> bytes@[j] != byte,
        decreases bytes@.len() - i,
    {
        if bytes[i] == byte {
            return true;
        }
        i = i + 1;
    }
    false
}

/// A one-byte argument of the camera, read and written by name.
pub trait AtArg: Sized {
    /// The name in commands and answers.
    const NAME: &'static str;

    /// The smallest value.
    const MIN: u8;

    /// The largest value.
    const MAX: u8;

    /// The value until the camera has told another.
    const DEFAULT: u8 = Self::MIN;

    /// The value of an argument: what `value` returns.
    open spec fn raw(&self) -> u8 {
        arbitrary()
    }

    /// The argument with a value: what `new_unchecked` returns.
    open spec fn of(value: u8) -> Self {
        arbitrary()
    }

    /// A value between `MIN` and `MAX` that is not excluded.
    open spec fn allows(value: u8) -> bool {
        Self::MIN <= value <= Self::MAX
    }

    /// A value has a name to show.
    open spec fn has_name(value: u8) -> bool {
        value <= 20
    }

    /// The values between `MIN` and `MAX` that are not allowed.
    fn exclude_values() -> (values: &'static [u8])
        ensures
            forall|value: u8| #[trigger]
                Self::allows(value) <==> Self::MIN <= value <= Self::MAX && !values@.contains(
                    value,
                ),
    ;

    /// The value.
    fn value(&self) -> (value: u8)
        ensures
            value == self.raw(),
    ;

    /// The argument with a value, allowed or not.
    fn new_unchecked(value: u8) -> (arg: Self)
        ensures
            arg == Self::of(value),
            arg.raw() == value,
    ;

    /// The name of the value: the number, unless the argument has names of its own.
    fn value_name(&self) -> (name: &'static str)
        requires
            self.raw() <= 20,
            Self::has_name(self.raw()),
        default_ensures
            name@ == digits_text(self.raw() as nat),
    {
        numeric_value_name_0_20(self.value())
    }

    /// The argument with a value, if it is allowed.
    fn new(value: u8) -> (arg: Option<Self>)
        ensures
            arg == (if Self::allows(value) {
                Some(Self::of(value))
            } else {
                None
            }),
            arg matches Some(a) ==> a.raw() == value,
    {
        match Self::check_value(value) {
            Some(value) => Some(Self::new_unchecked(value)),
            None => None,
        }
    }

    /// The argument with its default value.
    fn default() -> (arg: Self)
        ensures
            arg == Self::of(Self::DEFAULT),
            arg.raw() == Self::DEFAULT,
    {
        Self::new_unchecked(Self::DEFAULT)
    }

    /// Appends the command that asks for the argument.
    fn encode_get(dst: &mut BytesMut)
        requires
            buffered(*old(dst)).len() + get_command(encode_utf8(Self::NAME@)).len() <= isize::MAX,
        ensures
            buffered(*final(dst)) == buffered(*old(dst)) + get_command(encode_utf8(Self::NAME@)),
    {
        write_at_get_arg(Self::NAME, dst);
    }

    /// Appends the command that sets the argument.
    fn encode_set(&self, dst: &mut BytesMut)
        requires
            buffered(*old(dst)).len() + set_command(encode_utf8(Self::NAME@), self.raw()).len()
                <= isize::MAX,
        ensures
            buffered(*final(dst)) == buffered(*old(dst)) + set_command(
                encode_utf8(Self::NAME@),
                self.raw(),
            ),
    {
        write_at_set_arg(Self::NAME, self.value(), dst);
    }

    /// The argument in an answer of the camera.
    fn decode(from: &[u8]) -> (arg: Option<Self>)
        ensures
            arg == (match answer_value(encode_utf8(Self::NAME@), from@) {
                Some(value) => if Self::allows(value) {
                    Some(Self::of(value))
                } else {
                    None
                },
                None => None,
            }),
            arg matches Some(a) ==> answer_value(encode_utf8(Self::NAME@), from@) == Some(a.raw()),
    {
        match decode_at_arg(Self::NAME, from) {
            Some(value) => Self::new(value),
            None => None,
        }
    }

    /// The value, if it is allowed.
    fn check_value(value: u8) -> (checked: Option<u8>)
        ensures
            checked == (if Self::allows(value) {
                Some(value)
            } else {
                None
            }),
    {
        let excluded = Self::exclude_values();
        if value < Self::MIN || value > Self::MAX || contains(excluded, value) {
            None
        } else {
            Some(value)
        }
    }

    /// The allowed arguments, smallest value first.
    fn allowed_values() -> (args: Vec<Self>)
        ensures
            args@ == allowed_list(|value: u8| Self::allows(value)).map_values(
                |value: u8| Self::of(value),
            ),
    {
        // Nothing is allowed below `MIN` or above `MAX`.
        let _excluded = Self::exclude_values();
        let ghost keep = |value: u8| Self::allows(value);
        let ghost make = |value: u8| Self::of(value);
        let mut args: Vec<Self> = Vec::new();
        let mut next: u16 = Self::MIN as u16;
        proof {
            lemma_none_allowed(keep, 0, next as int);
            reveal(Seq::filter);
            assert(args@ =~= values_between(0, next as int).filter(keep).map_values(make));
        }
        while next <= Self::MAX as u16
            invariant
                Self::MIN <= next <= 256,
                forall|value: u8| #[trigger] Self::allows(value) ==> value <= Self::MAX,
                keep == (|value: u8| Self::allows(value)),
                make == (|value: u8| Self::of(value)),
                args@ == values_between(0, next as int).filter(keep).map_values(make),
            decreases Self::MAX + 1 - next,
        {
            let value: u8 = next as u8;
            let ghost before = values_between(0, next as int);
            let ghost after = values_between(0, next + 1);
            assert(after.drop_last() =~= before);
            assert(after.last() == value);
            reveal(Seq::filter);
            if let Some(arg) = Self::new(value) {
                args.push(arg);
                assert(args@ =~= after.filter(keep).map_values(make));
            }
            next = next + 1;
        }
        proof {
            lemma_none_allowed(keep, next as int, 256);
        }
        args
    }
}

} // verus!
