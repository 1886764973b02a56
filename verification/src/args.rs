//! The arguments of the camera.

use tokio_util::bytes::BytesMut;
use vstd::prelude::*;
use vstd::utf8::{encode_utf8, is_ascii_chars_encode_utf8};
use crate::at::{AtArg, get_command, set_command};
use crate::buffer::buffered;
use crate::decimal::{digits, digits_text};

verus! {

/// How many pixels are taken together, as `1x1`, `2x2` or `4x4`.
pub open spec fn binn_name(value: u8) -> Seq<char> {
    digits_text(value as nat) + seq!['x'] + digits_text(value as nat)
}

/// A list of outputs with one more, if it is on.
pub open spec fn with_output(names: Seq<char>, on: bool, name: Seq<char>) -> Seq<char> {
    if !on {
        names
    } else if names.len() == 0 {
        name
    } else {
        names + seq![','] + name
    }
}

/// The outputs that are on, one for each bit, or `OFF`.
pub open spec fn disp_name(value: u8) -> Seq<char> {
    if value == 0 {
        "OFF"@
    } else {
        let lcd = with_output(Seq::empty(), value % 2 == 1, "LCD"@);
        let usb = with_output(lcd, value / 2 % 2 == 1, "USB"@);
        with_output(usb, value / 4 % 2 == 1, "UART"@)
    }
}

/// The speed of the serial line, in bits per second.
pub open spec fn baud_rate(value: u8) -> nat {
    match value {
        0 => 9600,
        1 => 57600,
        2 => 115200,
        3 => 230400,
        4 => 460800,
        5 => 921600,
        6 => 1000000,
        7 => 2000000,
        _ => 3000000,
    }
}

/// The speed of the serial line as text.
pub open spec fn baud_name(value: u8) -> Seq<char> {
    digits_text(baud_rate(value))
}

/// Binning: how many pixels are taken together.
#[derive(Debug, Clone, Copy, PartialEq, Eq, PartialOrd, Ord, Structural)]
pub struct BINN(u8);

impl AtArg for BINN {
    const NAME: &'static str = "BINN";

    const MIN: u8 = 1;

    const MAX: u8 = 4;

    const DEFAULT: u8 = Self::MIN;

    closed spec fn raw(&self) -> u8 {
        self.0
    }

    closed spec fn of(value: u8) -> Self {
        BINN(value)
    }

    open spec fn allows(value: u8) -> bool {
        value == 1 || value == 2 || value == 4
    }

    open spec fn has_name(value: u8) -> bool {
        value == 1 || value == 2 || value == 4
    }

    fn exclude_values() -> (values: &'static [u8]) {
        assert(BINN::MIN == 1);
        assert(BINN::MAX == 4);
        let values: &'static [u8] = &[3];
        assert(values@[0] == 3);
        values
    }

    fn value(&self) -> (value: u8) {
        self.0
    }

    fn new_unchecked(value: u8) -> (arg: Self) {
        let arg = BINN(value);
        assert(arg.raw() == value);
        arg
    }

    fn value_name(&self) -> (name: &'static str)
        ensures
            name@ == binn_name(self.raw()),
    {
        proof {
            reveal_with_fuel(digits, 2);
            reveal_strlit("1x1");
            reveal_strlit("2x2");
            reveal_strlit("4x4");
        }
        let name = match self.value() {
            1 => "1x1",
            2 => "2x2",
            _ => "4x4",
        };
        assert(name@ =~= binn_name(self.raw()));
        name
    }
}

/// Outputs that show the picture.
#[derive(Debug, Clone, Copy, PartialEq, Eq, PartialOrd, Ord, Structural)]
pub struct DISP(u8);

impl AtArg for DISP {
    const NAME: &'static str = "DISP";

    const MIN: u8 = 0;

    const MAX: u8 = 7;

    const DEFAULT: u8 = Self::MIN;

    closed spec fn raw(&self) -> u8 {
        self.0
    }

    closed spec fn of(value: u8) -> Self {
        DISP(value)
    }

    open spec fn allows(value: u8) -> bool {
        value <= 7
    }

    open spec fn has_name(value: u8) -> bool {
        value <= 7
    }

    fn exclude_values() -> (values: &'static [u8]) {
        assert(DISP::MIN == 0);
        assert(DISP::MAX == 7);
        &[]
    }

    fn value(&self) -> (value: u8) {
        self.0
    }

    fn new_unchecked(value: u8) -> (arg: Self) {
        let arg = DISP(value);
        assert(arg.raw() == value);
        arg
    }

    fn value_name(&self) -> (name: &'static str)
        ensures
            name@ == disp_name(self.raw()),
    {
        proof {
            reveal_strlit("OFF");
            reveal_strlit("LCD");
            reveal_strlit("USB");
            reveal_strlit("LCD,USB");
            reveal_strlit("UART");
            reveal_strlit("LCD,UART");
            reveal_strlit("USB,UART");
            reveal_strlit("LCD,USB,UART");
        }
        let name = match self.value() {
            0 => "OFF",
            1 => "LCD",
            2 => "USB",
            3 => "LCD,USB",
            4 => "UART",
            5 => "LCD,UART",
            6 => "USB,UART",
            _ => "LCD,USB,UART",
        };
        assert(name@ =~= disp_name(self.raw()));
        name
    }
}

/// Speed of the serial line.
#[derive(Debug, Clone, Copy, PartialEq, Eq, PartialOrd, Ord, Structural)]
pub struct BAUD(u8);

impl AtArg for BAUD {
    const NAME: &'static str = "BAUD";

    const MIN: u8 = 0;

    const MAX: u8 = 8;

    const DEFAULT: u8 = 2;

    closed spec fn raw(&self) -> u8 {
        self.0
    }

    closed spec fn of(value: u8) -> Self {
        BAUD(value)
    }

    open spec fn allows(value: u8) -> bool {
        value <= 8
    }

    open spec fn has_name(value: u8) -> bool {
        value <= 8
    }

    fn exclude_values() -> (values: &'static [u8]) {
        assert(BAUD::MIN == 0);
        assert(BAUD::MAX == 8);
        &[]
    }

    fn value(&self) -> (value: u8) {
        self.0
    }

    fn new_unchecked(value: u8) -> (arg: Self) {
        let arg = BAUD(value);
        assert(arg.raw() == value);
        arg
    }

    fn value_name(&self) -> (name: &'static str)
        ensures
            name@ == baud_name(self.raw()),
    {
        proof {
            reveal_with_fuel(digits, 8);
            reveal_strlit("9600");
            reveal_strlit("57600");
            reveal_strlit("115200");
            reveal_strlit("230400");
            reveal_strlit("460800");
            reveal_strlit("921600");
            reveal_strlit("1000000");
            reveal_strlit("2000000");
            reveal_strlit("3000000");
        }
        let name = match self.value() {
            0 => "9600",
            1 => "57600",
            2 => "115200",
            3 => "230400",
            4 => "460800",
            5 => "921600",
            6 => "1000000",
            7 => "2000000",
            _ => "3000000",
        };
        assert(name@ =~= baud_name(self.raw()));
        name
    }
}

/// Unit of the distances.
#[derive(Debug, Clone, Copy, PartialEq, Eq, PartialOrd, Ord, Structural)]
pub struct UNIT(u8);

impl AtArg for UNIT {
    const NAME: &'static str = "UNIT";

    const MIN: u8 = 0;

    const MAX: u8 = 9;

    const DEFAULT: u8 = Self::MIN;

    closed spec fn raw(&self) -> u8 {
        self.0
    }

    closed spec fn of(value: u8) -> Self {
        UNIT(value)
    }

    open spec fn allows(value: u8) -> bool {
        value <= 9
    }

    open spec fn has_name(value: u8) -> bool {
        value <= 20
    }

    fn exclude_values() -> (values: &'static [u8]) {
        assert(UNIT::MIN == 0);
        assert(UNIT::MAX == 9);
        &[]
    }

    fn value(&self) -> (value: u8) {
        self.0
    }

    fn new_unchecked(value: u8) -> (arg: Self) {
        let arg = UNIT(value);
        assert(arg.raw() == value);
        arg
    }
}

/// Frames per second.
#[derive(Debug, Clone, Copy, PartialEq, Eq, PartialOrd, Ord, Structural)]
pub struct FPS(u8);

impl AtArg for FPS {
    const NAME: &'static str = "FPS";

    const MIN: u8 = 1;

    const MAX: u8 = 19;

    const DEFAULT: u8 = Self::MIN;

    closed spec fn raw(&self) -> u8 {
        self.0
    }

    closed spec fn of(value: u8) -> Self {
        FPS(value)
    }

    open spec fn allows(value: u8) -> bool {
        1 <= value <= 19
    }

    open spec fn has_name(value: u8) -> bool {
        value <= 20
    }

    fn exclude_values() -> (values: &'static [u8]) {
        assert(FPS::MIN == 1);
        assert(FPS::MAX == 19);
        &[]
    }

    fn value(&self) -> (value: u8) {
        self.0
    }

    fn new_unchecked(value: u8) -> (arg: Self) {
        let arg = FPS(value);
        assert(arg.raw() == value);
        arg
    }
}

/// An argument with its value.
#[derive(Debug, Clone, Copy, PartialEq, Eq, Structural)]
pub enum A010Arg {
    Binn(BINN),
    Disp(DISP),
    Baud(BAUD),
    Unit(UNIT),
    Fps(FPS),
}

impl A010Arg {
    /// The name of the argument in commands and answers.
    pub open spec fn name(self) -> Seq<char> {
        match self {
            A010Arg::Binn(_) => "BINN"@,
            A010Arg::Disp(_) => "DISP"@,
            A010Arg::Baud(_) => "BAUD"@,
            A010Arg::Unit(_) => "UNIT"@,
            A010Arg::Fps(_) => "FPS"@,
        }
    }

    /// The value of the argument.
    pub open spec fn raw(self) -> u8 {
        match self {
            A010Arg::Binn(arg) => arg.raw(),
            A010Arg::Disp(arg) => arg.raw(),
            A010Arg::Baud(arg) => arg.raw(),
            A010Arg::Unit(arg) => arg.raw(),
            A010Arg::Fps(arg) => arg.raw(),
        }
    }

    /// The command that sets the argument.
    pub open spec fn set_bytes(self) -> Seq<u8> {
        set_command(encode_utf8(self.name()), self.raw())
    }

    /// Appends the command that asks for `BINN`.
    pub fn encode_get_binn(dst: &mut BytesMut)
        requires
            buffered(*old(dst)).len() + get_command(encode_utf8("BINN"@)).len() <= isize::MAX,
        ensures
            buffered(*final(dst)) == buffered(*old(dst)) + get_command(encode_utf8("BINN"@)),
    {
        proof {
            lemma_names();
        }
        BINN::encode_get(dst)
    }

    /// Appends the command that asks for `DISP`.
    pub fn encode_get_disp(dst: &mut BytesMut)
        requires
            buffered(*old(dst)).len() + get_command(encode_utf8("DISP"@)).len() <= isize::MAX,
        ensures
            buffered(*final(dst)) == buffered(*old(dst)) + get_command(encode_utf8("DISP"@)),
    {
        proof {
            lemma_names();
        }
        DISP::encode_get(dst)
    }

    /// Appends the command that asks for `BAUD`.
    pub fn encode_get_baud(dst: &mut BytesMut)
        requires
            buffered(*old(dst)).len() + get_command(encode_utf8("BAUD"@)).len() <= isize::MAX,
        ensures
            buffered(*final(dst)) == buffered(*old(dst)) + get_command(encode_utf8("BAUD"@)),
    {
        proof {
            lemma_names();
        }
        BAUD::encode_get(dst)
    }

    /// Appends the command that asks for `UNIT`.
    pub fn encode_get_unit(dst: &mut BytesMut)
        requires
            buffered(*old(dst)).len() + get_command(encode_utf8("UNIT"@)).len() <= isize::MAX,
        ensures
            buffered(*final(dst)) == buffered(*old(dst)) + get_command(encode_utf8("UNIT"@)),
    {
        proof {
            lemma_names();
        }
        UNIT::encode_get(dst)
    }

    /// Appends the command that asks for `FPS`.
    pub fn encode_get_fps(dst: &mut BytesMut)
        requires
            buffered(*old(dst)).len() + get_command(encode_utf8("FPS"@)).len() <= isize::MAX,
        ensures
            buffered(*final(dst)) == buffered(*old(dst)) + get_command(encode_utf8("FPS"@)),
    {
        proof {
            lemma_names();
        }
        FPS::encode_get(dst)
    }

    /// Appends the command that sets the argument.
    pub fn encode_set(&self, dst: &mut BytesMut)
        requires
            buffered(*old(dst)).len() + self.set_bytes().len() <= isize::MAX,
        ensures
            buffered(*final(dst)) == buffered(*old(dst)) + self.set_bytes(),
    {
        proof {
            lemma_names();
        }
        match self {
            A010Arg::Binn(binn) => binn.encode_set(dst),
            A010Arg::Disp(disp) => disp.encode_set(dst),
            A010Arg::Baud(baud) => baud.encode_set(dst),
            A010Arg::Unit(unit) => unit.encode_set(dst),
            A010Arg::Fps(fps) => fps.encode_set(dst),
        }
    }
}

/// The names of the arguments, and their bytes.
pub proof fn lemma_names()
    ensures
        BINN::NAME@ == "BINN"@,
        DISP::NAME@ == "DISP"@,
        BAUD::NAME@ == "BAUD"@,
        UNIT::NAME@ == "UNIT"@,
        FPS::NAME@ == "FPS"@,
        encode_utf8("BINN"@) == seq!['B' as u8, 'I' as u8, 'N' as u8, 'N' as u8],
        encode_utf8("DISP"@) == seq!['D' as u8, 'I' as u8, 'S' as u8, 'P' as u8],
        encode_utf8("BAUD"@) == seq!['B' as u8, 'A' as u8, 'U' as u8, 'D' as u8],
        encode_utf8("UNIT"@) == seq!['U' as u8, 'N' as u8, 'I' as u8, 'T' as u8],
        encode_utf8("FPS"@) == seq!['F' as u8, 'P' as u8, 'S' as u8],
{
    reveal_strlit("BINN");
    reveal_strlit("DISP");
    reveal_strlit("BAUD");
    reveal_strlit("UNIT");
    reveal_strlit("FPS");
    is_ascii_chars_encode_utf8("BINN"@);
    is_ascii_chars_encode_utf8("DISP"@);
    is_ascii_chars_encode_utf8("BAUD"@);
    is_ascii_chars_encode_utf8("UNIT"@);
    is_ascii_chars_encode_utf8("FPS"@);
}

/// The values that the arguments have until the camera has told others.
pub proof fn lemma_defaults()
    ensures
        BINN::DEFAULT == 1,
        DISP::DEFAULT == 0,
        BAUD::DEFAULT == 2,
        UNIT::DEFAULT == 0,
        FPS::DEFAULT == 1,
{
}

/// An argument is its value.
pub proof fn lemma_values()
    ensures
        forall|value: u8| (#[trigger] BINN::of(value)).raw() == value,
        forall|value: u8| (#[trigger] DISP::of(value)).raw() == value,
        forall|value: u8| (#[trigger] BAUD::of(value)).raw() == value,
        forall|value: u8| (#[trigger] UNIT::of(value)).raw() == value,
        forall|value: u8| (#[trigger] FPS::of(value)).raw() == value,
        forall|arg: BINN| BINN::of(#[trigger] arg.raw()) == arg,
        forall|arg: DISP| DISP::of(#[trigger] arg.raw()) == arg,
        forall|arg: BAUD| BAUD::of(#[trigger] arg.raw()) == arg,
        forall|arg: UNIT| UNIT::of(#[trigger] arg.raw()) == arg,
        forall|arg: FPS| FPS::of(#[trigger] arg.raw()) == arg,
{
}

} // verus!
