//! Commands to the camera, its responses, and the configuration that they change.

use vstd::prelude::*;
use vstd::utf8::encode_utf8;
use crate::args::{A010Arg, BAUD, BINN, DISP, FPS, UNIT, lemma_defaults, lemma_names};
use crate::at::{AtArg, answer_value, get_command, line_end, set_command};

verus! {

/// Length of the longest command.
pub const MAX_CMD_SIZE: usize = 13;

/// A command to the camera.
#[derive(Debug, Clone, Copy, PartialEq, Eq, Structural)]
pub enum A010Cmd {
    AT,
    GetBinn,
    GetDisp,
    GetBaud,
    GetUnit,
    GetFps,
    SetArg(A010Arg),
}

impl A010Cmd {
    /// The bytes of the command.
    pub open spec fn bytes(self) -> Seq<u8> {
        match self {
            A010Cmd::AT => seq!['A' as u8, 'T' as u8] + line_end(),
            A010Cmd::GetBinn => get_command(encode_utf8("BINN"@)),
            A010Cmd::GetDisp => get_command(encode_utf8("DISP"@)),
            A010Cmd::GetBaud => get_command(encode_utf8("BAUD"@)),
            A010Cmd::GetUnit => get_command(encode_utf8("UNIT"@)),
            A010Cmd::GetFps => get_command(encode_utf8("FPS"@)),
            A010Cmd::SetArg(arg) => arg.set_bytes(),
        }
    }

    /// The argument that a command sets.
    pub open spec fn arg(self) -> Option<A010Arg> {
        match self {
            A010Cmd::SetArg(arg) => Some(arg),
            _ => None,
        }
    }

    /// The argument that the command sets.
    pub fn as_arg(&self) -> (arg: Option<A010Arg>)
        ensures
            arg == self.arg(),
    {
        match self {
            A010Cmd::SetArg(arg) => Some(*arg),
            _ => None,
        }
    }
}

/// The length of a set command.
proof fn lemma_set_length(name: Seq<u8>, value: u8)
    ensures
        set_command(name, value).len() <= name.len() + 9,
{
}

/// No command is longer than the longest one.
pub proof fn commands_are_short(cmd: A010Cmd)
    ensures
        cmd.bytes().len() <= MAX_CMD_SIZE,
{
    lemma_names();
    if let A010Cmd::SetArg(arg) = cmd {
        let name = encode_utf8(arg.name());
        assert(name.len() <= 4);
        lemma_set_length(name, arg.raw());
    }
}

/// A response of the camera.
#[derive(Debug, Clone, Copy, PartialEq, Eq, Structural)]
pub enum A010Rsp {
    OK,
    Binn(BINN),
    Disp(DISP),
    Baud(BAUD),
    Unit(UNIT),
    Fps(FPS),
}

impl A010Rsp {
    /// The argument that a response tells.
    pub open spec fn arg(self) -> Option<A010Arg> {
        match self {
            A010Rsp::OK => None,
            A010Rsp::Binn(binn) => Some(A010Arg::Binn(binn)),
            A010Rsp::Disp(disp) => Some(A010Arg::Disp(disp)),
            A010Rsp::Baud(baud) => Some(A010Arg::Baud(baud)),
            A010Rsp::Unit(unit) => Some(A010Arg::Unit(unit)),
            A010Rsp::Fps(fps) => Some(A010Arg::Fps(fps)),
        }
    }

    /// The argument that the response tells.
    pub fn as_arg(&self) -> (arg: Option<A010Arg>)
        ensures
            arg == self.arg(),
    {
        match self {
            A010Rsp::OK => None,
            A010Rsp::Binn(binn) => Some(A010Arg::Binn(*binn)),
            A010Rsp::Disp(disp) => Some(A010Arg::Disp(*disp)),
            A010Rsp::Baud(baud) => Some(A010Arg::Baud(*baud)),
            A010Rsp::Unit(unit) => Some(A010Arg::Unit(*unit)),
            A010Rsp::Fps(fps) => Some(A010Arg::Fps(*fps)),
        }
    }
}

/// The argument in an answer, if it is an answer for this name with an allowed value.
pub open spec fn answer_arg<A: AtArg>(name: Seq<char>, line: Seq<u8>) -> Option<A> {
    match answer_value(encode_utf8(name), line) {
        Some(value) => if A::allows(value) {
            Some(A::of(value))
        } else {
            None
        },
        None => None,
    }
}

/// The line that acknowledges a command.
pub open spec fn ok_line() -> Seq<u8> {
    seq!['O' as u8, 'K' as u8]
}

/// The response in a line: an acknowledgement, or an answer for one of the arguments.
pub open spec fn response(line: Seq<u8>) -> Option<A010Rsp> {
    if line == ok_line() {
        Some(A010Rsp::OK)
    } else if let Some(binn) = answer_arg::<BINN>("BINN"@, line) {
        Some(A010Rsp::Binn(binn))
    } else if let Some(disp) = answer_arg::<DISP>("DISP"@, line) {
        Some(A010Rsp::Disp(disp))
    } else if let Some(baud) = answer_arg::<BAUD>("BAUD"@, line) {
        Some(A010Rsp::Baud(baud))
    } else if let Some(unit) = answer_arg::<UNIT>("UNIT"@, line) {
        Some(A010Rsp::Unit(unit))
    } else if let Some(fps) = answer_arg::<FPS>("FPS"@, line) {
        Some(A010Rsp::Fps(fps))
    } else {
        None
    }
}

/// The response in a line of text.
pub fn parse_response(text: &str) -> (rsp: Option<A010Rsp>)
    ensures
        rsp == response(encode_utf8(text@)),
{
    proof {
        lemma_names();
    }
    let line = text.as_bytes();
    if line.len() == 2 && line[0] == 'O' as u8 && line[1] == 'K' as u8 {
        assert(line@ =~= ok_line());
        return Some(A010Rsp::OK);
    }
    if let Some(binn) = BINN::decode(line) {
        Some(A010Rsp::Binn(binn))
    } else if let Some(disp) = DISP::decode(line) {
        Some(A010Rsp::Disp(disp))
    } else if let Some(baud) = BAUD::decode(line) {
        Some(A010Rsp::Baud(baud))
    } else if let Some(unit) = UNIT::decode(line) {
        Some(A010Rsp::Unit(unit))
    } else if let Some(fps) = FPS::decode(line) {
        Some(A010Rsp::Fps(fps))
    } else {
        None
    }
}

/// The arguments of the camera as far as they are known.
#[derive(Debug, Clone, Copy, PartialEq, Eq, Structural)]
pub struct A010Config {
    pub binn: BINN,
    pub disp: DISP,
    pub baud: BAUD,
    pub unit: UNIT,
    pub fps: FPS,
}

/// The configuration before the camera has told anything.
pub open spec fn default_config() -> A010Config {
    A010Config {
        binn: BINN::of(1),
        disp: DISP::of(0),
        baud: BAUD::of(2),
        unit: UNIT::of(0),
        fps: FPS::of(1),
    }
}

impl Default for A010Config {
    fn default() -> (config: Self)
        ensures
            config == default_config(),
    {
        proof {
            lemma_defaults();
        }
        A010Config {
            binn: BINN::default(),
            disp: DISP::default(),
            baud: BAUD::default(),
            unit: UNIT::default(),
            fps: FPS::default(),
        }
    }
}

/// A command, if it is called for.
pub open spec fn set_if(called_for: bool, arg: A010Arg) -> Seq<A010Cmd> {
    if called_for {
        seq![A010Cmd::SetArg(arg)]
    } else {
        Seq::empty()
    }
}

impl A010Config {
    /// The configuration with one argument changed.
    pub open spec fn with(self, arg: A010Arg) -> A010Config {
        match arg {
            A010Arg::Binn(binn) => A010Config { binn, ..self },
            A010Arg::Disp(disp) => A010Config { disp, ..self },
            A010Arg::Baud(baud) => A010Config { baud, ..self },
            A010Arg::Unit(unit) => A010Config { unit, ..self },
            A010Arg::Fps(fps) => A010Config { fps, ..self },
        }
    }

    /// The configuration with an argument changed, if there is one.
    pub open spec fn with_some(self, arg: Option<A010Arg>) -> A010Config {
        match arg {
            Some(arg) => self.with(arg),
            None => self,
        }
    }

    /// The commands that set the arguments in which another configuration differs.
    pub open spec fn set_commands(self, next: A010Config) -> Seq<A010Cmd> {
        set_if(next.binn != self.binn, A010Arg::Binn(next.binn)) + set_if(
            next.disp != self.disp,
            A010Arg::Disp(next.disp),
        ) + set_if(next.baud != self.baud, A010Arg::Baud(next.baud)) + set_if(
            next.unit != self.unit,
            A010Arg::Unit(next.unit),
        ) + set_if(next.fps != self.fps, A010Arg::Fps(next.fps))
    }

    /// Changes one argument.
    pub fn apply(&mut self, arg: A010Arg)
        ensures
            *final(self) == old(self).with(arg),
    {
        match arg {
            A010Arg::Binn(binn) => self.binn = binn,
            A010Arg::Disp(disp) => self.disp = disp,
            A010Arg::Baud(baud) => self.baud = baud,
            A010Arg::Unit(unit) => self.unit = unit,
            A010Arg::Fps(fps) => self.fps = fps,
        }
    }

    /// The commands that lead from this configuration to another, in the order of the fields.
    pub fn changes_to(&self, next: &A010Config) -> (commands: Vec<A010Cmd>)
        ensures
            commands@ == self.set_commands(*next),
    {
        let mut commands: Vec<A010Cmd> = Vec::new();
        if next.binn != self.binn {
            commands.push(A010Cmd::SetArg(A010Arg::Binn(next.binn)));
        }
        if next.disp != self.disp {
            commands.push(A010Cmd::SetArg(A010Arg::Disp(next.disp)));
        }
        if next.baud != self.baud {
            commands.push(A010Cmd::SetArg(A010Arg::Baud(next.baud)));
        }
        if next.unit != self.unit {
            commands.push(A010Cmd::SetArg(A010Arg::Unit(next.unit)));
        }
        if next.fps != self.fps {
            commands.push(A010Cmd::SetArg(A010Arg::Fps(next.fps)));
        }
        assert(commands@ =~= self.set_commands(*next));
        commands
    }
}

} // verus!
