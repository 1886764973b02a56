//! What to do next on the connection to the camera.
//!
//! The functions here take what happened on the connection and say what to do next. Sending and
//! receiving is up to the caller.

use vstd::prelude::*;
use crate::args::A010Arg;
use crate::commands::{A010Cmd, A010Config, A010Rsp, default_config};

verus! {

/// What happened to a command.
#[derive(Debug, Clone, Copy, PartialEq, Eq, Structural)]
pub enum CmdEvent {
    /// It could not be sent.
    SendFailed,
    /// A response came.
    Response(A010Rsp),
    /// The stream of responses ended.
    StreamEnded,
    /// A response could not be received.
    ReceiveFailed,
}

/// What to do next about a command.
#[derive(Debug, Clone, Copy, PartialEq, Eq, Structural)]
pub enum CmdAction {
    /// Wait for a response.
    Wait,
    /// Nothing: the command is done, and the connection is lost or not.
    Done { lost: bool },
}

/// The argument that a response to a command tells: the one that the command sets, else the one in
/// the response.
pub open spec fn told_arg(cmd: A010Cmd, rsp: A010Rsp) -> Option<A010Arg> {
    if cmd.arg() is Some {
        cmd.arg()
    } else {
        rsp.arg()
    }
}

/// The configuration after an event of a command.
pub open spec fn config_after(config: A010Config, cmd: A010Cmd, event: CmdEvent) -> A010Config {
    match event {
        CmdEvent::Response(rsp) => config.with_some(told_arg(cmd, rsp)),
        _ => config,
    }
}

/// What to do after an event of a command: an acknowledgement ends it well, any other response
/// leaves it waiting, and all else loses the connection.
pub open spec fn action_after(event: CmdEvent) -> CmdAction {
    match event {
        CmdEvent::Response(A010Rsp::OK) => CmdAction::Done { lost: false },
        CmdEvent::Response(_) => CmdAction::Wait,
        _ => CmdAction::Done { lost: true },
    }
}

/// Takes what happened to a command, and says what to do next about it.
pub fn handle_cmd(config: &mut A010Config, cmd: A010Cmd, event: CmdEvent) -> (action: CmdAction)
    ensures
        *final(config) == config_after(*old(config), cmd, event),
        action == action_after(event),
{
    match event {
        CmdEvent::Response(rsp) => {
            let arg = match cmd.as_arg() {
                Some(arg) => Some(arg),
                None => rsp.as_arg(),
            };
            if let Some(arg) = arg {
                config.apply(arg);
            }
            if rsp == A010Rsp::OK {
                CmdAction::Done { lost: false }
            } else {
                CmdAction::Wait
            }
        },
        _ => CmdAction::Done { lost: true },
    }
}

/// What happened on a connection.
#[derive(Debug, Clone, Copy, PartialEq, Eq, Structural)]
pub enum ConnectionEvent {
    /// A command is done, and the connection is lost or not.
    CmdDone { lost: bool },
    /// The configuration was handed on, or nobody was there to take it.
    ConfigSent { taken: bool },
    /// A command was asked for, or nobody is left to ask for one.
    Asked(Option<A010Cmd>),
    /// A response came without a command, or the stream of responses ended.
    Unasked(Option<A010Rsp>),
}

/// What to do next on a connection.
#[derive(Debug, Clone, Copy, PartialEq, Eq, Structural)]
pub enum ConnectionAction {
    /// Send a command and wait for its end.
    RunCmd(A010Cmd),
    /// Hand the configuration on.
    SendConfig(A010Config),
    /// Wait until a command is asked for or a response comes.
    WaitInput,
    /// Give up the connection.
    Close,
}

/// The commands that ask for the configuration when the connection starts.
pub open spec fn queries() -> Seq<A010Cmd> {
    seq![A010Cmd::GetBinn, A010Cmd::GetDisp, A010Cmd::GetBaud, A010Cmd::GetUnit, A010Cmd::GetFps]
}

/// A connection: the configuration as far as it is known, and how many of the queries have been
/// made.
#[derive(Debug, Clone, Copy, PartialEq, Eq, Structural)]
pub struct A010Connection {
    pub config: A010Config,
    pub queried: usize,
}

impl A010Connection {
    /// The connection after an event, and what to do next.
    pub open spec fn next(self, event: ConnectionEvent) -> (A010Connection, ConnectionAction) {
        match event {
            ConnectionEvent::CmdDone { lost: true } => (self, ConnectionAction::Close),
            ConnectionEvent::CmdDone { lost: false } => if self.queried < queries().len() {
                (
                    A010Connection { queried: (self.queried + 1) as usize, ..self },
                    ConnectionAction::RunCmd(queries()[self.queried as int]),
                )
            } else {
                (self, ConnectionAction::SendConfig(self.config))
            },
            ConnectionEvent::ConfigSent { taken } => (
                self,
                if taken {
                    ConnectionAction::WaitInput
                } else {
                    ConnectionAction::Close
                },
            ),
            ConnectionEvent::Asked(Some(cmd)) => (self, ConnectionAction::RunCmd(cmd)),
            ConnectionEvent::Asked(None) => (self, ConnectionAction::SendConfig(self.config)),
            ConnectionEvent::Unasked(Some(rsp)) => {
                let config = self.config.with_some(rsp.arg());
                (A010Connection { config, ..self }, ConnectionAction::SendConfig(config))
            },
            ConnectionEvent::Unasked(None) => (self, ConnectionAction::Close),
        }
    }

    /// A connection with the default configuration, and its first query.
    pub fn new() -> (start: (Self, ConnectionAction))
        ensures
            start.0 == (A010Connection { config: default_config(), queried: 1 }),
            start.1 == ConnectionAction::RunCmd(queries()[0]),
    {
        let connection = A010Connection { config: A010Config::default(), queried: 1 };
        (connection, ConnectionAction::RunCmd(A010Cmd::GetBinn))
    }

    /// Takes what happened to a command, and says what to do next about it.
    pub fn handle_cmd(&mut self, cmd: A010Cmd, event: CmdEvent) -> (action: CmdAction)
        ensures
            *final(self) == (A010Connection {
                config: config_after(old(self).config, cmd, event),
                ..*old(self)
            }),
            action == action_after(event),
    {
        handle_cmd(&mut self.config, cmd, event)
    }

    /// Takes what happened on the connection, and says what to do next.
    pub fn handle_event(&mut self, event: ConnectionEvent) -> (action: ConnectionAction)
        ensures
            (*final(self), action) == old(self).next(event),
            event matches ConnectionEvent::Asked(Some(cmd)) ==> action == ConnectionAction::RunCmd(
                cmd,
            ) && *final(self) == *old(self),
    {
        match event {
            ConnectionEvent::CmdDone { lost } => {
                if lost {
                    return ConnectionAction::Close;
                }
                let query = match self.queried {
                    0 => A010Cmd::GetBinn,
                    1 => A010Cmd::GetDisp,
                    2 => A010Cmd::GetBaud,
                    3 => A010Cmd::GetUnit,
                    4 => A010Cmd::GetFps,
                    _ => return ConnectionAction::SendConfig(self.config),
                };
                self.queried = self.queried + 1;
                ConnectionAction::RunCmd(query)
            },
            ConnectionEvent::ConfigSent { taken } => {
                if taken {
                    ConnectionAction::WaitInput
                } else {
                    ConnectionAction::Close
                }
            },
            ConnectionEvent::Asked(command) => {
                match command {
                    Some(cmd) => ConnectionAction::RunCmd(cmd),
                    None => ConnectionAction::SendConfig(self.config),
                }
            },
            ConnectionEvent::Unasked(response) => {
                match response {
                    Some(rsp) => {
                        if let Some(arg) = rsp.as_arg() {
                            self.config.apply(arg);
                        }
                        ConnectionAction::SendConfig(self.config)
                    },
                    None => ConnectionAction::Close,
                }
            },
        }
    }
}

} // verus!
