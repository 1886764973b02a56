//! What the connection does with what happens on it, and what becomes of the configuration.

use vstd::prelude::*;
use crate::args::{A010Arg, lemma_values};
use crate::at::AtArg;
use crate::commands::{A010Cmd, A010Config, A010Rsp, default_config};
use crate::session::{
    A010Connection, CmdAction, CmdEvent, ConnectionAction, ConnectionEvent, action_after,
    config_after, queries, told_arg,
};

verus! {

/// A command that is asked for is the one that is run, and the connection stays as it is.
pub proof fn asked_command_is_run(connection: A010Connection, cmd: A010Cmd)
    ensures
        connection.next(ConnectionEvent::Asked(Some(cmd))) == (
            connection,
            ConnectionAction::RunCmd(cmd),
        ),
{
}

/// When nobody is left to ask, the configuration is handed on again.
pub proof fn nobody_asks(connection: A010Connection)
    ensures
        connection.next(ConnectionEvent::Asked(None)) == (
            connection,
            ConnectionAction::SendConfig(connection.config),
        ),
{
}

/// A response that comes unasked changes the argument that it tells and no other, and the
/// configuration with it is handed on.
pub proof fn unasked_response_is_taken(connection: A010Connection, rsp: A010Rsp)
    ensures
        ({
            let (next, action) = connection.next(ConnectionEvent::Unasked(Some(rsp)));
            let was = connection.config;
            let is = next.config;
            &&& action == ConnectionAction::SendConfig(is)
            &&& next.queried == connection.queried
            &&& is.binn == match rsp {
                A010Rsp::Binn(binn) => binn,
                _ => was.binn,
            }
            &&& is.disp == match rsp {
                A010Rsp::Disp(disp) => disp,
                _ => was.disp,
            }
            &&& is.baud == match rsp {
                A010Rsp::Baud(baud) => baud,
                _ => was.baud,
            }
            &&& is.unit == match rsp {
                A010Rsp::Unit(unit) => unit,
                _ => was.unit,
            }
            &&& is.fps == match rsp {
                A010Rsp::Fps(fps) => fps,
                _ => was.fps,
            }
        }),
{
}

/// The connection is given up exactly when a command has lost it, when nobody takes the
/// configuration, or when the stream of responses has ended, and it stays as it is then.
pub proof fn connection_is_given_up(connection: A010Connection, event: ConnectionEvent)
    ensures
        connection.next(event).1 is Close <==> event == (ConnectionEvent::CmdDone { lost: true })
            || event == (ConnectionEvent::ConfigSent { taken: false }) || event
            == ConnectionEvent::Unasked(None),
        connection.next(event).1 is Close ==> connection.next(event).0 == connection,
{
}

/// Input is waited for exactly when the configuration has been taken, and the connection stays as
/// it is then.
pub proof fn input_is_waited_for(connection: A010Connection, event: ConnectionEvent)
    ensures
        connection.next(event).1 is WaitInput <==> event == (ConnectionEvent::ConfigSent {
            taken: true,
        }),
        connection.next(event).1 is WaitInput ==> connection.next(event).0 == connection,
{
}

/// After a command that ended well comes the next of the five queries, and after all of them the
/// configuration is handed on. The configuration stays as it is.
pub proof fn next_query_is_made(connection: A010Connection)
    ensures
        ({
            let (next, action) = connection.next(ConnectionEvent::CmdDone { lost: false });
            let made = connection.queried;
            &&& next.config == connection.config
            &&& made < 5 ==> next.queried == made + 1
            &&& made >= 5 ==> next.queried == made
            &&& made == 0 ==> action == ConnectionAction::RunCmd(A010Cmd::GetBinn)
            &&& made == 1 ==> action == ConnectionAction::RunCmd(A010Cmd::GetDisp)
            &&& made == 2 ==> action == ConnectionAction::RunCmd(A010Cmd::GetBaud)
            &&& made == 3 ==> action == ConnectionAction::RunCmd(A010Cmd::GetUnit)
            &&& made == 4 ==> action == ConnectionAction::RunCmd(A010Cmd::GetFps)
            &&& made >= 5 ==> action == ConnectionAction::SendConfig(connection.config)
        }),
{
}

/// The queries ask for the five arguments.
pub proof fn queries_are()
    ensures
        queries().len() == 5,
        queries()[0] == A010Cmd::GetBinn,
        queries()[1] == A010Cmd::GetDisp,
        queries()[2] == A010Cmd::GetBaud,
        queries()[3] == A010Cmd::GetUnit,
        queries()[4] == A010Cmd::GetFps,
{
}

/// A response to a set command sets what the command sets. A response to another command sets what
/// it tells itself. All other arguments stay, and so do all of them without a response.
pub proof fn command_changes_what_was_told(config: A010Config, cmd: A010Cmd, event: CmdEvent)
    ensures
        ({
            let told = match event {
                CmdEvent::Response(rsp) => match cmd {
                    A010Cmd::SetArg(arg) => Some(arg),
                    _ => match rsp {
                        A010Rsp::OK => None,
                        A010Rsp::Binn(binn) => Some(A010Arg::Binn(binn)),
                        A010Rsp::Disp(disp) => Some(A010Arg::Disp(disp)),
                        A010Rsp::Baud(baud) => Some(A010Arg::Baud(baud)),
                        A010Rsp::Unit(unit) => Some(A010Arg::Unit(unit)),
                        A010Rsp::Fps(fps) => Some(A010Arg::Fps(fps)),
                    },
                },
                _ => None,
            };
            let is = config_after(config, cmd, event);
            &&& event matches CmdEvent::Response(rsp) ==> told_arg(cmd, rsp) == told
            &&& is.binn == match told {
                Some(A010Arg::Binn(binn)) => binn,
                _ => config.binn,
            }
            &&& is.disp == match told {
                Some(A010Arg::Disp(disp)) => disp,
                _ => config.disp,
            }
            &&& is.baud == match told {
                Some(A010Arg::Baud(baud)) => baud,
                _ => config.baud,
            }
            &&& is.unit == match told {
                Some(A010Arg::Unit(unit)) => unit,
                _ => config.unit,
            }
            &&& is.fps == match told {
                Some(A010Arg::Fps(fps)) => fps,
                _ => config.fps,
            }
        }),
{
}

/// A command is waited for as long as responses other than the acknowledgement come. The
/// acknowledgement ends it well, and all else loses the connection.
pub proof fn command_goes_on(event: CmdEvent)
    ensures
        action_after(event) is Wait <==> (event matches CmdEvent::Response(rsp) && rsp
            != A010Rsp::OK),
        action_after(event) == (CmdAction::Done { lost: false }) <==> event == CmdEvent::Response(
            A010Rsp::OK,
        ),
        action_after(event) == (CmdAction::Done { lost: true }) <==> event is SendFailed || event
            is StreamEnded || event is ReceiveFailed,
{
}

/// Applying an argument changes it and no other; applying none changes nothing.
pub proof fn applied_arg_changes_one(config: A010Config, arg: A010Arg)
    ensures
        ({
            let is = config.with(arg);
            &&& config.with_some(Some(arg)) == is
            &&& config.with_some(None) == config
            &&& is.binn == match arg {
                A010Arg::Binn(binn) => binn,
                _ => config.binn,
            }
            &&& is.disp == match arg {
                A010Arg::Disp(disp) => disp,
                _ => config.disp,
            }
            &&& is.baud == match arg {
                A010Arg::Baud(baud) => baud,
                _ => config.baud,
            }
            &&& is.unit == match arg {
                A010Arg::Unit(unit) => unit,
                _ => config.unit,
            }
            &&& is.fps == match arg {
                A010Arg::Fps(fps) => fps,
                _ => config.fps,
            }
        }),
{
}

/// The configuration that is held before the camera has told anything.
pub proof fn default_config_is()
    ensures
        default_config().binn.raw() == 1,
        default_config().disp.raw() == 0,
        default_config().baud.raw() == 2,
        default_config().unit.raw() == 0,
        default_config().fps.raw() == 1,
{
    lemma_values();
}

/// The place of an argument among the five.
pub open spec fn place(arg: A010Arg) -> int {
    match arg {
        A010Arg::Binn(_) => 0,
        A010Arg::Disp(_) => 1,
        A010Arg::Baud(_) => 2,
        A010Arg::Unit(_) => 3,
        A010Arg::Fps(_) => 4,
    }
}

/// The commands that lead from one configuration to another set exactly the arguments in which they
/// differ, each once, to the value that it has in the other, in a fixed order.
pub proof fn changes_are_the_differences(from: A010Config, to: A010Config, arg: A010Arg)
    ensures
        ({
            let commands = from.set_commands(to);
            let differs = match arg {
                A010Arg::Binn(binn) => binn == to.binn && binn != from.binn,
                A010Arg::Disp(disp) => disp == to.disp && disp != from.disp,
                A010Arg::Baud(baud) => baud == to.baud && baud != from.baud,
                A010Arg::Unit(unit) => unit == to.unit && unit != from.unit,
                A010Arg::Fps(fps) => fps == to.fps && fps != from.fps,
            };
            &&& commands.contains(A010Cmd::SetArg(arg)) <==> differs
            &&& forall|i: int| 0 <= i < commands.len() ==> #[trigger] commands[i] is SetArg
            &&& forall|i: int, j: int|
                0 <= i < j < commands.len() ==> place(#[trigger] commands[i]->SetArg_0) < place(
                    #[trigger] commands[j]->SetArg_0,
                )
        }),
{
    let commands = from.set_commands(to);
    let b: int = if to.binn != from.binn { 1 } else { 0 };
    let d: int = if to.disp != from.disp { 1 } else { 0 };
    let a: int = if to.baud != from.baud { 1 } else { 0 };
    let u: int = if to.unit != from.unit { 1 } else { 0 };
    let f: int = if to.fps != from.fps { 1 } else { 0 };
    assert(commands.len() == b + d + a + u + f);
    assert(b == 1 ==> commands[0] == A010Cmd::SetArg(A010Arg::Binn(to.binn)));
    assert(d == 1 ==> commands[b] == A010Cmd::SetArg(A010Arg::Disp(to.disp)));
    assert(a == 1 ==> commands[b + d] == A010Cmd::SetArg(A010Arg::Baud(to.baud)));
    assert(u == 1 ==> commands[b + d + a] == A010Cmd::SetArg(A010Arg::Unit(to.unit)));
    assert(f == 1 ==> commands[b + d + a + u] == A010Cmd::SetArg(A010Arg::Fps(to.fps)));
}

} // verus!
