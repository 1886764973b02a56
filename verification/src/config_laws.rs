//! Laws of the configuration and of the connection that keeps it.

use vstd::prelude::*;
use crate::args::{A010Arg, BAUD, BINN, DISP, FPS, UNIT, lemma_values};
use crate::at::{AtArg, allowed_list, values_between};
use crate::command_laws::is_valid;
use crate::commands::{A010Cmd, A010Config, A010Rsp, default_config, response, set_if};
use crate::session::{
    A010Connection, CmdAction, CmdEvent, ConnectionAction, ConnectionEvent, action_after,
    config_after, queries,
};

verus! {

/// The list of allowed values holds exactly the allowed values, smallest first.
pub proof fn allowed_list_is_exact(allows: spec_fn(u8) -> bool, value: u8)
    ensures
        allowed_list(allows).contains(value) <==> allows(value),
        forall|i: int, j: int|
            0 <= i < j < allowed_list(allows).len() ==> allowed_list(allows)[i] < allowed_list(
                allows,
            )[j],
{
    let all = values_between(0, 256);
    broadcast use vstd::seq_lib::group_filter_ensures;

    if allows(value) {
        assert(all[value as int] == value);
    }
    lemma_filter_ascends(all, allows);
}

/// What is kept of an ascending sequence ascends, up to the last value at most.
proof fn lemma_filter_ascends(values: Seq<u8>, keep: spec_fn(u8) -> bool)
    requires
        forall|i: int, j: int| 0 <= i < j < values.len() ==> values[i] < values[j],
    ensures
        forall|i: int, j: int|
            0 <= i < j < values.filter(keep).len() ==> values.filter(keep)[i] < values.filter(
                keep,
            )[j],
        forall|i: int|
            0 <= i < values.filter(keep).len() ==> #[trigger] values.filter(keep)[i]
                <= values.last(),
    decreases values.len(),
{
    reveal(Seq::filter);
    if values.len() > 0 {
        let front = values.drop_last();
        let kept = front.filter(keep);
        lemma_filter_ascends(front, keep);
        assert forall|i: int| 0 <= i < kept.len() implies #[trigger] kept[i] < values.last() by {
            front.lemma_filter_len(keep);
            assert(front.last() < values.last());
        }
        let out = values.filter(keep);
        assert(out == if keep(values.last()) {
            kept.push(values.last())
        } else {
            kept
        });
        assert forall|i: int, j: int| 0 <= i < j < out.len() implies out[i] < out[j] by {
            assert(out[i] == kept[i]);
            if j < kept.len() {
                assert(out[j] == kept[j]);
            }
        }
        assert forall|i: int| 0 <= i < out.len() implies #[trigger] out[i] <= values.last() by {
            if i < kept.len() {
                assert(out[i] == kept[i]);
            }
        }
    }
}

/// Every argument with an allowed value has a name to show.
pub proof fn valid_args_have_names(arg: A010Arg)
    requires
        is_valid(arg),
    ensures
        arg.raw() <= 20,
        match arg {
            A010Arg::Binn(binn) => BINN::has_name(binn.raw()),
            A010Arg::Disp(disp) => DISP::has_name(disp.raw()),
            A010Arg::Baud(baud) => BAUD::has_name(baud.raw()),
            A010Arg::Unit(unit) => UNIT::has_name(unit.raw()),
            A010Arg::Fps(fps) => FPS::has_name(fps.raw()),
        },
{
}

/// A response tells only arguments with allowed values.
pub proof fn responses_are_valid(line: Seq<u8>)
    ensures
        response(line) matches Some(rsp) ==> (rsp.arg() matches Some(arg) ==> is_valid(arg)),
{
    lemma_values();
}

/// Every argument of a configuration has an allowed value.
pub open spec fn is_valid_config(config: A010Config) -> bool {
    &&& is_valid(A010Arg::Binn(config.binn))
    &&& is_valid(A010Arg::Disp(config.disp))
    &&& is_valid(A010Arg::Baud(config.baud))
    &&& is_valid(A010Arg::Unit(config.unit))
    &&& is_valid(A010Arg::Fps(config.fps))
}

/// The default configuration has allowed values.
pub proof fn default_config_is_valid()
    ensures
        is_valid_config(default_config()),
{
    lemma_values();
}

/// A configuration holds the argument that was applied last, and the others as they were.
pub proof fn applied_arg_is_held(config: A010Config, arg: A010Arg)
    ensures
        config.with(arg).with(arg) == config.with(arg),
        match arg {
            A010Arg::Binn(binn) => config.with(arg).binn == binn,
            A010Arg::Disp(disp) => config.with(arg).disp == disp,
            A010Arg::Baud(baud) => config.with(arg).baud == baud,
            A010Arg::Unit(unit) => config.with(arg).unit == unit,
            A010Arg::Fps(fps) => config.with(arg).fps == fps,
        },
        !(arg is Binn) ==> config.with(arg).binn == config.binn,
        !(arg is Disp) ==> config.with(arg).disp == config.disp,
        !(arg is Baud) ==> config.with(arg).baud == config.baud,
        !(arg is Unit) ==> config.with(arg).unit == config.unit,
        !(arg is Fps) ==> config.with(arg).fps == config.fps,
        is_valid_config(config) && is_valid(arg) ==> is_valid_config(config.with(arg)),
{
}

/// A configuration after the arguments that some commands set.
pub open spec fn after_commands(config: A010Config, commands: Seq<A010Cmd>) -> A010Config
    decreases commands.len(),
{
    if commands.len() == 0 {
        config
    } else {
        after_commands(config.with_some(commands[0].arg()), commands.skip(1))
    }
}

/// Commands after commands.
proof fn lemma_after_commands(config: A010Config, first: Seq<A010Cmd>, second: Seq<A010Cmd>)
    ensures
        after_commands(config, first + second) == after_commands(
            after_commands(config, first),
            second,
        ),
    decreases first.len(),
{
    if first.len() == 0 {
        assert(first + second =~= second);
    } else {
        assert((first + second).skip(1) =~= first.skip(1) + second);
        lemma_after_commands(config.with_some(first[0].arg()), first.skip(1), second);
    }
}

/// One command that is called for or not.
proof fn lemma_set_if(config: A010Config, called_for: bool, arg: A010Arg)
    ensures
        after_commands(config, set_if(called_for, arg)) == (if called_for {
            config.with(arg)
        } else {
            config
        }),
{
    reveal_with_fuel(after_commands, 2);
}

/// The commands that lead from one configuration to another lead there.
pub proof fn changes_lead_there(from: A010Config, to: A010Config)
    ensures
        after_commands(from, from.set_commands(to)) == to,
{
    let binn = set_if(to.binn != from.binn, A010Arg::Binn(to.binn));
    let disp = set_if(to.disp != from.disp, A010Arg::Disp(to.disp));
    let baud = set_if(to.baud != from.baud, A010Arg::Baud(to.baud));
    let unit = set_if(to.unit != from.unit, A010Arg::Unit(to.unit));
    let fps = set_if(to.fps != from.fps, A010Arg::Fps(to.fps));
    lemma_after_commands(from, binn + disp + baud + unit, fps);
    lemma_after_commands(from, binn + disp + baud, unit);
    lemma_after_commands(from, binn + disp, baud);
    lemma_after_commands(from, binn, disp);
    lemma_set_if(from, to.binn != from.binn, A010Arg::Binn(to.binn));
    let c1 = after_commands(from, binn);
    lemma_set_if(c1, to.disp != from.disp, A010Arg::Disp(to.disp));
    let c2 = after_commands(c1, disp);
    lemma_set_if(c2, to.baud != from.baud, A010Arg::Baud(to.baud));
    let c3 = after_commands(c2, baud);
    lemma_set_if(c3, to.unit != from.unit, A010Arg::Unit(to.unit));
    let c4 = after_commands(c3, unit);
    lemma_set_if(c4, to.fps != from.fps, A010Arg::Fps(to.fps));
}

/// No command is called for exactly where nothing has changed.
pub proof fn no_change_no_command(from: A010Config, to: A010Config)
    ensures
        from.set_commands(to).len() == 0 <==> from == to,
{
}

/// The configuration after all the responses to a command.
pub open spec fn config_after_all(
    config: A010Config,
    cmd: A010Cmd,
    responses: Seq<A010Rsp>,
) -> A010Config
    decreases responses.len(),
{
    if responses.len() == 0 {
        config
    } else {
        config_after_all(
            config_after(config, cmd, CmdEvent::Response(responses[0])),
            cmd,
            responses.skip(1),
        )
    }
}

/// A set command that is answered sets its argument and no other, whatever the answers.
pub proof fn answered_set_is_held(config: A010Config, arg: A010Arg, responses: Seq<A010Rsp>)
    requires
        responses.len() >= 1,
    ensures
        config_after_all(config, A010Cmd::SetArg(arg), responses) == config.with(arg),
    decreases responses.len(),
{
    let cmd = A010Cmd::SetArg(arg);
    let rest = responses.skip(1);
    if rest.len() > 0 {
        answered_set_is_held(config.with(arg), arg, rest);
        applied_arg_is_held(config, arg);
    } else {
        assert(config_after_all(config.with(arg), cmd, rest) == config.with(arg));
    }
}

/// Two arguments are values of one.
pub open spec fn same_argument(arg: A010Arg, other: A010Arg) -> bool {
    match arg {
        A010Arg::Binn(_) => other is Binn,
        A010Arg::Disp(_) => other is Disp,
        A010Arg::Baud(_) => other is Baud,
        A010Arg::Unit(_) => other is Unit,
        A010Arg::Fps(_) => other is Fps,
    }
}

/// A response tells a value of an argument.
pub open spec fn tells(rsp: A010Rsp, arg: A010Arg) -> bool {
    rsp.arg() matches Some(told) && same_argument(told, arg)
}

/// A command that sets nothing leaves an argument as it is where no answer tells it.
pub proof fn untold_arg_stays(
    config: A010Config,
    cmd: A010Cmd,
    responses: Seq<A010Rsp>,
    arg: A010Arg,
)
    requires
        !(cmd is SetArg),
        config.with(arg) == config,
        forall|i: int| 0 <= i < responses.len() ==> !tells(#[trigger] responses[i], arg),
    ensures
        config_after_all(config, cmd, responses).with(arg) == config_after_all(
            config,
            cmd,
            responses,
        ),
    decreases responses.len(),
{
    if responses.len() > 0 {
        let next = config_after(config, cmd, CmdEvent::Response(responses[0]));
        let rest = responses.skip(1);
        assert(!tells(responses[0], arg));
        assert(next.with(arg) == next);
        assert forall|i: int| 0 <= i < rest.len() implies !tells(#[trigger] rest[i], arg) by {
            assert(!tells(responses[i + 1], arg));
        }
        untold_arg_stays(next, cmd, rest, arg);
    }
}

/// After a command that sets nothing, each argument has the value that was told last.
pub proof fn answered_query_is_held(
    config: A010Config,
    cmd: A010Cmd,
    responses: Seq<A010Rsp>,
    last: int,
    arg: A010Arg,
)
    requires
        !(cmd is SetArg),
        0 <= last < responses.len(),
        responses[last].arg() == Some(arg),
        forall|i: int| last < i < responses.len() ==> !tells(#[trigger] responses[i], arg),
    ensures
        config_after_all(config, cmd, responses).with(arg) == config_after_all(
            config,
            cmd,
            responses,
        ),
    decreases responses.len(),
{
    let next = config_after(config, cmd, CmdEvent::Response(responses[0]));
    let rest = responses.skip(1);
    assert forall|i: int| last - 1 < i < rest.len() && 0 <= i implies !tells(
        #[trigger] rest[i],
        arg,
    ) by {
        assert(!tells(responses[i + 1], arg));
    }
    if last == 0 {
        applied_arg_is_held(config, arg);
        untold_arg_stays(next, cmd, rest, arg);
    } else {
        answered_query_is_held(next, cmd, rest, last - 1, arg);
    }
}

/// A command is done well exactly when it is acknowledged.
pub proof fn only_ok_ends_a_command_well(event: CmdEvent)
    ensures
        action_after(event) == (CmdAction::Done { lost: false }) <==> event == CmdEvent::Response(
            A010Rsp::OK,
        ),
{
}

/// What a connection does after commands that all ended well, where `told` is the configuration
/// that was known at the end of each.
pub open spec fn action_after_commands(
    connection: A010Connection,
    told: Seq<A010Config>,
) -> ConnectionAction
    decreases told.len(),
{
    let (next, action) = A010Connection { config: told[0], ..connection }.next(
        ConnectionEvent::CmdDone { lost: false },
    );
    if told.len() <= 1 {
        action
    } else {
        action_after_commands(next, told.skip(1))
    }
}

/// A connection that has made some of its queries goes on with the others.
proof fn lemma_queries_go_on(connection: A010Connection, told: Seq<A010Config>)
    requires
        told.len() >= 1,
        connection.queried + told.len() <= queries().len() + 1,
    ensures
        action_after_commands(connection, told) == (if connection.queried + told.len()
            <= queries().len() {
            ConnectionAction::RunCmd(queries()[connection.queried + told.len() - 1])
        } else {
            ConnectionAction::SendConfig(told.last())
        }),
    decreases told.len(),
{
    if told.len() > 1 {
        let next = A010Connection { config: told[0], ..connection }.next(
            ConnectionEvent::CmdDone { lost: false },
        ).0;
        lemma_queries_go_on(next, told.skip(1));
    }
}

/// A new connection asks for every argument, once and in order, and then hands on what it was told,
/// as long as its commands end well.
pub proof fn queries_come_first(connection: A010Connection, told: Seq<A010Config>)
    requires
        connection.queried == 1,
        1 <= told.len() <= queries().len(),
    ensures
        action_after_commands(connection, told) == (if told.len() < queries().len() {
            ConnectionAction::RunCmd(queries()[told.len() as int])
        } else {
            ConnectionAction::SendConfig(told.last())
        }),
{
    lemma_queries_go_on(connection, told);
}

/// The configuration that is handed on is the one that is known, and one that has changed is
/// handed on.
pub proof fn known_config_is_handed_on(connection: A010Connection, event: ConnectionEvent)
    ensures
        ({
            let (next, action) = connection.next(event);
            &&& action matches ConnectionAction::SendConfig(config) ==> config == next.config
            &&& next.config != connection.config ==> action is SendConfig
        }),
{
}

/// A connection keeps allowed values if it is told only allowed values.
pub proof fn connection_keeps_valid(
    connection: A010Connection,
    cmd: A010Cmd,
    event: CmdEvent,
    other: ConnectionEvent,
)
    requires
        is_valid_config(connection.config),
        cmd.arg() matches Some(arg) ==> is_valid(arg),
        event matches CmdEvent::Response(rsp) ==> (rsp.arg() matches Some(arg) ==> is_valid(arg)),
        other matches ConnectionEvent::Unasked(Some(rsp)) ==> (rsp.arg() matches Some(arg)
            ==> is_valid(arg)),
    ensures
        is_valid_config(config_after(connection.config, cmd, event)),
        is_valid_config(connection.next(other).0.config),
{
}

} // verus!
