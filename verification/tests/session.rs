use a010::args::{A010Arg, BAUD, BINN, DISP, FPS, UNIT};
use a010::at::AtArg;
use a010::commands::{parse_response, A010Cmd, A010Config, A010Rsp};
use a010::port::{describe_port_type, PortType};
use a010::session::{
    handle_cmd, A010Connection, CmdAction, CmdEvent, ConnectionAction, ConnectionEvent,
};

fn binn(value: u8) -> A010Arg {
    A010Arg::Binn(BINN::new(value).unwrap())
}

#[test]
fn ports_are_described() {
    assert_eq!(describe_port_type(&PortType::Usb), "USB");
    assert_eq!(describe_port_type(&PortType::Pci), "PCI");
    assert_eq!(describe_port_type(&PortType::Bluetooth), "BT");
    assert_eq!(describe_port_type(&PortType::Unknown), "UNKNOWN");
}

#[test]
fn args_of_commands_and_responses() {
    assert_eq!(A010Cmd::SetArg(binn(2)).as_arg(), Some(binn(2)));
    assert_eq!(A010Cmd::AT.as_arg(), None);
    assert_eq!(A010Cmd::GetFps.as_arg(), None);
    assert_eq!(A010Rsp::OK.as_arg(), None);
    assert_eq!(A010Rsp::Binn(BINN::new(2).unwrap()).as_arg(), Some(binn(2)));
    let unit = UNIT::new(5).unwrap();
    assert_eq!(A010Rsp::Unit(unit).as_arg(), Some(A010Arg::Unit(unit)));
}

#[test]
fn responses_are_parsed() {
    assert_eq!(parse_response("OK"), Some(A010Rsp::OK));
    assert_eq!(parse_response("OK "), None);
    assert_eq!(parse_response("ERROR"), None);
    assert_eq!(parse_response("+DISP=3"), DISP::new(3).map(A010Rsp::Disp));
    assert_eq!(parse_response("+DISP=8"), None);
    assert_eq!(parse_response("+FPS=\u{FFFD}"), None);
}

#[test]
fn default_config() {
    let config = A010Config::default();
    assert_eq!(config.binn.value(), 1);
    assert_eq!(config.disp.value(), 0);
    assert_eq!(config.baud.value(), 2);
    assert_eq!(config.unit.value(), 0);
    assert_eq!(config.fps.value(), 1);
}

#[test]
fn apply_changes_one_argument() {
    let mut config = A010Config::default();
    config.apply(A010Arg::Fps(FPS::new(10).unwrap()));
    assert_eq!(config.fps.value(), 10);
    config.apply(binn(4));
    config.apply(A010Arg::Baud(BAUD::new(7).unwrap()));
    config.apply(A010Arg::Disp(DISP::new(6).unwrap()));
    config.apply(A010Arg::Unit(UNIT::new(9).unwrap()));
    let values = [
        config.binn.value(),
        config.disp.value(),
        config.baud.value(),
        config.unit.value(),
        config.fps.value(),
    ];
    assert_eq!(values, [4, 6, 7, 9, 10]);
}

#[test]
fn changes_lead_to_the_other_config() {
    let from = A010Config::default();
    assert!(from.changes_to(&from).is_empty());
    let mut to = from;
    to.apply(A010Arg::Fps(FPS::new(10).unwrap()));
    to.apply(binn(4));
    let commands = from.changes_to(&to);
    assert_eq!(
        commands,
        vec![
            A010Cmd::SetArg(binn(4)),
            A010Cmd::SetArg(A010Arg::Fps(FPS::new(10).unwrap()))
        ]
    );
    let mut config = from;
    for command in commands {
        config.apply(command.as_arg().unwrap());
    }
    assert_eq!(config, to);
}

#[test]
fn command_ends_with_ok() {
    let mut config = A010Config::default();
    let rsp = A010Rsp::Binn(BINN::new(2).unwrap());
    assert_eq!(
        handle_cmd(&mut config, A010Cmd::GetBinn, CmdEvent::Response(rsp)),
        CmdAction::Wait
    );
    assert_eq!(config.binn.value(), 2);
    assert_eq!(
        handle_cmd(&mut config, A010Cmd::GetBinn, CmdEvent::Response(A010Rsp::OK)),
        CmdAction::Done { lost: false }
    );
    assert_eq!(config.binn.value(), 2);
}

#[test]
fn set_command_wins_over_its_answer() {
    let mut config = A010Config::default();
    let rsp = A010Rsp::Binn(BINN::new(2).unwrap());
    assert_eq!(
        handle_cmd(&mut config, A010Cmd::SetArg(binn(4)), CmdEvent::Response(rsp)),
        CmdAction::Wait
    );
    assert_eq!(config.binn.value(), 4);
}

#[test]
fn lost_commands() {
    let before = A010Config::default();
    for event in [CmdEvent::SendFailed, CmdEvent::StreamEnded, CmdEvent::ReceiveFailed] {
        let mut config = before;
        assert_eq!(
            handle_cmd(&mut config, A010Cmd::SetArg(binn(4)), event),
            CmdAction::Done { lost: true }
        );
        assert_eq!(config, before);
    }
}

#[test]
fn connection_asks_first() {
    let (mut connection, action) = A010Connection::new();
    let done = ConnectionEvent::CmdDone { lost: false };
    assert_eq!(action, ConnectionAction::RunCmd(A010Cmd::GetBinn));
    for cmd in [A010Cmd::GetDisp, A010Cmd::GetBaud, A010Cmd::GetUnit, A010Cmd::GetFps] {
        assert_eq!(connection.handle_event(done), ConnectionAction::RunCmd(cmd));
    }
    let config = A010Config::default();
    assert_eq!(connection.handle_event(done), ConnectionAction::SendConfig(config));
    assert_eq!(connection.handle_event(done), ConnectionAction::SendConfig(config));
}

#[test]
fn connection_goes_on() {
    let (mut connection, _) = A010Connection::new();
    assert_eq!(
        connection.handle_event(ConnectionEvent::ConfigSent { taken: true }),
        ConnectionAction::WaitInput
    );
    assert_eq!(
        connection.handle_event(ConnectionEvent::Asked(Some(A010Cmd::AT))),
        ConnectionAction::RunCmd(A010Cmd::AT)
    );
    assert_eq!(
        connection.handle_event(ConnectionEvent::Asked(None)),
        ConnectionAction::SendConfig(A010Config::default())
    );
    let fps = FPS::new(9).unwrap();
    let mut config = A010Config::default();
    config.apply(A010Arg::Fps(fps));
    assert_eq!(
        connection.handle_event(ConnectionEvent::Unasked(Some(A010Rsp::Fps(fps)))),
        ConnectionAction::SendConfig(config)
    );
    assert_eq!(
        connection.handle_event(ConnectionEvent::Unasked(Some(A010Rsp::OK))),
        ConnectionAction::SendConfig(config)
    );
    assert_eq!(
        connection.handle_cmd(A010Cmd::SetArg(binn(2)), CmdEvent::Response(A010Rsp::OK)),
        CmdAction::Done { lost: false }
    );
    config.apply(binn(2));
    assert_eq!(connection.config, config);
}

#[test]
fn connection_closes() {
    for event in [
        ConnectionEvent::CmdDone { lost: true },
        ConnectionEvent::ConfigSent { taken: false },
        ConnectionEvent::Unasked(None),
    ] {
        let (mut connection, _) = A010Connection::new();
        assert_eq!(connection.handle_event(event), ConnectionAction::Close);
    }
}

#[test]
fn set_command_with_several_answers() {
    let mut config = A010Config::default();
    let cmd = A010Cmd::SetArg(binn(4));
    let disp = A010Rsp::Disp(DISP::new(3).unwrap());
    assert_eq!(handle_cmd(&mut config, cmd, CmdEvent::Response(disp)), CmdAction::Wait);
    assert_eq!(
        handle_cmd(&mut config, cmd, CmdEvent::Response(A010Rsp::OK)),
        CmdAction::Done { lost: false }
    );
    let mut expected = A010Config::default();
    expected.apply(binn(4));
    assert_eq!(config, expected);
}

#[test]
fn told_configuration_is_handed_on() {
    let answers = [
        A010Rsp::Binn(BINN::new(4).unwrap()),
        A010Rsp::Disp(DISP::new(7).unwrap()),
        A010Rsp::Baud(BAUD::new(8).unwrap()),
        A010Rsp::Unit(UNIT::new(9).unwrap()),
        A010Rsp::Fps(FPS::new(19).unwrap()),
    ];
    let (mut connection, mut action) = A010Connection::new();
    let mut expected = A010Config::default();
    for answer in answers {
        let cmd = match action {
            ConnectionAction::RunCmd(cmd) => cmd,
            _ => panic!("no query"),
        };
        assert_eq!(connection.handle_cmd(cmd, CmdEvent::Response(answer)), CmdAction::Wait);
        assert_eq!(
            connection.handle_cmd(cmd, CmdEvent::Response(A010Rsp::OK)),
            CmdAction::Done { lost: false }
        );
        action = connection.handle_event(ConnectionEvent::CmdDone { lost: false });
        expected.apply(answer.as_arg().unwrap());
    }
    assert_eq!(action, ConnectionAction::SendConfig(expected));
}

#[test]
fn last_answer_to_a_query_is_held() {
    let mut config = A010Config::default();
    let answers = [
        A010Rsp::Binn(BINN::new(2).unwrap()),
        A010Rsp::Fps(FPS::new(5).unwrap()),
        A010Rsp::Binn(BINN::new(4).unwrap()),
        A010Rsp::OK,
    ];
    for answer in answers {
        handle_cmd(&mut config, A010Cmd::GetBinn, CmdEvent::Response(answer));
    }
    let mut expected = A010Config::default();
    expected.apply(binn(4));
    expected.apply(A010Arg::Fps(FPS::new(5).unwrap()));
    assert_eq!(config, expected);
}
