use a010::args::{A010Arg, BAUD, BINN, DISP, FPS, UNIT};
use a010::at::{
    decode_at_arg, numeric_value_name_0_20, write_at_get_arg, write_at_set_arg, AtArg,
};
use tokio_util::bytes::BytesMut;

#[derive(Debug, Clone, Copy, PartialEq, Eq)]
struct TestArg(u8);

impl AtArg for TestArg {
    const NAME: &'static str = "TEST";
    const MIN: u8 = 0;
    const MAX: u8 = 10;

    fn exclude_values() -> &'static [u8] {
        &[3, 5, 7]
    }

    fn value(&self) -> u8 {
        self.0
    }

    fn new_unchecked(value: u8) -> Self {
        Self(value)
    }
}

#[test]
fn test_at_arg() {
    let mut buf = BytesMut::with_capacity(32);

    let arg = TestArg::new(4).unwrap();
    arg.encode_set(&mut buf);
    assert_eq!(buf.as_ref(), b"AT+TEST=4\r\n");
    buf.clear();
    TestArg::encode_get(&mut buf);
    assert_eq!(buf.as_ref(), b"AT+TEST?\r\n");

    let decoded = TestArg::decode(b"+TEST=4").unwrap();
    assert_eq!(decoded.value(), 4);
    assert_eq!(decoded.value_name(), "4");
    assert!(TestArg::new(3).is_none());
    assert!(TestArg::new(5).is_none());
}

#[test]
fn allowed_values_leave_out_the_excluded() {
    let values: Vec<u8> = TestArg::allowed_values().iter().map(|a| a.value()).collect();
    assert_eq!(values, vec![0, 1, 2, 4, 6, 8, 9, 10]);
    let values: Vec<u8> = BINN::allowed_values().iter().map(|a| a.value()).collect();
    assert_eq!(values, vec![1, 2, 4]);
    assert_eq!(DISP::allowed_values().len(), 8);
    assert_eq!(BAUD::allowed_values().len(), 9);
    assert_eq!(UNIT::allowed_values().len(), 10);
    assert_eq!(FPS::allowed_values().len(), 19);
}

#[test]
fn check_value_keeps_the_range() {
    assert_eq!(FPS::check_value(0), None);
    assert_eq!(FPS::check_value(1), Some(1));
    assert_eq!(FPS::check_value(19), Some(19));
    assert_eq!(FPS::check_value(20), None);
    assert_eq!(BINN::check_value(3), None);
}

#[test]
fn defaults() {
    assert_eq!(BINN::default().value(), 1);
    assert_eq!(DISP::default().value(), 0);
    assert_eq!(BAUD::default().value(), 2);
    assert_eq!(UNIT::default().value(), 0);
    assert_eq!(FPS::default().value(), 1);
}

#[test]
fn value_names() {
    let binn: Vec<&str> = BINN::allowed_values().iter().map(|a| a.value_name()).collect();
    assert_eq!(binn, vec!["1x1", "2x2", "4x4"]);
    let disp: Vec<&str> = DISP::allowed_values().iter().map(|a| a.value_name()).collect();
    assert_eq!(
        disp,
        vec![
            "OFF",
            "LCD",
            "USB",
            "LCD,USB",
            "UART",
            "LCD,UART",
            "USB,UART",
            "LCD,USB,UART"
        ]
    );
    let baud: Vec<&str> = BAUD::allowed_values().iter().map(|a| a.value_name()).collect();
    assert_eq!(
        baud,
        vec![
            "9600", "57600", "115200", "230400", "460800", "921600", "1000000", "2000000",
            "3000000"
        ]
    );
    assert_eq!(UNIT::new(9).unwrap().value_name(), "9");
    assert_eq!(FPS::new(19).unwrap().value_name(), "19");
    for value in 0..=20u8 {
        assert_eq!(numeric_value_name_0_20(value), value.to_string());
    }
}

#[test]
fn get_commands() {
    let mut buf = BytesMut::new();
    write_at_get_arg("NAME", &mut buf);
    assert_eq!(buf.as_ref(), b"AT+NAME?\r\n");
    write_at_get_arg("B", &mut buf);
    assert_eq!(buf.as_ref(), b"AT+NAME?\r\nAT+B?\r\n");
    buf.clear();
    A010Arg::encode_get_binn(&mut buf);
    A010Arg::encode_get_disp(&mut buf);
    A010Arg::encode_get_baud(&mut buf);
    A010Arg::encode_get_unit(&mut buf);
    A010Arg::encode_get_fps(&mut buf);
    assert_eq!(
        buf.as_ref(),
        b"AT+BINN?\r\nAT+DISP?\r\nAT+BAUD?\r\nAT+UNIT?\r\nAT+FPS?\r\n"
    );
}

fn set_text(value: u8) -> String {
    let mut buf = BytesMut::new();
    write_at_set_arg("X", value, &mut buf);
    String::from_utf8(buf.to_vec()).unwrap()
}

#[test]
fn set_commands() {
    assert_eq!(set_text(0), "AT+X=0\r\n");
    assert_eq!(set_text(9), "AT+X=9\r\n");
    assert_eq!(set_text(10), "AT+X=10\r\n");
    assert_eq!(set_text(19), "AT+X=19\r\n");
    assert_eq!(set_text(99), "AT+X=99\r\n");
    assert_eq!(set_text(110), "AT+X=110\r\n");
    assert_eq!(set_text(255), "AT+X=255\r\n");
}

#[test]
fn set_command_loses_a_zero_in_the_tens() {
    assert_eq!(set_text(100), "AT+X=10\r\n");
    assert_eq!(set_text(105), "AT+X=15\r\n");
    assert_eq!(set_text(200), "AT+X=20\r\n");
}

#[test]
fn answers_are_read() {
    assert_eq!(decode_at_arg("BAUD", b"+BAUD=7"), Some(7));
    assert_eq!(decode_at_arg("BAUD", b"+BAUD= \t\x0C12"), Some(12));
    assert_eq!(decode_at_arg("BAUD", b"+BAUD=007"), Some(7));
    assert_eq!(decode_at_arg("BAUD", b"+BAUD=255"), Some(255));
}

#[test]
fn other_lines_are_no_answers() {
    assert_eq!(decode_at_arg("BAUD", b""), None);
    assert_eq!(decode_at_arg("BAUD", b"BAUD=7"), None);
    assert_eq!(decode_at_arg("BAUD", b"+BAU"), None);
    assert_eq!(decode_at_arg("BAUD", b"+BINN=7"), None);
    assert_eq!(decode_at_arg("BAUD", b"+BAUD7"), None);
    assert_eq!(decode_at_arg("BAUD", b"+BAUD="), None);
    assert_eq!(decode_at_arg("BAUD", b"+BAUD=  "), None);
    assert_eq!(decode_at_arg("BAUD", b"+BAUD=x"), None);
    assert_eq!(decode_at_arg("BAUD", b"+BAUD=7 "), None);
    assert_eq!(decode_at_arg("BAUD", b"+BAUD=7x"), None);
    assert_eq!(decode_at_arg("BAUD", b"+BAUD=-1"), None);
}

#[test]
fn large_numbers_are_read_modulo_256() {
    assert_eq!(decode_at_arg("BAUD", b"+BAUD=256"), Some(0));
    assert_eq!(decode_at_arg("BAUD", b"+BAUD=300"), Some(44));
}

#[test]
fn values_out_of_range_are_not_decoded() {
    assert_eq!(BINN::decode(b"+BINN=3"), None);
    assert_eq!(BINN::decode(b"+BINN=0"), None);
    assert_eq!(BINN::decode(b"+BINN=5"), None);
    assert_eq!(BINN::decode(b"+BINN=4"), BINN::new(4));
    assert_eq!(DISP::decode(b"+BINN=4"), None);
}

#[test]
fn set_commands_read_back() {
    for value in 0..=255u8 {
        let text = set_text(value);
        let answer = &text.as_bytes()[2..text.len() - 2];
        let expected = if value >= 100 && value % 100 < 10 {
            value / 100 * 10 + value % 10
        } else {
            value
        };
        assert_eq!(decode_at_arg("X", answer), Some(expected));
    }
}

#[test]
fn args_encode_themselves() {
    let mut buf = BytesMut::new();
    A010Arg::Binn(BINN::new(2).unwrap()).encode_set(&mut buf);
    A010Arg::Disp(DISP::new(7).unwrap()).encode_set(&mut buf);
    A010Arg::Baud(BAUD::new(8).unwrap()).encode_set(&mut buf);
    A010Arg::Unit(UNIT::new(0).unwrap()).encode_set(&mut buf);
    A010Arg::Fps(FPS::new(15).unwrap()).encode_set(&mut buf);
    assert_eq!(
        buf.as_ref(),
        b"AT+BINN=2\r\nAT+DISP=7\r\nAT+BAUD=8\r\nAT+UNIT=0\r\nAT+FPS=15\r\n"
    );
}
