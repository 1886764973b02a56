use a010::args::{A010Arg, BAUD, BINN, DISP, FPS, UNIT};
use a010::at::AtArg;
use a010::buffer::has_room;
use a010::codec::{A010Codec, ChecksumError};
use a010::commands::{A010Cmd, A010Rsp};
use a010::frame::{A010Frame, HEADER_SIZE, MAX_FRAME_SIZE};
use a010::machine::{A010Event, A010Machine, CMD_BUF_SIZE};
use tokio_util::bytes::BytesMut;

fn sum_of(full_size: usize, header: &[u8], pixels: &[u8]) -> u8 {
    let mut sum = 0xFFu32;
    sum += (full_size % 256) as u32 + (full_size / 256) as u32;
    for byte in header.iter().chain(pixels.iter()) {
        sum += *byte as u32;
    }
    (sum % 256) as u8
}

fn frame_bytes(header: &[u8], pixels: &[u8], sum: u8) -> Vec<u8> {
    let full_size = header.len() + pixels.len();
    let mut bytes = vec![0x00, 0xFF, (full_size % 256) as u8, (full_size / 256) as u8];
    bytes.extend_from_slice(header);
    bytes.extend_from_slice(pixels);
    bytes.push(sum);
    bytes.push(0xDD);
    bytes
}

fn sample(pixels: usize) -> (Vec<u8>, Vec<u8>) {
    let header: Vec<u8> = (0..HEADER_SIZE).map(|i| (i * 7 + 1) as u8).collect();
    let data: Vec<u8> = (0..pixels).map(|i| (i * 13 + 5) as u8).collect();
    (header, data)
}

/// A codec that has given up a frame, and so holds no size.
fn settled() -> (A010Codec, a010::channel::FrameReceiver) {
    let (mut codec, receiver) = A010Codec::new();
    codec.handle_byte(0x00);
    codec.handle_byte(0x01);
    (codec, receiver)
}

fn feed(machine: &mut A010Machine, bytes: &[u8]) -> Vec<A010Event> {
    let mut events = Vec::new();
    for byte in bytes {
        assert!(machine.accepts());
        match machine.handle_byte(*byte) {
            A010Event::Pending => {}
            event => events.push(event),
        }
    }
    events
}

fn only_line(events: Vec<A010Event>) -> String {
    assert_eq!(events.len(), 1);
    match events.into_iter().next() {
        Some(A010Event::Command(text)) => text,
        _ => panic!("no line"),
    }
}

fn only_frame(events: Vec<A010Event>) -> A010Frame {
    assert_eq!(events.len(), 1);
    match events.into_iter().next() {
        Some(A010Event::Frame(frame)) => frame,
        _ => panic!("no frame"),
    }
}

#[test]
fn line_is_received() {
    let mut machine = A010Machine::new();
    assert_eq!(only_line(feed(&mut machine, b"OK\n")), "OK");
    assert_eq!(only_line(feed(&mut machine, b"+BINN=2\r\n")), "+BINN=2");
    assert!(feed(&mut machine, b"\r\n\r\n").is_empty());
}

#[test]
fn bytes_that_are_no_text_are_replaced() {
    let mut machine = A010Machine::new();
    assert_eq!(only_line(feed(&mut machine, b"a\xFFb\n")), "a\u{FFFD}b");
    assert_eq!(only_line(feed(&mut machine, "h\u{E9}\n".as_bytes())), "h\u{E9}");
}

#[test]
fn long_line_is_cut_and_loses_a_byte() {
    let mut machine = A010Machine::new();
    let full = vec![0x61u8; CMD_BUF_SIZE];
    assert!(feed(&mut machine, &full).is_empty());
    match machine.handle_byte(0x62) {
        A010Event::Command(text) => assert_eq!(text.as_bytes(), &full[..]),
        _ => panic!("no line"),
    }
    assert_eq!(only_line(feed(&mut machine, b"c\n")), "c");
}

#[test]
fn full_line_ends_as_usual() {
    let mut machine = A010Machine::new();
    let mut bytes = vec![0x61u8; CMD_BUF_SIZE];
    bytes.push(0x0D);
    assert_eq!(only_line(feed(&mut machine, &bytes)).len(), CMD_BUF_SIZE);
}

#[test]
fn frame_is_received() {
    let mut machine = A010Machine::new();
    assert!(feed(&mut machine, &[0x00, 0x01]).is_empty());
    for pixels in [1usize, 625, 2500, 10000] {
        let (header, data) = sample(pixels);
        let sum = sum_of(header.len() + data.len(), &header, &data);
        let frame = only_frame(feed(&mut machine, &frame_bytes(&header, &data, sum)));
        assert_eq!(frame.full_size, pixels + HEADER_SIZE);
        assert_eq!(frame.frame_size, pixels);
        assert_eq!(&frame.header[..], &header[..]);
        assert_eq!(&frame.data[..pixels], &data[..]);
        assert_eq!(frame.checksum(pixels), sum);
    }
}

#[test]
fn old_pixels_stay_behind_a_smaller_frame() {
    let mut machine = A010Machine::new();
    feed(&mut machine, &[0x00, 0x01]);
    let header = vec![0u8; HEADER_SIZE];
    let sum = sum_of(HEADER_SIZE + 3, &header, &[1, 2, 3]);
    only_frame(feed(&mut machine, &frame_bytes(&header, &[1, 2, 3], sum)));
    let sum = sum_of(HEADER_SIZE + 1, &header, &[9]);
    let frame = only_frame(feed(&mut machine, &frame_bytes(&header, &[9], sum)));
    assert_eq!(&frame.data[..4], &[9, 2, 3, 0xFF]);
}

#[test]
fn frame_in_the_middle_of_a_line() {
    let mut machine = A010Machine::new();
    feed(&mut machine, &[0x00, 0x01]);
    let (header, data) = sample(25);
    let sum = sum_of(header.len() + data.len(), &header, &data);
    assert!(feed(&mut machine, b"+BI").is_empty());
    only_frame(feed(&mut machine, &frame_bytes(&header, &data, sum)));
    assert_eq!(only_line(feed(&mut machine, b"NN=4\r")), "+BINN=4");
}

#[test]
fn wrong_checksum_is_reported() {
    let mut machine = A010Machine::new();
    feed(&mut machine, &[0x00, 0x01]);
    let (header, data) = sample(25);
    let sum = sum_of(header.len() + data.len(), &header, &data);
    let events = feed(&mut machine, &frame_bytes(&header, &data, sum.wrapping_add(1)));
    assert_eq!(events.len(), 2);
    match &events[0] {
        A010Event::ChecksumError { expected, got } => {
            assert_eq!(*expected, sum);
            assert_eq!(*got, sum.wrapping_add(1));
        }
        _ => panic!("no checksum error"),
    }
    assert!(matches!(events[1], A010Event::Frame(_)));
}

#[test]
fn checksum_of_the_default_frame() {
    let frame = A010Frame::default();
    assert_eq!(frame.full_size, 10016);
    assert_eq!(frame.frame_size, 10000);
    // 0x20 + 0x27 - 1
    assert_eq!(frame.checksum(0), 0x46);
    // two pixels of 0xFF more
    assert_eq!(frame.checksum(2), 0x44);
}

#[test]
fn first_frame_of_the_default_size() {
    let mut machine = A010Machine::new();
    let (header, data) = sample(MAX_FRAME_SIZE);
    let sum = sum_of(header.len() + data.len(), &header, &data);
    let frame = only_frame(feed(&mut machine, &frame_bytes(&header, &data, sum)));
    assert_eq!(frame.full_size, 10016);
    assert_eq!(&frame.data[..], &data[..]);
}

#[test]
fn sizes_are_read_after_the_first_frame() {
    let mut machine = A010Machine::new();
    for pixels in [MAX_FRAME_SIZE, 2500, 3] {
        let (header, data) = sample(pixels);
        let sum = sum_of(header.len() + data.len(), &header, &data);
        let frame = only_frame(feed(&mut machine, &frame_bytes(&header, &data, sum)));
        assert_eq!(frame.frame_size, pixels);
    }
}

#[test]
fn first_frame_of_another_size_is_misread() {
    // 2516 is 0x09D4, and 10016 | 0xD4 is over the limit, so that only 0x0900 is left.
    let mut machine = A010Machine::new();
    let (header, data) = sample(2500);
    let bytes = frame_bytes(&header, &data, 0);
    let frame = only_frame(
        feed(&mut machine, &bytes[..4 + 16 + 2288 + 2])
            .into_iter()
            .filter(|event| matches!(event, A010Event::Frame(_)))
            .collect(),
    );
    assert_eq!(frame.full_size, 0x0900);
    assert_eq!(frame.frame_size, 2288);
}

#[test]
fn frame_without_pixels_takes_one() {
    let mut machine = A010Machine::new();
    feed(&mut machine, &[0x00, 0x01]);
    let mut bytes = vec![0x00, 0xFF, 16, 0];
    bytes.extend_from_slice(&[0; HEADER_SIZE]);
    bytes.extend_from_slice(&[7, 16 + 7 - 1, 0]);
    let frame = only_frame(feed(&mut machine, &bytes));
    assert_eq!(frame.frame_size, 0);
    assert_eq!(frame.data[0], 7);
}

#[test]
fn too_many_pixels_have_no_place() {
    let (codec, _receiver) = settled();
    // 65535 bytes announced
    let mut src = BytesMut::new();
    src.extend_from_slice(&[0x00, 0xFF, 0xFF, 0xFF]);
    src.extend_from_slice(&[0; HEADER_SIZE]);
    src.extend_from_slice(&[1; MAX_FRAME_SIZE]);
    assert!(codec.can_decode(&src));
    src.extend_from_slice(&[1]);
    assert!(!codec.can_decode(&src));

    let mut codec = codec;
    let before = src.clone();
    assert_eq!(codec.try_decode(&mut src), None);
    assert_eq!(src, before);
}

#[test]
fn size_below_the_header_has_no_end() {
    let (codec, _receiver) = settled();
    let mut src = BytesMut::new();
    src.extend_from_slice(&[0x00, 0xFF, 3, 0]);
    src.extend_from_slice(&[0; HEADER_SIZE]);
    src.extend_from_slice(&[1; MAX_FRAME_SIZE]);
    assert!(codec.can_decode(&src));
    src.extend_from_slice(&[1]);
    assert!(!codec.can_decode(&src));
}

#[test]
fn responses_are_decoded() {
    let (mut codec, _receiver) = A010Codec::new();
    let mut src = BytesMut::new();
    src.extend_from_slice(b"OK\r\n+BINN=2\r\n+DISP=7\r\n+BAUD= 8\r\n+UNIT=0\r\n+FPS=19\r\n");
    let mut responses = Vec::new();
    while !src.is_empty() {
        if let Some(rsp) = codec.decode(&mut src) {
            responses.push(rsp);
        }
    }
    assert_eq!(
        responses,
        vec![
            A010Rsp::OK,
            A010Rsp::Binn(BINN::new(2).unwrap()),
            A010Rsp::Disp(DISP::new(7).unwrap()),
            A010Rsp::Baud(BAUD::new(8).unwrap()),
            A010Rsp::Unit(UNIT::new(0).unwrap()),
            A010Rsp::Fps(FPS::new(19).unwrap()),
        ]
    );
}

#[test]
fn decode_stops_behind_a_line() {
    let (mut codec, _receiver) = A010Codec::new();
    let mut src = BytesMut::new();
    src.extend_from_slice(b"OK\r\nOK");
    assert_eq!(codec.decode(&mut src), Some(A010Rsp::OK));
    assert_eq!(src.as_ref(), b"\nOK");
    assert_eq!(codec.decode(&mut src), None);
    assert!(src.is_empty());
    src.extend_from_slice(b"\r");
    assert_eq!(codec.decode(&mut src), Some(A010Rsp::OK));
}

#[test]
fn unknown_line_ends_decoding() {
    let (mut codec, _receiver) = A010Codec::new();
    let mut src = BytesMut::new();
    src.extend_from_slice(b"hello\rOK\r");
    assert_eq!(codec.decode(&mut src), None);
    assert_eq!(src.as_ref(), b"OK\r");
    assert_eq!(codec.decode(&mut src), Some(A010Rsp::OK));
    src.extend_from_slice(b"+BINN=\xFF2\rok\r+BINN=3\r");
    assert_eq!(codec.decode(&mut src), None);
    assert_eq!(codec.decode(&mut src), None);
    assert_eq!(codec.decode(&mut src), None);
    assert!(src.is_empty());
}

#[test]
fn frames_are_shown_to_the_receiver() {
    let (mut codec, receiver) = settled();
    assert_eq!(receiver.borrow().frame_size, MAX_FRAME_SIZE);
    assert!(!receiver.has_changed().unwrap());
    let (header, data) = sample(625);
    let sum = sum_of(header.len() + data.len(), &header, &data);
    let mut src = BytesMut::new();
    src.extend_from_slice(&frame_bytes(&header, &data, sum));
    src.extend_from_slice(b"OK\r");
    assert_eq!(codec.decode(&mut src), Some(A010Rsp::OK));
    assert!(receiver.has_changed().unwrap());
    let frame = *receiver.borrow();
    assert_eq!(frame.frame_size, 625);
    assert_eq!(&frame.header[..], &header[..]);
    assert_eq!(&frame.data[..625], &data[..]);
    assert!(codec.take_checksum_errors().is_empty());
}

#[test]
fn text_of_the_last_line_is_kept_until_taken() {
    let (mut codec, _receiver) = A010Codec::new();
    let mut src = BytesMut::new();
    src.extend_from_slice(b"a\xFFb\rOK\r");
    assert_eq!(codec.take_text(), None);
    assert_eq!(codec.decode(&mut src), None);
    assert_eq!(codec.take_text(), Some("a\u{FFFD}b".to_string()));
    assert_eq!(codec.take_text(), None);
    assert_eq!(codec.decode(&mut src), Some(A010Rsp::OK));
    assert_eq!(codec.take_text(), Some("OK".to_string()));
}

#[test]
fn line_begun_is_taken_once() {
    let mut machine = A010Machine::new();
    assert_eq!(machine.handle_command(), None);
    assert!(feed(&mut machine, b"+BI").is_empty());
    assert_eq!(machine.handle_command(), Some("+BI".to_string()));
    assert_eq!(machine.handle_command(), None);
    assert_eq!(only_line(feed(&mut machine, b"OK\r")), "OK");
}

#[test]
fn each_codec_feeds_its_own_receiver() {
    let (mut first, first_receiver) = settled();
    let (_second, second_receiver) = settled();
    let header = vec![0u8; HEADER_SIZE];
    for byte in frame_bytes(&header, &[1, 2, 3, 4], 0x1D) {
        assert!(!first_receiver.has_changed().unwrap());
        assert_eq!(first.handle_byte(byte), None);
    }
    assert!(first.take_checksum_errors().is_empty());
    assert!(first_receiver.has_changed().unwrap());
    assert!(!second_receiver.has_changed().unwrap());
    let frame = *first_receiver.borrow();
    assert_eq!(frame.full_size, 20);
    assert_eq!(frame.frame_size, 4);
    assert_eq!(frame.header, [0; HEADER_SIZE]);
    assert_eq!(&frame.data[..4], &[1, 2, 3, 4]);
    assert!(frame.data[4..].iter().all(|byte| *byte == 0xFF));
}

#[test]
fn frame_with_a_wrong_checksum_is_shown() {
    let (mut codec, receiver) = settled();
    let header = vec![0u8; HEADER_SIZE];
    let mut bytes = frame_bytes(&header, &[1, 2, 3, 4], 0x00);
    let last = bytes.len() - 1;
    bytes[last] = 0x00;
    for byte in bytes {
        assert_eq!(codec.handle_byte(byte), None);
    }
    assert_eq!(
        codec.take_checksum_errors(),
        vec![ChecksumError { expected: 0x1D, got: 0x00 }]
    );
    assert_eq!(receiver.borrow().full_size, 20);
    assert_eq!(&receiver.borrow().data[..4], &[1, 2, 3, 4]);
}

#[test]
fn sizes_agree_in_a_frame() {
    let mut machine = A010Machine::new();
    feed(&mut machine, &[0x00, 0x01]);
    for pixels in [1usize, 2, 300, 10000] {
        let (header, data) = sample(pixels);
        let sum = sum_of(header.len() + data.len(), &header, &data);
        let frame = only_frame(feed(&mut machine, &frame_bytes(&header, &data, sum)));
        assert_eq!(frame.full_size, frame.frame_size + HEADER_SIZE);
    }
}

#[test]
fn commands_have_different_lines() {
    let mut commands = vec![
        A010Cmd::AT,
        A010Cmd::GetBinn,
        A010Cmd::GetDisp,
        A010Cmd::GetBaud,
        A010Cmd::GetUnit,
        A010Cmd::GetFps,
    ];
    commands.extend(BINN::allowed_values().into_iter().map(|a| A010Cmd::SetArg(A010Arg::Binn(a))));
    commands.extend(DISP::allowed_values().into_iter().map(|a| A010Cmd::SetArg(A010Arg::Disp(a))));
    commands.extend(BAUD::allowed_values().into_iter().map(|a| A010Cmd::SetArg(A010Arg::Baud(a))));
    commands.extend(UNIT::allowed_values().into_iter().map(|a| A010Cmd::SetArg(A010Arg::Unit(a))));
    commands.extend(FPS::allowed_values().into_iter().map(|a| A010Cmd::SetArg(A010Arg::Fps(a))));
    let (mut codec, _receiver) = A010Codec::new();
    let mut lines = Vec::new();
    for command in commands {
        let mut dst = BytesMut::new();
        codec.encode(command, &mut dst);
        assert!(!lines.contains(&dst));
        lines.push(dst);
    }
    assert_eq!(lines.len(), 55);
}

#[test]
fn frames_are_sent_as_long_as_somebody_watches() {
    let (mut codec, receiver) = settled();
    let other = receiver.clone();
    let header = vec![0u8; HEADER_SIZE];
    let mut src = BytesMut::new();
    src.extend_from_slice(&frame_bytes(&header, &[1, 2, 3, 4], 0x1D));
    drop(receiver);
    assert_eq!(codec.decode(&mut src), None);
    assert_eq!(&other.borrow().data[..4], &[1, 2, 3, 4]);
    drop(other);
    src.extend_from_slice(&frame_bytes(&header, &[1, 2, 3, 4], 0x1D));
    assert_eq!(codec.decode(&mut src), None);
    assert!(src.is_empty());
}

#[test]
fn last_of_two_frames_is_shown() {
    let (mut codec, receiver) = settled();
    let header = vec![0u8; HEADER_SIZE];
    let mut src = BytesMut::new();
    for pixels in [[1u8, 2, 3], [4, 5, 6]] {
        let sum = sum_of(HEADER_SIZE + 3, &header, &pixels);
        src.extend_from_slice(&frame_bytes(&header, &pixels, sum));
    }
    assert_eq!(codec.decode(&mut src), None);
    assert_eq!(&receiver.borrow().data[..3], &[4, 5, 6]);
}

#[test]
fn frames_without_a_receiver_are_dropped() {
    let (mut codec, receiver) = settled();
    drop(receiver);
    let (header, data) = sample(625);
    let mut src = BytesMut::new();
    src.extend_from_slice(&frame_bytes(&header, &data, 0));
    src.extend_from_slice(b"OK\r");
    assert_eq!(codec.try_decode(&mut src), Some(Some(A010Rsp::OK)));
}

#[test]
fn checksum_errors_are_kept_until_taken() {
    let (mut codec, _receiver) = settled();
    let (header, data) = sample(625);
    let sum = sum_of(header.len() + data.len(), &header, &data);
    let mut src = BytesMut::new();
    src.extend_from_slice(&frame_bytes(&header, &data, sum.wrapping_add(1)));
    src.extend_from_slice(&frame_bytes(&header, &data, sum));
    src.extend_from_slice(&frame_bytes(&header, &data, sum.wrapping_sub(1)));
    assert_eq!(codec.decode(&mut src), None);
    assert_eq!(
        codec.take_checksum_errors(),
        vec![
            ChecksumError { expected: sum, got: sum.wrapping_add(1) },
            ChecksumError { expected: sum, got: sum.wrapping_sub(1) },
        ]
    );
    assert!(codec.take_checksum_errors().is_empty());
}

#[test]
fn portions_do_not_matter() {
    let (header, data) = sample(625);
    let sum = sum_of(header.len() + data.len(), &header, &data);
    let mut bytes = b"+FP".to_vec();
    bytes.extend_from_slice(&frame_bytes(&header, &data, sum));
    bytes.extend_from_slice(b"S=7\r");
    let (mut whole, shown_whole) = settled();
    let mut src = BytesMut::new();
    src.extend_from_slice(&bytes);
    let expected = whole.decode(&mut src);
    assert_eq!(expected, Some(A010Rsp::Fps(FPS::new(7).unwrap())));
    let (mut parts, shown_parts) = settled();
    let mut last = None;
    for portion in bytes.chunks(7) {
        assert_eq!(last, None);
        let mut src = BytesMut::new();
        src.extend_from_slice(portion);
        last = parts.decode(&mut src);
        assert!(src.is_empty());
    }
    assert_eq!(last, expected);
    assert_eq!(&shown_parts.borrow().data[..], &shown_whole.borrow().data[..]);
}

#[test]
fn commands_are_encoded() {
    let (mut codec, _receiver) = A010Codec::new();
    let mut dst = BytesMut::new();
    codec.encode(A010Cmd::AT, &mut dst);
    codec.encode(A010Cmd::GetBinn, &mut dst);
    codec.encode(A010Cmd::GetDisp, &mut dst);
    codec.encode(A010Cmd::GetBaud, &mut dst);
    codec.encode(A010Cmd::GetUnit, &mut dst);
    codec.encode(A010Cmd::GetFps, &mut dst);
    codec.encode(A010Cmd::SetArg(A010Arg::Fps(FPS::new(12).unwrap())), &mut dst);
    assert_eq!(
        dst.as_ref(),
        b"AT\r\nAT+BINN?\r\nAT+DISP?\r\nAT+BAUD?\r\nAT+UNIT?\r\nAT+FPS?\r\nAT+FPS=12\r\n"
    );
    assert!(codec.try_encode(A010Cmd::AT, &mut dst));
    assert!(dst.ends_with(b"AT+FPS=12\r\nAT\r\n"));
    assert!(has_room(&dst, 1));
    assert!(!has_room(&dst, usize::MAX));
    assert!(!has_room(&dst, isize::MAX as usize));
    assert!(has_room(&dst, isize::MAX as usize - dst.len()));
}

#[test]
fn set_commands_decode_as_answers() {
    let mut args = Vec::new();
    args.extend(BINN::allowed_values().into_iter().map(A010Arg::Binn));
    args.extend(DISP::allowed_values().into_iter().map(A010Arg::Disp));
    args.extend(BAUD::allowed_values().into_iter().map(A010Arg::Baud));
    args.extend(UNIT::allowed_values().into_iter().map(A010Arg::Unit));
    args.extend(FPS::allowed_values().into_iter().map(A010Arg::Fps));
    assert_eq!(args.len(), 49);
    let (mut codec, _receiver) = A010Codec::new();
    for arg in args {
        let mut dst = BytesMut::new();
        arg.encode_set(&mut dst);
        let mut src = dst.split_off(2);
        let rsp = codec.decode(&mut src).unwrap();
        assert_eq!(rsp.as_arg(), Some(arg));
    }
}
