//! What the bytes on the wire mean: checksums, frames, lines and the responses in them.

use tokio_util::bytes::BytesMut;
use vstd::prelude::*;
use vstd::utf8::{encode_utf8, valid_utf8};
use crate::args::A010Arg;
use crate::buffer::buffered;
use crate::channel::FrameReceiver;
use crate::codec::{
    A010Codec, ChecksumError, all_accepted, decoded, error_of, frame_of, same_channel, scan, shows,
};
use crate::command_laws::{
    arg_answer, arg_reads_back, is_valid, lemma_ascii_is_valid, lemma_valid_answer,
};
use crate::commands::{A010Rsp, response};
use crate::frame::{FrameView, byte_sum, checksum_of, default_frame};
use crate::machine::{
    A010Event, EventView, MachineView, event_is, initial_machine, is_line_end, step, text_is,
};
use crate::stream_laws::{
    default_size_is_read, frame_bytes, frame_is_received, is_text, line_is_received,
    portions_do_not_matter, rest_does_not_matter, size_is_read_after_a_frame,
};
use crate::text::lossy_text;

verus! {

/// The sum of bytes is made of the bytes, each counted once wherever it stands.
pub proof fn sum_is_additive(first: Seq<u8>, second: Seq<u8>)
    ensures
        byte_sum(first + second) == byte_sum(first) + byte_sum(second),
    decreases second.len(),
{
    if second.len() == 0 {
        assert(first + second =~= first);
    } else {
        assert((first + second).drop_last() =~= first + second.drop_last());
        sum_is_additive(first, second.drop_last());
    }
}

/// The sum of no byte is zero, and that of one byte is the byte.
pub proof fn sum_of_one(byte: u8)
    ensures
        byte_sum(Seq::empty()) == 0,
        byte_sum(seq![byte]) == byte,
{
    reveal_with_fuel(byte_sum, 2);
}

/// Another byte in one place changes the sum by the difference.
pub proof fn sum_after_change(bytes: Seq<u8>, i: int, byte: u8)
    requires
        0 <= i < bytes.len(),
    ensures
        byte_sum(bytes.update(i, byte)) == byte_sum(bytes) - bytes[i] + byte,
{
    let front = bytes.take(i);
    let back = bytes.skip(i + 1);
    assert(bytes =~= front + seq![bytes[i]] + back);
    assert(bytes.update(i, byte) =~= front + seq![byte] + back);
    sum_is_additive(front, seq![bytes[i]]);
    sum_is_additive(front + seq![bytes[i]], back);
    sum_is_additive(front, seq![byte]);
    sum_is_additive(front + seq![byte], back);
    sum_of_one(bytes[i]);
    sum_of_one(byte);
}

/// The checksum of a frame is the sum, modulo 256, of all the bytes that stand in front of it on
/// the wire: the start mark, the size with its low byte first, the header and every pixel.
pub proof fn checksum_sums_the_wire(frame: FrameView, received: int)
    requires
        0 <= received <= frame.data.len(),
    ensures
        checksum_of(frame, received) == byte_sum(
            seq![
                0x00u8,
                0xFFu8,
                (frame.full_size % 256) as u8,
                (frame.full_size / 256 % 256) as u8,
            ] + frame.header + frame.data.take(received),
        ) % 256,
{
    let low = (frame.full_size % 256) as u8;
    let high = (frame.full_size / 256 % 256) as u8;
    let start = seq![0x00u8, 0xFFu8, low, high];
    let pixels = frame.data.take(received);
    sum_is_additive(start, frame.header);
    sum_is_additive(start + frame.header, pixels);
    assert(start =~= seq![0x00u8] + seq![0xFFu8] + seq![low] + seq![high]);
    sum_is_additive(seq![0x00u8], seq![0xFFu8]);
    sum_is_additive(seq![0x00u8] + seq![0xFFu8], seq![low]);
    sum_is_additive(seq![0x00u8] + seq![0xFFu8] + seq![low], seq![high]);
    sum_of_one(0x00);
    sum_of_one(0xFF);
    sum_of_one(low);
    sum_of_one(high);
}

/// Another byte in any one place of the header or the pixels that are there gives another
/// checksum.
pub proof fn damage_changes_the_checksum(frame: FrameView, received: int, i: int, byte: u8)
    requires
        0 <= received <= frame.data.len(),
    ensures
        0 <= i < received && byte != frame.data[i] ==> checksum_of(
            FrameView { data: frame.data.update(i, byte), ..frame },
            received,
        ) != checksum_of(frame, received),
        0 <= i < frame.header.len() && byte != frame.header[i] ==> checksum_of(
            FrameView { header: frame.header.update(i, byte), ..frame },
            received,
        ) != checksum_of(frame, received),
        received <= i < frame.data.len() ==> checksum_of(
            FrameView { data: frame.data.update(i, byte), ..frame },
            received,
        ) == checksum_of(frame, received),
{
    let pixels = frame.data.take(received);
    if 0 <= i < received {
        assert(frame.data.update(i, byte).take(received) =~= pixels.update(i, byte));
        sum_after_change(pixels, i, byte);
    }
    if 0 <= i < frame.header.len() {
        sum_after_change(frame.header, i, byte);
    }
    if received <= i < frame.data.len() {
        assert(frame.data.update(i, byte).take(received) =~= pixels);
    }
}

/// A frame on the wire, received between lines or in the middle of one by a machine that holds no
/// size, is completed by its last byte, with the header and all the pixels that were sent. Its
/// checksum is right exactly if it is the sum of all the bytes in front of it. The line that was
/// begun is left alone, and the machine holds no size again. A machine that still holds the size of
/// the default frame receives a full frame in the same way.
pub proof fn sent_frame_is_received(
    m: MachineView,
    header: Seq<u8>,
    pixels: Seq<u8>,
    sum: u8,
    stop: u8,
)
    requires
        m.status is Cmd,
        m.frame.header.len() == 16,
        m.frame.data.len() == 10000,
        header.len() == 16,
        1 <= pixels.len() <= 10000,
        m.frame.full_size == 0 || m.frame.full_size == 10016 && pixels.len() == 10000,
    ensures
        ({
            let n = pixels.len() as int;
            let front = seq![0x00u8, 0xFFu8, ((n + 16) % 256) as u8, ((n + 16) / 256) as u8]
                + header + pixels;
            let bytes = front + seq![sum, stop];
            let right = (byte_sum(front) % 256) as u8;
            let done = scan(m, bytes);
            &&& all_accepted(m, bytes)
            &&& done.taken == bytes.len()
            &&& done.line is None
            &&& done.frames.len() == 1
            &&& done.frames[0].full_size == n + 16
            &&& done.frames[0].frame_size == n
            &&& done.frames[0].header == header
            &&& done.frames[0].data == pixels + m.frame.data.skip(n)
            &&& sum == right ==> done.errors.len() == 0
            &&& sum != right ==> done.errors == seq![ChecksumError { expected: right, got: sum }]
            &&& done.machine.status is Cmd
            &&& done.machine.line == m.line
            &&& done.machine.received == 0
            &&& done.machine.frame.full_size == 0
            &&& done.machine.frame.frame_size == 0
            &&& done.machine.frame.header == header
            &&& done.machine.frame.data == pixels + m.frame.data.skip(n)
        }),
{
    let n = pixels.len() as int;
    if m.frame.full_size == 0 {
        size_is_read_after_a_frame(n);
    } else {
        default_size_is_read();
    }
    frame_is_received(m, header, pixels, sum, stop);
    let front = seq![0x00u8, 0xFFu8, ((n + 16) % 256) as u8, ((n + 16) / 256) as u8] + header
        + pixels;
    assert(front + seq![sum, stop] =~= frame_bytes(header, pixels, sum, stop));
    let frame = FrameView {
        full_size: (n + 16) as usize,
        header,
        frame_size: n as usize,
        data: pixels + m.frame.data.skip(n),
    };
    checksum_sums_the_wire(frame, n);
    assert(frame.data.take(n) =~= pixels);
}

/// A start of a frame that is broken off by a byte other than `0xFF` is skipped with that byte, and
/// the machine holds no size from then on.
pub proof fn broken_start_is_skipped(m: MachineView, byte: u8)
    requires
        m.status is Cmd,
        byte != 0xFF,
    ensures
        ({
            let done = scan(m, seq![0x00u8, byte]);
            &&& all_accepted(m, seq![0x00u8, byte])
            &&& done.taken == 2
            &&& done.line is None
            &&& done.frames.len() == 0
            &&& done.errors.len() == 0
            &&& done.machine.status is Cmd
            &&& done.machine.line == m.line
            &&& done.machine.received == 0
            &&& done.machine.frame.full_size == 0
            &&& done.machine.frame.frame_size == 0
            &&& done.machine.frame.header == m.frame.header
            &&& done.machine.frame.data == m.frame.data
        }),
{
    let b0 = seq![0x00u8, byte];
    let b1 = b0.skip(1);
    let b2 = b1.skip(1);
    let m1 = step(m, b0[0]).0;
    let m2 = step(m1, b1[0]).0;
    assert(scan(m2, b2).machine == m2 && all_accepted(m2, b2));
    assert(scan(m1, b1).machine == m2 && all_accepted(m1, b1));
}

/// A start mark begins a frame whose size is read from two bytes, low byte first. Their bits are
/// added to those of a size that is still held, and a size over 10032 after the low byte is
/// dropped. The pixels are the size less 16, modulo the range of `usize`.
pub proof fn size_is_read(m: MachineView, low: u8, high: u8)
    requires
        m.status is Cmd,
    ensures
        ({
            let bytes = seq![0x00u8, 0xFFu8, low, high];
            let done = scan(m, bytes);
            let held = m.frame.full_size | (low as usize);
            let full = done.machine.frame.full_size;
            &&& all_accepted(m, bytes)
            &&& done.taken == 4
            &&& done.line is None
            &&& done.frames.len() == 0
            &&& done.errors.len() == 0
            &&& done.machine.status is FrameHeader
            &&& done.machine.line == m.line
            &&& done.machine.received == 0
            &&& done.machine.frame.header == m.frame.header
            &&& done.machine.frame.data == m.frame.data
            &&& held <= 10032 ==> full == held | ((high as usize) << 8)
            &&& held > 10032 ==> full == 0usize | ((high as usize) << 8)
            &&& done.machine.frame.frame_size + 16 == full || done.machine.frame.frame_size + 16
                == full + usize::MAX + 1
        }),
{
    let b0 = seq![0x00u8, 0xFFu8, low, high];
    let b1 = b0.skip(1);
    let b2 = b1.skip(1);
    let b3 = b2.skip(1);
    let b4 = b3.skip(1);
    let m1 = step(m, b0[0]).0;
    let m2 = step(m1, b1[0]).0;
    let m3 = step(m2, b2[0]).0;
    let m4 = step(m3, b3[0]).0;
    assert(scan(m4, b4).machine == m4 && all_accepted(m4, b4));
    assert(scan(m3, b3).machine == m4 && all_accepted(m3, b3));
    assert(scan(m2, b2).machine == m4 && all_accepted(m2, b2));
    assert(scan(m1, b1).machine == m4 && all_accepted(m1, b1));
}

/// A byte of the header goes to the next place of the header and nowhere else. The last one leads
/// to the pixels.
pub proof fn header_byte_is_kept(m: MachineView, byte: u8)
    requires
        m.status is FrameHeader,
        m.frame.header.len() == 16,
        0 <= m.received < 16,
    ensures
        ({
            let (next, event) = step(m, byte);
            &&& event is Pending
            &&& m.received < 15 ==> next.status is FrameHeader && next.received == m.received + 1
            &&& m.received == 15 ==> next.status is FrameData && next.received == 0
            &&& next.frame.header.len() == 16
            &&& next.frame.header[m.received] == byte
            &&& forall|i: int|
                0 <= i < 16 && i != m.received ==> #[trigger] next.frame.header[i]
                    == m.frame.header[i]
            &&& next.frame.data == m.frame.data
            &&& next.frame.full_size == m.frame.full_size
            &&& next.frame.frame_size == m.frame.frame_size
            &&& next.line == m.line
        }),
{
}

/// A pixel goes to the next place of the pixels and nowhere else. The last one leads to the
/// checksum, and the first one does so too where no pixel was announced.
pub proof fn pixel_is_kept(m: MachineView, byte: u8)
    requires
        m.status is FrameData,
        m.frame.data.len() == 10000,
        0 <= m.received < 10000,
    ensures
        ({
            let (next, event) = step(m, byte);
            &&& event is Pending
            &&& next.received == m.received + 1
            &&& m.received + 1 < m.frame.frame_size ==> next.status is FrameData
            &&& m.received + 1 >= m.frame.frame_size ==> next.status is FrameSum
            &&& next.frame.data.len() == 10000
            &&& next.frame.data[m.received] == byte
            &&& forall|i: int|
                0 <= i < 10000 && i != m.received ==> #[trigger] next.frame.data[i]
                    == m.frame.data[i]
            &&& next.frame.header == m.frame.header
            &&& next.frame.full_size == m.frame.full_size
            &&& next.frame.frame_size == m.frame.frame_size
            &&& next.line == m.line
        }),
{
}

/// The byte behind the pixels is compared with the sum of what came before. Right or wrong, the
/// byte after it completes the frame as it was received, and the machine holds no size again.
pub proof fn checksum_and_stop_complete(m: MachineView, sum: u8, stop: u8)
    requires
        m.status is FrameSum,
        0 <= m.received <= m.frame.data.len(),
    ensures
        ({
            let front = seq![
                0x00u8,
                0xFFu8,
                (m.frame.full_size % 256) as u8,
                (m.frame.full_size / 256 % 256) as u8,
            ] + m.frame.header + m.frame.data.take(m.received);
            let right = (byte_sum(front) % 256) as u8;
            let (middle, compared) = step(m, sum);
            let (next, completed) = step(middle, stop);
            &&& sum == right ==> compared is Pending
            &&& sum != right ==> compared == (EventView::ChecksumError {
                expected: right,
                got: sum,
            })
            &&& middle.status is FrameStop
            &&& completed == EventView::Frame(m.frame)
            &&& next.status is Cmd
            &&& next.line == m.line
            &&& next.received == 0
            &&& next.frame.full_size == 0
            &&& next.frame.frame_size == 0
            &&& next.frame.header == m.frame.header
            &&& next.frame.data == m.frame.data
        }),
{
    checksum_sums_the_wire(m.frame, m.received);
}

/// A byte of text is put behind the line as long as there are fewer than 128, and nothing else
/// changes. The next one completes the line and is lost. A line feed or a carriage return completes
/// a line that is not empty. A zero byte leaves the line as it is.
pub proof fn text_is_gathered(m: MachineView, byte: u8)
    requires
        m.status is Cmd,
    ensures
        ({
            let (next, event) = step(m, byte);
            let ends = byte == 0x0D || byte == 0x0A;
            let text = byte != 0x00 && !ends;
            &&& next.frame == m.frame
            &&& next.received == m.received
            &&& byte == 0x00 ==> next.status is FrameStart && next.line == m.line
                && event is Pending
            &&& byte != 0x00 ==> next.status is Cmd
            &&& text && m.line.len() < 128 ==> next.line == m.line.push(byte) && event is Pending
            &&& text && m.line.len() >= 128 ==> next.line.len() == 0 && event
                == EventView::Command(m.line)
            &&& ends && m.line.len() > 0 ==> next.line.len() == 0 && event == EventView::Command(
                m.line,
            )
            &&& ends && m.line.len() == 0 ==> next.line == m.line && event is Pending
        }),
{
}

/// The next byte has a place unless it is a pixel behind the 10000th.
pub proof fn only_pixels_run_out_of_room(m: MachineView, byte: u8)
    ensures
        m.accepts() <==> !(m.status is FrameData && m.received >= 10000),
        all_accepted(m, seq![byte]) <==> m.accepts(),
        all_accepted(m, Seq::empty()),
{
    let bytes = seq![byte];
    assert(all_accepted(step(m, byte).0, bytes.skip(1)));
    assert(bytes[0] == byte);
}

/// A scan of no byte finds nothing. A scan of one byte finds what the byte completes.
pub proof fn scan_of_one(m: MachineView, byte: u8)
    ensures
        ({
            let none = scan(m, Seq::empty());
            let one = scan(m, seq![byte]);
            let (next, event) = step(m, byte);
            &&& none.machine == m && none.taken == 0 && none.line is None
            &&& none.frames.len() == 0 && none.errors.len() == 0
            &&& one.machine == next && one.taken == 1
            &&& event matches EventView::Command(line) ==> one.line == Some(line)
            &&& !(event is Command) ==> one.line is None
            &&& event matches EventView::Frame(frame) ==> one.frames == seq![frame]
            &&& !(event is Frame) ==> one.frames.len() == 0
            &&& event matches EventView::ChecksumError { expected, got } ==> one.errors
                == seq![ChecksumError { expected, got }]
            &&& !(event is ChecksumError) ==> one.errors.len() == 0
        }),
{
    let bytes = seq![byte];
    let (next, event) = step(m, byte);
    assert(bytes[0] == byte);
    assert(scan(next, bytes.skip(1)).machine == next);
    assert(frame_of(event) + Seq::empty() =~= frame_of(event));
    assert(error_of(event) + Seq::empty() =~= error_of(event));
}

/// What is found in two portions, of which the first completes no line, is what is found in the
/// first and then what is found in the second, with nothing lost and nothing added.
pub proof fn portions_add_up(m: MachineView, first: Seq<u8>, second: Seq<u8>)
    requires
        scan(m, first).line is None,
    ensures
        ({
            let one = scan(m, first);
            let two = scan(one.machine, second);
            let both = scan(m, first + second);
            &&& both.machine == two.machine
            &&& both.taken == one.taken + two.taken
            &&& one.taken == first.len()
            &&& both.line == two.line
            &&& both.frames == one.frames + two.frames
            &&& both.errors == one.errors + two.errors
            &&& all_accepted(m, first + second) <==> all_accepted(m, first) && all_accepted(
                one.machine,
                second,
            )
        }),
{
    portions_do_not_matter(m, first, second);
    lemma_scan_takes(m, first);
}

/// Bytes behind the first line are not looked at.
pub proof fn bytes_behind_a_line_wait(m: MachineView, first: Seq<u8>, second: Seq<u8>)
    requires
        scan(m, first).line is Some,
    ensures
        scan(m, first + second) == scan(m, first),
        scan(m, first).taken <= first.len(),
        all_accepted(m, first + second) <==> all_accepted(m, first),
    decreases first.len(),
{
    rest_does_not_matter(m, first, second);
    if !(step(m, first[0]).1 is Command) {
        bytes_behind_a_line_wait(step(m, first[0]).0, first.skip(1), second);
    }
}

/// Frames are sent in the order in which they come, none twice and none left out before another.
/// The channel is abandoned exactly if the last of them was not taken.
pub proof fn channel_is_sent_in_order(
    now: Seq<FrameView>,
    before: Seq<FrameView>,
    frames: Seq<FrameView>,
    abandoned: bool,
    was_abandoned: bool,
)
    requires
        shows(now, before, frames, abandoned, was_abandoned),
    ensures
        before.len() <= now.len() <= before.len() + frames.len(),
        forall|i: int| 0 <= i < before.len() ==> #[trigger] now[i] == before[i],
        forall|i: int|
            before.len() <= i < now.len() ==> #[trigger] now[i] == frames[i - before.len()],
        frames.len() > 0 ==> (abandoned <==> now.len() < before.len() + frames.len()),
        frames.len() == 0 ==> abandoned == was_abandoned,
        was_abandoned ==> now == before && abandoned,
{
    assert(before + frames.take(0) =~= before);
}

/// A machine that has received nothing waits for text, and holds a full frame at the greatest
/// distance.
pub proof fn machine_starts_empty()
    ensures
        initial_machine().status is Cmd,
        initial_machine().line.len() == 0,
        initial_machine().received == 0,
        initial_machine().frame == default_frame(),
        default_frame().full_size == 10016,
        default_frame().frame_size == 10000,
        default_frame().header.len() == 16,
        forall|i: int| 0 <= i < 16 ==> #[trigger] default_frame().header[i] == 0,
        default_frame().data.len() == 10000,
        forall|i: int| 0 <= i < 10000 ==> #[trigger] default_frame().data[i] == 0xFF,
{
}

/// The bytes of text, and the bytes that end a line.
pub proof fn line_bytes(byte: u8)
    ensures
        is_line_end(byte) <==> byte == 0x0D || byte == 0x0A,
        is_text(byte) <==> byte != 0x00 && byte != 0x0D && byte != 0x0A,
{
}

/// An event tells what was completed: the text of a line is the one read in its bytes, and gives
/// the bytes back where they are valid UTF-8.
pub proof fn events_tell(event: A010Event, view: EventView)
    requires
        event_is(event, view),
    ensures
        view is Pending <==> event is Pending,
        view matches EventView::Command(line) ==> (event matches A010Event::Command(text)
            && text@ == lossy_text(line) && (valid_utf8(line) ==> encode_utf8(text@) == line)),
        view matches EventView::ChecksumError { expected, got } ==> event
            == (A010Event::ChecksumError { expected, got }),
        view matches EventView::Frame(frame) ==> (event matches A010Event::Frame(f) && f@ == frame),
{
    if let EventView::Command(line) = view {
        text_gives_the_line(event->Command_0@, line);
    }
}

/// The text of a line is the one read in its bytes, and gives the bytes back where they are valid
/// UTF-8.
pub proof fn text_gives_the_line(text: Seq<char>, line: Seq<u8>)
    requires
        text_is(text, line),
    ensures
        text == lossy_text(line),
        valid_utf8(line) ==> encode_utf8(text) == line,
{
    if valid_utf8(line) {
        vstd::utf8::decode_utf8_encode_utf8(line);
    }
}

/// A frame that is sent is put behind those that the channel has held, unless the channel is found
/// abandoned. Nothing changes where no frame is sent.
pub proof fn channel_is_sent_one(
    now: Seq<FrameView>,
    before: Seq<FrameView>,
    frame: FrameView,
    abandoned: bool,
    was_abandoned: bool,
)
    ensures
        shows(now, before, Seq::empty(), abandoned, was_abandoned) <==> now == before && abandoned
            == was_abandoned,
        shows(now, before, seq![frame], abandoned, was_abandoned) <==> (now == before.push(frame)
            && !abandoned && !was_abandoned) || (now == before && abandoned),
{
    let none = Seq::<FrameView>::empty();
    let one = seq![frame];
    assert(before + none.take(0) =~= before);
    assert(before + one.take(0) =~= before);
    assert(before + one.take(1) =~= before.push(frame));
}

/// Decoding takes the bytes up to the end of the first line, with every frame and checksum error in
/// front of it, and returns the response in that line, however many bytes it took.
pub proof fn decoding_answers_the_first_line(
    codec: A010Codec,
    src: BytesMut,
    codec_after: A010Codec,
    src_after: BytesMut,
    rsp: Option<A010Rsp>,
    receiver: FrameReceiver,
)
    requires
        decoded(codec, src, codec_after, src_after, rsp),
    ensures
        ({
            let done = scan(codec.machine(), buffered(src));
            &&& done.line matches Some(line) ==> rsp == response(encode_utf8(lossy_text(line)))
            &&& done.line matches Some(line) ==> (valid_utf8(line) ==> rsp == response(line))
            &&& done.line matches Some(line) ==> codec_after.text() == Some(lossy_text(line))
            &&& done.line is None ==> rsp is None && codec_after.text() == codec.text()
            &&& buffered(src_after) == buffered(src).skip(done.taken as int)
            &&& codec_after.machine() == done.machine
            &&& codec_after.errors() == codec.errors() + done.errors
            &&& !codec_after.abandoned() ==> codec_after.shown() == codec.shown() + done.frames
            &&& shows(
                codec_after.shown(),
                codec.shown(),
                done.frames,
                codec_after.abandoned(),
                codec.abandoned(),
            )
            &&& codec_after.feeds(receiver) == codec.feeds(receiver)
        }),
{
    let frames = scan(codec.machine(), buffered(src)).frames;
    assert(frames.take(frames.len() as int) =~= frames);
    assert(same_channel(codec_after, codec));
}

/// A line is answered whatever stands in front of it, as long as that completes no line and leaves
/// none begun: decoding returns the response in the line and leaves what stands behind it.
pub proof fn line_behind_anything_is_answered(
    codec: A010Codec,
    src: BytesMut,
    codec_after: A010Codec,
    src_after: BytesMut,
    rsp: Option<A010Rsp>,
    front: Seq<u8>,
    line: Seq<u8>,
    end: u8,
    rest: Seq<u8>,
)
    requires
        decoded(codec, src, codec_after, src_after, rsp),
        buffered(src) == front + line + seq![end] + rest,
        scan(codec.machine(), front).line is None,
        scan(codec.machine(), front).machine.status is Cmd,
        scan(codec.machine(), front).machine.line.len() == 0,
        1 <= line.len() <= 128,
        forall|i: int|
            0 <= i < line.len() ==> #[trigger] line[i] != 0x00 && line[i] != 0x0D && line[i]
                != 0x0A,
        end == 0x0D || end == 0x0A,
        valid_utf8(line),
    ensures
        rsp == response(line),
        buffered(src_after) == rest,
{
    let m = codec.machine();
    let between = scan(m, front).machine;
    let tail = line.push(end);
    assert forall|i: int| 0 <= i < line.len() implies is_text(#[trigger] line[i]) by {}
    line_is_received(between, line, end);
    assert(between.line + line =~= line);
    portions_do_not_matter(m, front, tail);
    rest_does_not_matter(m, front + tail, rest);
    assert(front + tail + rest =~= buffered(src));
    lemma_scan_takes(m, front);
    assert(buffered(src).skip((front + tail).len() as int) =~= rest);
}

/// A scan that completes no line takes every byte.
proof fn lemma_scan_takes(m: MachineView, bytes: Seq<u8>)
    requires
        scan(m, bytes).line is None,
    ensures
        scan(m, bytes).taken == bytes.len(),
    decreases bytes.len(),
{
    if bytes.len() > 0 {
        lemma_scan_takes(step(m, bytes[0]).0, bytes.skip(1));
    }
}

/// An acknowledgement or an answer behind a frame is returned: the frame does not stand in its
/// way, whatever its size, its pixels and its checksum.
pub proof fn answer_behind_a_frame_is_returned(
    codec: A010Codec,
    src: BytesMut,
    codec_after: A010Codec,
    src_after: BytesMut,
    rsp: Option<A010Rsp>,
    header: Seq<u8>,
    pixels: Seq<u8>,
    sum: u8,
    stop: u8,
    arg: A010Arg,
    end: u8,
    rest: Seq<u8>,
)
    requires
        decoded(codec, src, codec_after, src_after, rsp),
        codec.machine().status is Cmd,
        codec.machine().line.len() == 0,
        codec.machine().frame.header.len() == 16,
        codec.machine().frame.data.len() == 10000,
        codec.machine().frame.full_size == 0 || codec.machine().frame.full_size == 10016
            && pixels.len() == 10000,
        header.len() == 16,
        1 <= pixels.len() <= 10000,
        is_valid(arg),
        end == 0x0D || end == 0x0A,
    ensures
        ({
            let n = pixels.len() as int;
            let frame = seq![0x00u8, 0xFFu8, ((n + 16) % 256) as u8, ((n + 16) / 256) as u8]
                + header + pixels + seq![sum, stop];
            &&& buffered(src) == frame + seq!['O' as u8, 'K' as u8] + seq![end] + rest ==> rsp
                == Some(A010Rsp::OK) && buffered(src_after) == rest
            &&& buffered(src) == frame + arg_answer(arg) + seq![end] + rest ==> (rsp matches Some(r)
                && r.arg() == Some(arg)) && buffered(src_after) == rest
        }),
{
    let n = pixels.len() as int;
    let frame = seq![0x00u8, 0xFFu8, ((n + 16) % 256) as u8, ((n + 16) / 256) as u8] + header
        + pixels + seq![sum, stop];
    sent_frame_is_received(codec.machine(), header, pixels, sum, stop);
    if buffered(src) == frame + seq!['O' as u8, 'K' as u8] + seq![end] + rest {
        let line = seq!['O' as u8, 'K' as u8];
        lemma_ascii_is_valid(line);
        line_behind_anything_is_answered(
            codec,
            src,
            codec_after,
            src_after,
            rsp,
            frame,
            line,
            end,
            rest,
        );
    }
    if buffered(src) == frame + arg_answer(arg) + seq![end] + rest {
        lemma_valid_answer(arg);
        arg_reads_back(arg);
        line_behind_anything_is_answered(
            codec,
            src,
            codec_after,
            src_after,
            rsp,
            frame,
            arg_answer(arg),
            end,
            rest,
        );
    }
}

} // verus!
