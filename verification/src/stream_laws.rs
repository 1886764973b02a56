//! Laws of the byte stream: how lines and frames pass the state machine.

use tokio_util::bytes::BytesMut;
use vstd::prelude::*;
use crate::buffer::buffered;
use crate::channel::FrameReceiver;
use crate::codec::{A010Codec, ChecksumError, Scan, all_accepted, decoded, scan};
use crate::commands::A010Rsp;
use crate::frame::{FrameView, HEADER_SIZE, MAX_FRAME_SIZE, checksum_of};
use crate::machine::{
    A010CodecStatus, CMD_BUF_SIZE, EventView, MachineView, is_line_end, step, with_size_lsb,
    with_size_msb,
};

verus! {

/// A byte that is neither the start of a frame nor the end of a line.
pub open spec fn is_text(byte: u8) -> bool {
    byte != 0 && !is_line_end(byte)
}

/// The buffers of a state have their sizes.
pub open spec fn well_sized(m: MachineView) -> bool {
    &&& m.frame.header.len() == HEADER_SIZE
    &&& m.frame.data.len() == MAX_FRAME_SIZE
}

/// One scan after another, as one.
pub open spec fn joined(first: Scan, second: Scan) -> Scan {
    Scan {
        machine: second.machine,
        taken: first.taken + second.taken,
        line: second.line,
        frames: first.frames + second.frames,
        errors: first.errors + second.errors,
    }
}

/// Bytes may come in any portions: where the first portion completes no line, scanning it and then
/// the second is scanning both at once.
pub proof fn portions_do_not_matter(m: MachineView, first: Seq<u8>, second: Seq<u8>)
    requires
        scan(m, first).line is None,
    ensures
        scan(m, first + second) == joined(scan(m, first), scan(scan(m, first).machine, second)),
        all_accepted(m, first + second) <==> all_accepted(m, first) && all_accepted(
            scan(m, first).machine,
            second,
        ),
    decreases first.len(),
{
    if first.len() == 0 {
        assert(first + second =~= second);
        assert(scan(m, first + second) =~= joined(scan(m, first), scan(m, second)));
    } else {
        let next = step(m, first[0]).0;
        portions_do_not_matter(next, first.skip(1), second);
        assert((first + second).skip(1) =~= first.skip(1) + second);
        assert(scan(m, first + second) =~= joined(
            scan(m, first),
            scan(scan(m, first).machine, second),
        ));
    }
}

/// Bytes behind a line do not matter to it.
pub proof fn rest_does_not_matter(m: MachineView, first: Seq<u8>, second: Seq<u8>)
    requires
        scan(m, first).line is Some,
    ensures
        scan(m, first + second) == scan(m, first),
        all_accepted(m, first + second) == all_accepted(m, first),
    decreases first.len(),
{
    assert((first + second)[0] == first[0]);
    if !(step(m, first[0]).1 is Command) {
        rest_does_not_matter(step(m, first[0]).0, first.skip(1), second);
        assert((first + second).skip(1) =~= first.skip(1) + second);
    }
}

/// Text is gathered in the line as far as it has room.
proof fn lemma_text(m: MachineView, text: Seq<u8>)
    requires
        m.status is Cmd,
        m.line.len() + text.len() <= CMD_BUF_SIZE,
        forall|i: int| 0 <= i < text.len() ==> is_text(#[trigger] text[i]),
    ensures
        scan(m, text) == (Scan {
            machine: MachineView { line: m.line + text, ..m },
            taken: text.len(),
            line: None,
            frames: Seq::empty(),
            errors: Seq::empty(),
        }),
        all_accepted(m, text),
    decreases text.len(),
{
    if text.len() == 0 {
        assert(m.line + text =~= m.line);
    } else {
        let next = MachineView { line: m.line.push(text[0]), ..m };
        assert(is_text(text[0]));
        assert(step(m, text[0]) == (next, EventView::Pending));
        assert forall|i: int| 0 <= i < text.skip(1).len() implies is_text(
            #[trigger] text.skip(1)[i],
        ) by {
            assert(is_text(text[i + 1]));
        }
        lemma_text(next, text.skip(1));
        assert(next.line + text.skip(1) =~= m.line + text);
        assert(scan(m, text).frames =~= Seq::empty());
        assert(scan(m, text).errors =~= Seq::empty());
    }
}

/// A line is received whole: text that fits the line buffer and a line end give the line that was
/// begun with the text behind it, and leave the machine as it was with an empty line.
pub proof fn line_is_received(m: MachineView, text: Seq<u8>, end: u8)
    requires
        m.status is Cmd,
        1 <= m.line.len() + text.len() <= CMD_BUF_SIZE,
        forall|i: int| 0 <= i < text.len() ==> is_text(#[trigger] text[i]),
        is_line_end(end),
    ensures
        scan(m, text.push(end)) == (Scan {
            machine: MachineView { line: Seq::empty(), ..m },
            taken: text.len() + 1,
            line: Some(m.line + text),
            frames: Seq::empty(),
            errors: Seq::empty(),
        }),
        all_accepted(m, text.push(end)),
{
    lemma_text(m, text);
    let last = seq![end];
    let full = MachineView { line: m.line + text, ..m };
    portions_do_not_matter(m, text, last);
    assert(text.push(end) =~= text + last);
    assert(last[0] == end);
    assert(scan(full, last) == (Scan {
        machine: MachineView { line: Seq::empty(), ..m },
        taken: 1,
        line: Some(m.line + text),
        frames: Seq::empty(),
        errors: Seq::empty(),
    }));
    assert(scan(m, text.push(end)) =~= joined(scan(m, text), scan(full, last)));
}

/// A line end after a line end completes nothing.
pub proof fn empty_line_is_skipped(m: MachineView, end: u8)
    requires
        m.status is Cmd,
        m.line.len() == 0,
        is_line_end(end),
    ensures
        step(m, end) == (m, EventView::Pending),
{
}

/// A line that fills the buffer is cut there: the next byte of text completes it and is lost.
pub proof fn long_line_is_cut(m: MachineView, byte: u8)
    requires
        m.status is Cmd,
        m.line.len() == CMD_BUF_SIZE,
        is_text(byte),
    ensures
        step(m, byte) == (
            MachineView { line: Seq::empty(), ..m },
            EventView::Command(m.line),
        ),
{
}

/// The low byte of the size of a frame with a number of pixels.
pub open spec fn size_lsb(pixels: int) -> u8 {
    ((pixels + HEADER_SIZE) % 256) as u8
}

/// The high byte of the size of a frame with a number of pixels.
pub open spec fn size_msb(pixels: int) -> u8 {
    ((pixels + HEADER_SIZE) / 256) as u8
}

/// The size that a machine reads which holds `full_size` when the two bytes come.
pub open spec fn size_read(full_size: usize, pixels: int) -> usize {
    with_size_msb(with_size_lsb(full_size, size_lsb(pixels)), size_msb(pixels))
}

/// A frame on the wire.
pub open spec fn frame_bytes(header: Seq<u8>, pixels: Seq<u8>, sum: u8, stop: u8) -> Seq<u8> {
    seq![0x00u8, 0xFFu8, size_lsb(pixels.len() as int), size_msb(pixels.len() as int)] + header
        + pixels + seq![sum, stop]
}

/// The frame that is received. Old pixels stay behind those of a smaller frame.
pub open spec fn frame_received(before: FrameView, header: Seq<u8>, pixels: Seq<u8>) -> FrameView {
    FrameView {
        full_size: (pixels.len() + HEADER_SIZE) as usize,
        header,
        frame_size: pixels.len() as usize,
        data: pixels + before.data.skip(pixels.len() as int),
    }
}

/// The bytes of the header go to their places.
proof fn lemma_header(m: MachineView, bytes: Seq<u8>)
    requires
        m.status is FrameHeader,
        well_sized(m),
        0 <= m.received < HEADER_SIZE,
        bytes.len() == HEADER_SIZE - m.received,
    ensures
        scan(m, bytes) == (Scan {
            machine: MachineView {
                status: A010CodecStatus::FrameData,
                received: 0,
                frame: FrameView { header: m.frame.header.take(m.received) + bytes, ..m.frame },
                ..m
            },
            taken: bytes.len(),
            line: None,
            frames: Seq::empty(),
            errors: Seq::empty(),
        }),
        all_accepted(m, bytes),
    decreases bytes.len(),
{
    let next = step(m, bytes[0]).0;
    let rest = bytes.skip(1);
    if bytes.len() > 1 {
        lemma_header(next, rest);
        assert(next.frame.header.take(next.received) + rest =~= m.frame.header.take(m.received)
            + bytes);
    } else {
        assert(scan(next, rest).machine == next);
        assert(all_accepted(next, rest));
        assert(next.frame.header =~= m.frame.header.take(m.received) + bytes);
    }
    assert(scan(m, bytes).frames =~= Seq::empty());
    assert(scan(m, bytes).errors =~= Seq::empty());
}

/// The pixels go to their places.
proof fn lemma_pixels(m: MachineView, bytes: Seq<u8>)
    requires
        m.status is FrameData,
        well_sized(m),
        0 <= m.received,
        m.frame.frame_size <= MAX_FRAME_SIZE,
        bytes.len() == m.frame.frame_size - m.received,
        bytes.len() > 0,
    ensures
        scan(m, bytes) == (Scan {
            machine: MachineView {
                status: A010CodecStatus::FrameSum,
                received: m.frame.frame_size as int,
                frame: FrameView {
                    data: m.frame.data.take(m.received) + bytes + m.frame.data.skip(
                        m.frame.frame_size as int,
                    ),
                    ..m.frame
                },
                ..m
            },
            taken: bytes.len(),
            line: None,
            frames: Seq::empty(),
            errors: Seq::empty(),
        }),
        all_accepted(m, bytes),
    decreases bytes.len(),
{
    let next = step(m, bytes[0]).0;
    let rest = bytes.skip(1);
    let end = m.frame.frame_size as int;
    if bytes.len() > 1 {
        lemma_pixels(next, rest);
        assert(next.frame.data.take(next.received) + rest + next.frame.data.skip(end)
            =~= m.frame.data.take(m.received) + bytes + m.frame.data.skip(end));
    } else {
        assert(scan(next, rest).machine == next);
        assert(all_accepted(next, rest));
        assert(next.frame.data =~= m.frame.data.take(m.received) + bytes + m.frame.data.skip(end));
    }
    assert(scan(m, bytes).frames =~= Seq::empty());
    assert(scan(m, bytes).errors =~= Seq::empty());
}

/// The start mark and the size lead to the header.
proof fn lemma_start(m: MachineView, pixels: int)
    requires
        m.status is Cmd,
        1 <= pixels <= MAX_FRAME_SIZE,
        size_read(m.frame.full_size, pixels) == pixels + HEADER_SIZE,
    ensures
        ({
            let start = seq![0x00u8, 0xFFu8, size_lsb(pixels), size_msb(pixels)];
            &&& all_accepted(m, start)
            &&& scan(m, start) == (Scan {
                machine: MachineView {
                    status: A010CodecStatus::FrameHeader,
                    received: 0,
                    frame: FrameView {
                        full_size: (pixels + HEADER_SIZE) as usize,
                        frame_size: pixels as usize,
                        ..m.frame
                    },
                    ..m
                },
                taken: 4,
                line: None,
                frames: Seq::empty(),
                errors: Seq::empty(),
            })
        }),
{
    let start = seq![0x00u8, 0xFFu8, size_lsb(pixels), size_msb(pixels)];
    let b1 = start.skip(1);
    let b2 = b1.skip(1);
    let b3 = b2.skip(1);
    let b4 = b3.skip(1);
    let m1 = step(m, start[0]).0;
    let m2 = step(m1, b1[0]).0;
    let m3 = step(m2, b2[0]).0;
    let m4 = step(m3, b3[0]).0;
    assert(scan(m4, b4).machine == m4 && all_accepted(m4, b4));
    assert(scan(m3, b3).machine == m4 && all_accepted(m3, b3));
    assert(scan(m2, b2).machine == m4 && all_accepted(m2, b2));
    assert(scan(m1, b1).machine == m4 && all_accepted(m1, b1));
    assert(scan(m, start).machine == m4);
    assert(scan(m, start).frames =~= Seq::empty());
    assert(scan(m, start).errors =~= Seq::empty());
}

/// The checksum and the stop byte complete the frame.
proof fn lemma_stop(m: MachineView, sum: u8, stop: u8)
    requires
        m.status is FrameSum,
    ensures
        all_accepted(m, seq![sum, stop]),
        scan(m, seq![sum, stop]) == (Scan {
            machine: m.reset().at(A010CodecStatus::Cmd),
            taken: 2,
            line: None,
            frames: seq![m.frame],
            errors: if checksum_of(m.frame, m.received) == sum {
                Seq::empty()
            } else {
                seq![ChecksumError { expected: checksum_of(m.frame, m.received) as u8, got: sum }]
            },
        }),
{
    let b0 = seq![sum, stop];
    let b1 = b0.skip(1);
    let b2 = b1.skip(1);
    let m1 = step(m, b0[0]).0;
    let m2 = step(m1, b1[0]).0;
    assert(scan(m2, b2).machine == m2 && all_accepted(m2, b2));
    assert(scan(m1, b1).machine == m2 && all_accepted(m1, b1));
    assert(scan(m1, b1).frames =~= seq![m.frame]);
    assert(scan(m, b0).frames =~= seq![m.frame]);
    assert(scan(m1, b1).errors =~= Seq::empty());
    assert(scan(m, b0).errors =~= (if checksum_of(m.frame, m.received) == sum {
        Seq::empty()
    } else {
        seq![ChecksumError { expected: checksum_of(m.frame, m.received) as u8, got: sum }]
    }));
}

/// A frame is received whole: its bytes, taken between lines or in the middle of one, give exactly
/// that frame, report the checksum if it is another, leave the line as it is and lead back to
/// text. The machine must read the size as it was sent: see `size_is_read_after_a_frame`.
pub proof fn frame_is_received(
    m: MachineView,
    header: Seq<u8>,
    pixels: Seq<u8>,
    sum: u8,
    stop: u8,
)
    requires
        m.status is Cmd,
        well_sized(m),
        header.len() == HEADER_SIZE,
        1 <= pixels.len() <= MAX_FRAME_SIZE,
        size_read(m.frame.full_size, pixels.len() as int) == pixels.len() + HEADER_SIZE,
    ensures
        all_accepted(m, frame_bytes(header, pixels, sum, stop)),
        ({
            let frame = frame_received(m.frame, header, pixels);
            let expected = checksum_of(frame, pixels.len() as int);
            scan(m, frame_bytes(header, pixels, sum, stop)) == (Scan {
                machine: MachineView { received: 0, frame, ..m }.reset(),
                taken: frame_bytes(header, pixels, sum, stop).len(),
                line: None,
                frames: seq![frame],
                errors: if expected == sum {
                    Seq::empty()
                } else {
                    seq![ChecksumError { expected: expected as u8, got: sum }]
                },
            })
        }),
{
    let n = pixels.len() as int;
    let frame = frame_received(m.frame, header, pixels);
    let start = seq![0x00u8, 0xFFu8, size_lsb(n), size_msb(n)];
    let end = seq![sum, stop];
    lemma_start(m, n);
    let m1 = scan(m, start).machine;
    lemma_header(m1, header);
    let m2 = scan(m1, header).machine;
    assert(m2.frame.header =~= header);
    lemma_pixels(m2, pixels);
    let m3 = scan(m2, pixels).machine;
    assert(m3.frame.data =~= frame.data);
    assert(m3.frame =~= frame);
    lemma_stop(m3, sum, stop);
    portions_do_not_matter(m, start, header);
    portions_do_not_matter(m, start + header, pixels);
    portions_do_not_matter(m, start + header + pixels, end);
    let done = scan(m, frame_bytes(header, pixels, sum, stop));
    assert(done.frames =~= seq![frame]);
    assert(done.errors =~= scan(m3, end).errors);
}

/// A machine that has completed or given up a frame reads the size of every frame as it was sent.
/// A new machine does not: it holds the size of the default frame until then.
pub proof fn size_is_read_after_a_frame(pixels: int)
    requires
        0 <= pixels <= MAX_FRAME_SIZE,
    ensures
        size_read(0, pixels) == pixels + HEADER_SIZE,
{
    let full = (pixels + HEADER_SIZE) as usize;
    let lsb = size_lsb(pixels);
    let msb = size_msb(pixels);
    let low = lsb as usize;
    let high = msb as usize;
    assert(0usize | low == low) by (bit_vector);
    assert(low | (high << 8) == full) by (bit_vector)
        requires
            low == full % 256,
            high == full / 256,
            full <= 10016,
    ;
}

/// Between frames the machine holds no size.
pub open spec fn settled(m: MachineView) -> bool {
    m.status is Cmd || m.status is FrameStart || m.status is FrameSizeLsb ==> m.frame.full_size == 0
}

/// A machine that has completed or given up a frame holds no size between frames from then on, so
/// that it reads the size of every frame as it was sent.
pub proof fn settled_for_good(m: MachineView, bytes: Seq<u8>)
    ensures
        settled(m) ==> settled(scan(m, bytes).machine),
        scan(m, bytes).frames.len() > 0 ==> settled(scan(m, bytes).machine),
        m.status is FrameStart && bytes.len() > 0 && bytes[0] != 0xFF ==> settled(
            scan(m, bytes).machine,
        ),
    decreases bytes.len(),
{
    if bytes.len() > 0 {
        settled_for_good(step(m, bytes[0]).0, bytes.skip(1));
    }
}

/// As long as somebody watches, the channel of a receiving end is sent every frame, once and in the
/// order in which they were completed, and shows the last of them. It goes on being the channel
/// that the codec sends on.
pub proof fn every_frame_is_shown(
    codec: A010Codec,
    src: BytesMut,
    codec_after: A010Codec,
    src_after: BytesMut,
    rsp: Option<A010Rsp>,
    receiver: FrameReceiver,
)
    requires
        decoded(codec, src, codec_after, src_after, rsp),
        codec.feeds(receiver),
        !codec_after.abandoned(),
    ensures
        codec_after.feeds(receiver),
        ({
            let frames = scan(codec.machine(), buffered(src)).frames;
            &&& codec_after.shown() == codec.shown() + frames
            &&& frames.len() > 0 ==> codec_after.shown().last() == frames.last()
        }),
{
    let frames = scan(codec.machine(), buffered(src)).frames;
    assert(frames.take(frames.len() as int) =~= frames);
}

/// A channel that was sent the frame completed last is not abandoned. One that is abandoned stays
/// so and is sent nothing any more.
pub proof fn abandoned_for_good(
    codec: A010Codec,
    src: BytesMut,
    codec_after: A010Codec,
    src_after: BytesMut,
    rsp: Option<A010Rsp>,
)
    requires
        decoded(codec, src, codec_after, src_after, rsp),
    ensures
        ({
            let frames = scan(codec.machine(), buffered(src)).frames;
            &&& frames.len() > 0 ==> (codec_after.abandoned() <==> codec_after.shown()
                != codec.shown() + frames)
            &&& frames.len() == 0 ==> codec_after.abandoned() == codec.abandoned()
            &&& codec.abandoned() ==> codec_after.abandoned() && codec_after.shown()
                == codec.shown()
        }),
{
    let frames = scan(codec.machine(), buffered(src)).frames;
    assert(frames.take(frames.len() as int) =~= frames);
    assert(codec.shown() + frames.take(0) =~= codec.shown());
    assert(codec_after.abandoned() && frames.len() > 0 ==> codec_after.shown().len()
        < codec.shown().len() + frames.len());
}

/// A new machine reads the size of a frame as it was sent if it is the size of the default frame.
pub proof fn default_size_is_read()
    ensures
        size_read((MAX_FRAME_SIZE + HEADER_SIZE) as usize, MAX_FRAME_SIZE as int) == MAX_FRAME_SIZE
            + HEADER_SIZE,
{
    assert(10016usize | 0x20usize == 10016usize) by (bit_vector);
    assert(10016usize | (0x27usize << 8) == 10016usize) by (bit_vector);
}

/// From the header on, the number of pixels is the size less the header.
pub open spec fn sizes_agree(m: MachineView) -> bool {
    m.status is FrameHeader || m.status is FrameData || m.status is FrameSum
        || m.status is FrameStop ==> m.frame.full_size == m.frame.frame_size + HEADER_SIZE
}

/// A byte does not announce a frame smaller than its header.
pub open spec fn announces_header(m: MachineView, byte: u8) -> bool {
    m.status is FrameSizeMsb ==> HEADER_SIZE <= with_size_msb(m.frame.full_size, byte)
}

/// No byte that a scan takes announces such a frame.
pub open spec fn all_announce_header(m: MachineView, bytes: Seq<u8>) -> bool
    decreases bytes.len(),
{
    bytes.len() > 0 ==> {
        &&& announces_header(m, bytes[0])
        &&& step(m, bytes[0]).1 is Command || all_announce_header(
            step(m, bytes[0]).0,
            bytes.skip(1),
        )
    }
}

/// Where no frame is announced smaller than its header, the two sizes of a frame agree while it is
/// received and when it is complete.
pub proof fn sizes_go_on_agreeing(m: MachineView, bytes: Seq<u8>)
    requires
        sizes_agree(m),
        all_announce_header(m, bytes),
    ensures
        sizes_agree(scan(m, bytes).machine),
        forall|i: int|
            #![trigger scan(m, bytes).frames[i]]
            0 <= i < scan(m, bytes).frames.len() ==> scan(m, bytes).frames[i].full_size == scan(
                m,
                bytes,
            ).frames[i].frame_size + HEADER_SIZE,
    decreases bytes.len(),
{
    if bytes.len() > 0 && !(step(m, bytes[0]).1 is Command) {
        let (next, event) = step(m, bytes[0]);
        sizes_go_on_agreeing(next, bytes.skip(1));
        let rest = scan(next, bytes.skip(1)).frames;
        assert forall|i: int|
            #![trigger scan(m, bytes).frames[i]]
            0 <= i < scan(m, bytes).frames.len() implies scan(m, bytes).frames[i].full_size == scan(
            m,
            bytes,
        ).frames[i].frame_size + HEADER_SIZE by {
            if event is Frame && i > 0 {
                assert(scan(m, bytes).frames[i] == rest[i - 1]);
            } else if !(event is Frame) {
                assert(scan(m, bytes).frames[i] == rest[i]);
            }
        }
    }
}

/// The frame that is being received fits: it has no more pixels than the largest one, and those
/// that are there are fewer than it has.
pub open spec fn fits(m: MachineView) -> bool {
    &&& m.status is FrameHeader || m.status is FrameData ==> m.frame.frame_size <= MAX_FRAME_SIZE
    &&& m.status is FrameData ==> m.received == 0 || m.received < m.frame.frame_size
}

/// A byte does not announce a frame larger than the largest one, or smaller than its header.
pub open spec fn announces_small(m: MachineView, byte: u8) -> bool {
    m.status is FrameSizeMsb ==> HEADER_SIZE <= with_size_msb(m.frame.full_size, byte)
        <= MAX_FRAME_SIZE + HEADER_SIZE
}

/// No byte that a scan takes announces such a frame.
pub open spec fn all_announce_small(m: MachineView, bytes: Seq<u8>) -> bool
    decreases bytes.len(),
{
    bytes.len() > 0 ==> {
        &&& announces_small(m, bytes[0])
        &&& step(m, bytes[0]).1 is Command || all_announce_small(step(m, bytes[0]).0, bytes.skip(1))
    }
}

/// Where no frame is announced larger than the largest one, or smaller than its header, every byte
/// has a place.
pub proof fn small_frames_are_accepted(m: MachineView, bytes: Seq<u8>)
    requires
        fits(m),
        all_announce_small(m, bytes),
    ensures
        all_accepted(m, bytes),
        fits(scan(m, bytes).machine),
    decreases bytes.len(),
{
    if bytes.len() > 0 && !(step(m, bytes[0]).1 is Command) {
        small_frames_are_accepted(step(m, bytes[0]).0, bytes.skip(1));
    }
}

} // verus!
