//! The codec between the byte stream of the camera and its commands, responses and frames.

use tokio_util::bytes::BytesMut;
use vstd::prelude::*;
use vstd::utf8::{decode_utf8_encode_utf8, encode_utf8, valid_utf8};
use crate::args::A010Arg;
use crate::buffer::{append, buffered, contents, has_room, remaining, take_byte};
use crate::channel::{
    FrameReceiver, FrameSender, abandoned, frame_channel, held, linked, send_frame,
};
use crate::commands::{A010Cmd, A010Rsp, MAX_CMD_SIZE, commands_are_short, parse_response, response};
use crate::frame::{A010Frame, FrameView, HEADER_SIZE, MAX_FRAME_SIZE, default_frame};
use crate::machine::{
    A010Event, A010Machine, CMD_BUF_SIZE, EventView, MachineView, initial_machine, step, text_is,
};
use crate::text::lossy_text;

verus! {

/// The checksum that a frame has and the one that came with it.
#[derive(Debug, Clone, Copy, PartialEq, Eq, Structural)]
pub struct ChecksumError {
    pub expected: u8,
    pub got: u8,
}

/// What the machine makes of a run of bytes, up to the end of the first line in it: the state it
/// is in then, the number of bytes it has taken, the line, and the frames and checksum errors on
/// the way.
#[verifier::ext_equal]
pub struct Scan {
    pub machine: MachineView,
    pub taken: nat,
    pub line: Option<Seq<u8>>,
    pub frames: Seq<FrameView>,
    pub errors: Seq<ChecksumError>,
}

/// The frame that an event completes.
pub open spec fn frame_of(event: EventView) -> Seq<FrameView> {
    match event {
        EventView::Frame(frame) => seq![frame],
        _ => Seq::empty(),
    }
}

/// The checksum error that an event reports.
pub open spec fn error_of(event: EventView) -> Seq<ChecksumError> {
    match event {
        EventView::ChecksumError { expected, got } => seq![ChecksumError { expected, got }],
        _ => Seq::empty(),
    }
}

/// Feeds bytes to the machine until a line is complete.
pub open spec fn scan(m: MachineView, bytes: Seq<u8>) -> Scan
    decreases bytes.len(),
{
    if bytes.len() == 0 {
        Scan { machine: m, taken: 0, line: None, frames: Seq::empty(), errors: Seq::empty() }
    } else {
        let (next, event) = step(m, bytes[0]);
        match event {
            EventView::Command(line) => Scan {
                machine: next,
                taken: 1,
                line: Some(line),
                frames: Seq::empty(),
                errors: Seq::empty(),
            },
            _ => {
                let rest = scan(next, bytes.skip(1));
                Scan {
                    machine: rest.machine,
                    taken: rest.taken + 1,
                    line: rest.line,
                    frames: frame_of(event) + rest.frames,
                    errors: error_of(event) + rest.errors,
                }
            },
        }
    }
}

/// Every byte that a scan takes has a place in the machine.
pub open spec fn all_accepted(m: MachineView, bytes: Seq<u8>) -> bool
    decreases bytes.len(),
{
    bytes.len() > 0 ==> {
        &&& m.accepts()
        &&& step(m, bytes[0]).1 is Command || all_accepted(step(m, bytes[0]).0, bytes.skip(1))
    }
}

/// A channel that has held `before` and was sent `frames` has held all of them since, unless it was
/// abandoned on the way: then it has held those before that. It is abandoned after that exactly if
/// the last frame was not taken, or if it was before and there was no frame.
pub open spec fn shows(
    now: Seq<FrameView>,
    before: Seq<FrameView>,
    frames: Seq<FrameView>,
    abandoned: bool,
    was_abandoned: bool,
) -> bool {
    exists|count: int|
        {
            &&& 0 <= count <= frames.len()
            &&& now == before + #[trigger] frames.take(count)
            &&& abandoned == if frames.len() == 0 {
                was_abandoned
            } else {
                count < frames.len()
            }
            &&& was_abandoned ==> count == 0
        }
}

/// Sending more frames after some is sending all of them.
proof fn lemma_shows(
    now: Seq<FrameView>,
    then: Seq<FrameView>,
    before: Seq<FrameView>,
    frames: Seq<FrameView>,
    more: Seq<FrameView>,
    abandoned_now: bool,
    abandoned_then: bool,
    was_abandoned: bool,
)
    requires
        shows(then, before, frames, abandoned_then, was_abandoned),
        shows(now, then, more, abandoned_now, abandoned_then),
    ensures
        shows(now, before, frames + more, abandoned_now, was_abandoned),
{
    let first = choose|count: int|
        {
            &&& 0 <= count <= frames.len()
            &&& then == before + #[trigger] frames.take(count)
            &&& abandoned_then == if frames.len() == 0 {
                was_abandoned
            } else {
                count < frames.len()
            }
            &&& was_abandoned ==> count == 0
        };
    let second = choose|count: int|
        {
            &&& 0 <= count <= more.len()
            &&& now == then + #[trigger] more.take(count)
            &&& abandoned_now == if more.len() == 0 {
                abandoned_then
            } else {
                count < more.len()
            }
            &&& abandoned_then ==> count == 0
        };
    assert(now =~= before + (frames + more).take(first + second));
}

/// The codec: the state machine, the sending end for complete frames, and the checksum errors and
/// the text of the last line that nobody has asked for yet.
pub struct A010Codec {
    machine: A010Machine,
    sender: FrameSender,
    errors: Vec<ChecksumError>,
    text: Option<String>,
}

/// A codec sends its frames on the channel on which another did.
pub open spec fn same_channel(codec: A010Codec, other: A010Codec) -> bool {
    forall|receiver: FrameReceiver| #[trigger] codec.feeds(receiver) == other.feeds(receiver)
}

/// What decoding does to a codec and a buffer, and the response that it returns.
///
/// The response is read in the text of the line. Where the line is valid UTF-8, that is the line
/// itself.
pub open spec fn decoded(
    codec: A010Codec,
    src: BytesMut,
    codec_after: A010Codec,
    src_after: BytesMut,
    rsp: Option<A010Rsp>,
) -> bool {
    let done = scan(codec.machine(), buffered(src));
    &&& codec_after.machine() == done.machine
    &&& buffered(src_after) == buffered(src).skip(done.taken as int)
    &&& match done.line {
        Some(line) => {
            &&& rsp == response(encode_utf8(lossy_text(line)))
            &&& valid_utf8(line) ==> rsp == response(line)
        },
        None => rsp is None,
    }
    &&& codec_after.text() == match done.line {
        Some(line) => Some(lossy_text(line)),
        None => codec.text(),
    }
    &&& same_channel(codec_after, codec)
    &&& codec_after.errors() == codec.errors() + done.errors
    &&& shows(
        codec_after.shown(),
        codec.shown(),
        done.frames,
        codec_after.abandoned(),
        codec.abandoned(),
    )
}

impl A010Codec {
    /// The state machine is well formed.
    pub closed spec fn wf(&self) -> bool {
        self.machine.wf()
    }

    /// The state of the machine.
    pub closed spec fn machine(&self) -> MachineView {
        self.machine@
    }

    /// The frames that the channel has held, oldest first. It shows the last of them.
    pub closed spec fn shown(&self) -> Seq<FrameView> {
        held(self.sender).map_values(|frame: A010Frame| frame@)
    }

    /// Frames are sent on the channel that a receiving end belongs to.
    pub closed spec fn feeds(&self, receiver: FrameReceiver) -> bool {
        linked(self.sender, receiver)
    }

    /// The text of the last line that decoding has read, unless it has been asked for.
    pub closed spec fn text(&self) -> Option<Seq<char>> {
        match self.text {
            Some(text) => Some(text@),
            None => None,
        }
    }

    /// Nobody is left to whom a frame could be shown.
    pub closed spec fn abandoned(&self) -> bool {
        abandoned(self.sender)
    }

    /// The checksum errors that nobody has asked for yet.
    pub closed spec fn errors(&self) -> Seq<ChecksumError> {
        self.errors@
    }

    /// The buffers keep their sizes, and what has been received keeps within them.
    pub proof fn buffers_keep_their_sizes(&self)
        requires
            self.wf(),
        ensures
            self.machine().line.len() <= CMD_BUF_SIZE,
            self.machine().frame.header.len() == HEADER_SIZE,
            self.machine().frame.data.len() == MAX_FRAME_SIZE,
            0 <= self.machine().received <= MAX_FRAME_SIZE,
            self.machine().status is FrameHeader ==> self.machine().received < HEADER_SIZE,
    {
        self.machine.buffers_keep_their_sizes();
    }

    /// A codec that has received nothing, and the receiving end for its frames.
    pub fn new() -> (ends: (Self, FrameReceiver))
        ensures
            ends.0.wf(),
            ends.0.machine() == initial_machine(),
            ends.0.shown() == seq![default_frame()],
            ends.0.feeds(ends.1),
            !ends.0.abandoned(),
            ends.0.errors() == Seq::<ChecksumError>::empty(),
            ends.0.text() is None,
    {
        let (sender, receiver) = frame_channel(A010Frame::default());
        let codec = A010Codec {
            machine: A010Machine::new(),
            sender,
            errors: Vec::new(),
            text: None,
        };
        assert(codec.shown() =~= seq![default_frame()]);
        (codec, receiver)
    }

    /// Takes one byte. A line that it completes is returned. A frame that it completes is sent on
    /// the channel, and is dropped if no receiving end is left.
    pub fn handle_byte(&mut self, byte: u8) -> (text: Option<String>)
        requires
            old(self).wf(),
            old(self).machine().accepts(),
        ensures
            final(self).wf(),
            final(self).machine() == step(old(self).machine(), byte).0,
            match step(old(self).machine(), byte).1 {
                EventView::Command(line) => text matches Some(t) && text_is(t@, line),
                _ => text is None,
            },
            shows(
                final(self).shown(),
                old(self).shown(),
                frame_of(step(old(self).machine(), byte).1),
                final(self).abandoned(),
                old(self).abandoned(),
            ),
            final(self).shown().len() > old(self).shown().len() ==> !final(self).abandoned(),
            same_channel(*final(self), *old(self)),
            final(self).errors() == old(self).errors() + error_of(
                step(old(self).machine(), byte).1,
            ),
            final(self).text() == old(self).text(),
    {
        let event = self.machine.handle_byte(byte);
        let ghost frames = frame_of(step(old(self).machine(), byte).1);
        assert(old(self).shown() =~= old(self).shown() + frames.take(0));
        match event {
            A010Event::Pending => {
                assert(self.errors() =~= old(self).errors());
                None
            },
            A010Event::Command(text) => {
                assert(self.errors() =~= old(self).errors());
                Some(text)
            },
            A010Event::ChecksumError { expected, got } => {
                self.errors.push(ChecksumError { expected, got });
                None
            },
            A010Event::Frame(frame) => {
                let sent: bool = send_frame(&mut self.sender, frame);
                assert(sent ==> self.shown() =~= old(self).shown() + frames.take(1));
                assert(self.errors() =~= old(self).errors());
                None
            },
        }
    }

    /// Whether every byte that `decode` would take from a buffer has a place.
    pub fn can_decode(&self, src: &BytesMut) -> (r: bool)
        requires
            self.wf(),
        ensures
            r == all_accepted(self.machine(), buffered(*src)),
    {
        let bytes = contents(src);
        let mut probe = self.machine;
        let mut i: usize = 0;
        assert(bytes@.skip(0) =~= bytes@);
        while i < bytes.len()
            invariant
                i <= bytes@.len(),
                bytes@ == buffered(*src),
                probe.wf(),
                all_accepted(self.machine(), bytes@) == all_accepted(probe@, bytes@.skip(i as int)),
            decreases bytes@.len() - i,
        {
            if !probe.accepts() {
                return false;
            }
            assert(bytes@.skip(i as int).skip(1) =~= bytes@.skip(i + 1));
            let event = probe.handle_byte(bytes[i]);
            if let A010Event::Command(_) = event {
                return true;
            }
            i = i + 1;
        }
        true
    }

    /// Takes bytes from the buffer until one completes a line, and returns the response in that
    /// line. Bytes behind the line stay in the buffer.
    pub fn decode(&mut self, src: &mut BytesMut) -> (rsp: Option<A010Rsp>)
        requires
            old(self).wf(),
            all_accepted(old(self).machine(), buffered(*old(src))),
        ensures
            final(self).wf(),
            decoded(*old(self), *old(src), *final(self), *final(src), rsp),
            scan(old(self).machine(), buffered(*old(src))).line matches Some(line) ==> (valid_utf8(
                line,
            ) ==> rsp == response(line)),
            scan(old(self).machine(), buffered(*old(src))).line is None ==> rsp is None,
    {
        let ghost bytes = buffered(*src);
        let ghost whole = scan(self.machine(), bytes);
        let ghost mut taken: int = 0;
        let ghost mut frames = Seq::<FrameView>::empty();
        let ghost mut errors = Seq::<ChecksumError>::empty();
        assert(bytes.skip(0) =~= bytes);
        assert(self.errors() + errors =~= self.errors());
        assert(self.shown() =~= self.shown() + frames.take(0));
        while remaining(src) > 0
            invariant
                self.wf(),
                bytes == buffered(*old(src)),
                0 <= taken <= bytes.len(),
                buffered(*src) == bytes.skip(taken),
                all_accepted(self.machine(), buffered(*src)),
                whole == scan(old(self).machine(), bytes),
                ({
                    let rest = scan(self.machine(), buffered(*src));
                    &&& whole.machine == rest.machine
                    &&& whole.taken == taken + rest.taken
                    &&& whole.line == rest.line
                    &&& whole.frames == frames + rest.frames
                    &&& whole.errors == errors + rest.errors
                }),
                same_channel(*self, *old(self)),
                self.text() == old(self).text(),
                self.errors() == old(self).errors() + errors,
                shows(
                    self.shown(),
                    old(self).shown(),
                    frames,
                    self.abandoned(),
                    old(self).abandoned(),
                ),
            decreases buffered(*src).len(),
        {
            let ghost before = self.machine();
            let ghost shown = self.shown();
            let ghost was_abandoned = self.abandoned();
            let byte: u8 = take_byte(src);
            let ghost event = step(before, byte).1;
            let text = self.handle_byte(byte);
            proof {
                taken = taken + 1;
                assert(buffered(*src) =~= bytes.skip(taken));
            }
            if let Some(text) = text {
                proof {
                    let line = event->Command_0;
                    if valid_utf8(line) {
                        decode_utf8_encode_utf8(line);
                    }
                }
                let ghost read = *self;
                let rsp = parse_response(text.as_str());
                self.text = Some(text);
                proof {
                    assert(self.errors() =~= old(self).errors() + whole.errors);
                    assert forall|receiver: FrameReceiver| #[trigger]
                        self.feeds(receiver) == old(self).feeds(receiver) by {
                        assert(self.feeds(receiver) == read.feeds(receiver));
                    }
                }
                return rsp;
            }
            proof {
                lemma_shows(
                    self.shown(),
                    shown,
                    old(self).shown(),
                    frames,
                    frame_of(event),
                    self.abandoned(),
                    was_abandoned,
                    old(self).abandoned(),
                );
                frames = frames + frame_of(event);
                errors = errors + error_of(event);
            }
        }
        assert(buffered(*src) =~= bytes.skip(whole.taken as int));
        None
    }

    /// Decodes like `decode` if every byte has a place, and else leaves all as it is.
    pub fn try_decode(&mut self, src: &mut BytesMut) -> (rsp: Option<Option<A010Rsp>>)
        requires
            old(self).wf(),
        ensures
            final(self).wf(),
            rsp is Some <==> all_accepted(old(self).machine(), buffered(*old(src))),
            rsp is None ==> *final(self) == *old(self) && *final(src) == *old(src),
            rsp matches Some(rsp) ==> decoded(
                *old(self),
                *old(src),
                *final(self),
                *final(src),
                rsp,
            ),
    {
        if self.can_decode(src) {
            Some(self.decode(src))
        } else {
            None
        }
    }

    /// Takes the checksum errors since the last call.
    pub fn take_checksum_errors(&mut self) -> (errors: Vec<ChecksumError>)
        requires
            old(self).wf(),
        ensures
            errors@ == old(self).errors(),
            final(self).wf(),
            final(self).errors() == Seq::<ChecksumError>::empty(),
            final(self).machine() == old(self).machine(),
            final(self).shown() == old(self).shown(),
            final(self).abandoned() == old(self).abandoned(),
            same_channel(*final(self), *old(self)),
            final(self).text() == old(self).text(),
    {
        let mut errors: Vec<ChecksumError> = Vec::new();
        std::mem::swap(&mut errors, &mut self.errors);
        errors
    }

    /// Takes the text of the last line that decoding has read, if there is one since the last call.
    pub fn take_text(&mut self) -> (text: Option<String>)
        requires
            old(self).wf(),
        ensures
            text is Some <==> old(self).text() is Some,
            text matches Some(t) ==> old(self).text() == Some(t@),
            final(self).wf(),
            final(self).text() is None,
            final(self).machine() == old(self).machine(),
            final(self).shown() == old(self).shown(),
            final(self).abandoned() == old(self).abandoned(),
            same_channel(*final(self), *old(self)),
            final(self).errors() == old(self).errors(),
    {
        self.text.take()
    }

    /// Appends the bytes of a command.
    pub fn encode(&mut self, item: A010Cmd, dst: &mut BytesMut)
        requires
            buffered(*old(dst)).len() + item.bytes().len() <= isize::MAX,
        ensures
            buffered(*final(dst)) == buffered(*old(dst)) + item.bytes(),
            *final(self) == *old(self),
    {
        match item {
            A010Cmd::AT => {
                append(dst, &['A' as u8, 'T' as u8, '\r' as u8, '\n' as u8]);
                assert(buffered(*dst) =~= buffered(*old(dst)) + item.bytes());
            },
            A010Cmd::GetBinn => A010Arg::encode_get_binn(dst),
            A010Cmd::GetDisp => A010Arg::encode_get_disp(dst),
            A010Cmd::GetBaud => A010Arg::encode_get_baud(dst),
            A010Cmd::GetUnit => A010Arg::encode_get_unit(dst),
            A010Cmd::GetFps => A010Arg::encode_get_fps(dst),
            A010Cmd::SetArg(arg) => arg.encode_set(dst),
        }
    }

    /// Appends the bytes of a command if the buffer has room for the longest one.
    pub fn try_encode(&mut self, item: A010Cmd, dst: &mut BytesMut) -> (encoded: bool)
        ensures
            encoded == (buffered(*old(dst)).len() + MAX_CMD_SIZE <= isize::MAX),
            encoded ==> buffered(*final(dst)) == buffered(*old(dst)) + item.bytes(),
            !encoded ==> *final(dst) == *old(dst),
            *final(self) == *old(self),
    {
        if has_room(dst, MAX_CMD_SIZE) {
            proof {
                commands_are_short(item);
            }
            self.encode(item, dst);
            true
        } else {
            false
        }
    }
}

} // verus!
