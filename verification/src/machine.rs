//! The state machine that tells text lines and depth frames apart in the byte stream of the
//! camera.
//!
//! A line ends with a carriage return or a line feed. A frame starts with `0x00 0xFF` and goes on
//! with its size (low byte first), a header, the pixels, a checksum and a stop byte.

use vstd::prelude::*;
use vstd::utf8::{decode_utf8, valid_utf8};
use crate::frame::{A010Frame, FrameView, HEADER_SIZE, MAX_FRAME_SIZE, checksum_of, default_frame};
use crate::text::{lossy_text, text_of};

verus! {

/// Longest line that is kept whole.
pub const CMD_BUF_SIZE: usize = 128;

/// Largest size that the low size byte may leave standing.
pub const FRAME_BUF_SIZE: usize = MAX_FRAME_SIZE + 32;

pub const CARRIAGE_RETURN: u8 = 0x0D;

pub const LINE_FEED: u8 = 0x0A;

/// What the next byte is.
#[derive(Clone, Copy, PartialEq, Eq, Structural)]
pub enum A010CodecStatus {
    Cmd,
    FrameStart,
    FrameSizeMsb,
    FrameSizeLsb,
    FrameHeader,
    FrameData,
    FrameSum,
    FrameStop,
}

/// What a byte completed.
pub enum A010Event {
    /// Nothing yet.
    Pending,
    /// A line of text, or the part of one that filled the line buffer.
    Command(String),
    /// A frame whose checksum is not the one received.
    ChecksumError { expected: u8, got: u8 },
    /// A frame.
    Frame(A010Frame),
}

/// What a byte completed, with a line as the bytes that were received.
pub enum EventView {
    Pending,
    Command(Seq<u8>),
    ChecksumError { expected: u8, got: u8 },
    Frame(FrameView),
}

/// An event stands for its view. The text of a line is what `lossy_text` reads in its bytes, and
/// exactly the characters that they encode where they are valid UTF-8.
pub open spec fn event_is(event: A010Event, view: EventView) -> bool {
    match (event, view) {
        (A010Event::Pending, EventView::Pending) => true,
        (A010Event::Command(text), EventView::Command(line)) => text_is(text@, line),
        (
            A010Event::ChecksumError { expected, got },
            EventView::ChecksumError { expected: e, got: g },
        ) => expected == e && got == g,
        (A010Event::Frame(frame), EventView::Frame(f)) => frame@ == f,
        _ => false,
    }
}

/// A text is the one read in the bytes of a line.
pub open spec fn text_is(text: Seq<char>, line: Seq<u8>) -> bool {
    &&& text == lossy_text(line)
    &&& valid_utf8(line) ==> text == decode_utf8(line)
}

/// The state of the machine: what the next byte is, the line received so far, the frame being
/// received and how many bytes of its header or its pixels are there.
#[verifier::ext_equal]
pub struct MachineView {
    pub status: A010CodecStatus,
    pub line: Seq<u8>,
    pub received: int,
    pub frame: FrameView,
}

impl MachineView {
    /// The state with another status.
    pub open spec fn at(self, status: A010CodecStatus) -> MachineView {
        MachineView { status, ..self }
    }

    /// The state with the sizes of the frame and the count of received bytes set to zero.
    pub open spec fn reset(self) -> MachineView {
        MachineView {
            received: 0,
            frame: FrameView { full_size: 0, frame_size: 0, ..self.frame },
            ..self
        }
    }

    /// The next byte has a place: pixels are only taken as far as the largest frame goes.
    pub open spec fn accepts(self) -> bool {
        self.status is FrameData ==> self.received < MAX_FRAME_SIZE
    }
}

/// The state of a machine that has received nothing.
pub open spec fn initial_machine() -> MachineView {
    MachineView {
        status: A010CodecStatus::Cmd,
        line: Seq::empty(),
        received: 0,
        frame: default_frame(),
    }
}

/// A byte that ends a line.
pub open spec fn is_line_end(byte: u8) -> bool {
    byte == CARRIAGE_RETURN || byte == LINE_FEED
}

/// The announced size less the header, modulo the range of `usize`.
pub open spec fn pixels_announced(full_size: usize) -> usize {
    if full_size >= HEADER_SIZE {
        (full_size - HEADER_SIZE) as usize
    } else {
        (full_size - HEADER_SIZE + usize::MAX + 1) as usize
    }
}

/// The size after its low byte: the byte is added to the bits that stand there, and a size over
/// the limit is dropped.
pub open spec fn with_size_lsb(full_size: usize, byte: u8) -> usize {
    let full = full_size | (byte as usize);
    if full > FRAME_BUF_SIZE {
        0
    } else {
        full
    }
}

/// The size after its high byte: the byte is added to the bits that stand there.
pub open spec fn with_size_msb(full_size: usize, byte: u8) -> usize {
    full_size | ((byte as usize) << 8)
}

/// A byte of text. A zero byte starts a frame and leaves the line as it is. A line end completes
/// the line unless it is empty. A byte for which the line has no room completes the line and is
/// dropped.
pub open spec fn step_cmd(m: MachineView, byte: u8) -> (MachineView, EventView) {
    if byte == 0 {
        (m.at(A010CodecStatus::FrameStart), EventView::Pending)
    } else if is_line_end(byte) {
        if m.line.len() > 0 {
            (MachineView { line: Seq::empty(), ..m }, EventView::Command(m.line))
        } else {
            (m, EventView::Pending)
        }
    } else if m.line.len() >= CMD_BUF_SIZE {
        (MachineView { line: Seq::empty(), ..m }, EventView::Command(m.line))
    } else {
        (MachineView { line: m.line.push(byte), ..m }, EventView::Pending)
    }
}

/// What a byte does to the machine, and what it completes.
pub open spec fn step(m: MachineView, byte: u8) -> (MachineView, EventView) {
    match m.status {
        A010CodecStatus::Cmd => step_cmd(m, byte),
        A010CodecStatus::FrameStart => if byte == 0xFF {
            (m.at(A010CodecStatus::FrameSizeLsb), EventView::Pending)
        } else {
            (m.reset().at(A010CodecStatus::Cmd), EventView::Pending)
        },
        A010CodecStatus::FrameSizeLsb => {
            let full_size = with_size_lsb(m.frame.full_size, byte);
            let kept = if m.frame.full_size | (byte as usize) > FRAME_BUF_SIZE {
                m.reset()
            } else {
                m
            };
            (
                MachineView {
                    status: A010CodecStatus::FrameSizeMsb,
                    received: 0,
                    frame: FrameView { full_size, ..kept.frame },
                    ..kept
                },
                EventView::Pending,
            )
        },
        A010CodecStatus::FrameSizeMsb => {
            let full_size = with_size_msb(m.frame.full_size, byte);
            (
                MachineView {
                    status: A010CodecStatus::FrameHeader,
                    received: 0,
                    frame: FrameView {
                        full_size,
                        frame_size: pixels_announced(full_size),
                        ..m.frame
                    },
                    ..m
                },
                EventView::Pending,
            )
        },
        A010CodecStatus::FrameHeader => {
            let header = m.frame.header.update(m.received, byte);
            let last = m.received + 1 >= HEADER_SIZE;
            (
                MachineView {
                    status: if last {
                        A010CodecStatus::FrameData
                    } else {
                        A010CodecStatus::FrameHeader
                    },
                    received: if last { 0 } else { m.received + 1 },
                    frame: FrameView { header, ..m.frame },
                    ..m
                },
                EventView::Pending,
            )
        },
        A010CodecStatus::FrameData => {
            let data = m.frame.data.update(m.received, byte);
            let last = m.received + 1 >= m.frame.frame_size;
            (
                MachineView {
                    status: if last {
                        A010CodecStatus::FrameSum
                    } else {
                        A010CodecStatus::FrameData
                    },
                    received: m.received + 1,
                    frame: FrameView { data, ..m.frame },
                    ..m
                },
                EventView::Pending,
            )
        },
        A010CodecStatus::FrameSum => {
            let sum = checksum_of(m.frame, m.received);
            (
                m.at(A010CodecStatus::FrameStop),
                if sum == byte {
                    EventView::Pending
                } else {
                    EventView::ChecksumError { expected: sum as u8, got: byte }
                },
            )
        },
        A010CodecStatus::FrameStop => (
            m.reset().at(A010CodecStatus::Cmd),
            EventView::Frame(m.frame),
        ),
    }
}

/// The state machine, with the line and the frame that are being received.
#[derive(Clone, Copy)]
pub struct A010Machine {
    status: A010CodecStatus,
    cmd_pointer: usize,
    frame_pointer: usize,
    cmd_buf: [u8; CMD_BUF_SIZE],
    frame: A010Frame,
}

impl View for A010Machine {
    type V = MachineView;

    closed spec fn view(&self) -> MachineView {
        MachineView {
            status: self.status,
            line: self.cmd_buf@.take(self.cmd_pointer as int),
            received: self.frame_pointer as int,
            frame: self.frame@,
        }
    }
}

impl A010Machine {
    /// The pointers are within their buffers.
    pub closed spec fn wf(&self) -> bool {
        &&& self.cmd_pointer <= CMD_BUF_SIZE
        &&& self.frame_pointer <= MAX_FRAME_SIZE
        &&& self.status is FrameHeader ==> self.frame_pointer < HEADER_SIZE
    }

    /// The buffers keep their sizes, and what has been received keeps within them.
    pub proof fn buffers_keep_their_sizes(&self)
        requires
            self.wf(),
        ensures
            self@.line.len() <= CMD_BUF_SIZE,
            self@.frame.header.len() == HEADER_SIZE,
            self@.frame.data.len() == MAX_FRAME_SIZE,
            0 <= self@.received <= MAX_FRAME_SIZE,
            self@.status is FrameHeader ==> self@.received < HEADER_SIZE,
    {
    }

    /// A machine that has received nothing.
    pub fn new() -> (machine: Self)
        ensures
            machine.wf(),
            machine@ == initial_machine(),
    {
        let machine = A010Machine {
            status: A010CodecStatus::Cmd,
            cmd_pointer: 0,
            frame_pointer: 0,
            cmd_buf: [0; CMD_BUF_SIZE],
            frame: A010Frame::default(),
        };
        assert(machine@.line =~= Seq::<u8>::empty());
        machine
    }

    /// Whether the next byte has a place.
    pub fn accepts(&self) -> (r: bool)
        ensures
            r == self@.accepts(),
    {
        match self.status {
            A010CodecStatus::FrameData => self.frame_pointer < MAX_FRAME_SIZE,
            _ => true,
        }
    }

    /// Forgets the sizes of the frame and how much of it is there.
    fn reset_frame(&mut self)
        requires
            old(self).wf(),
        ensures
            final(self).wf(),
            final(self)@ == old(self)@.reset(),
            final(self).status == old(self).status,
    {
        self.frame_pointer = 0;
        self.frame.full_size = 0;
        self.frame.frame_size = 0;
    }

    /// Takes the line received so far, unless it is empty.
    pub fn handle_command(&mut self) -> (command: Option<String>)
        requires
            old(self).wf(),
        ensures
            final(self).wf(),
            final(self)@ == (MachineView { line: Seq::empty(), ..old(self)@ }),
            command is Some <==> old(self)@.line.len() > 0,
            command matches Some(text) ==> text_is(text@, old(self)@.line),
    {
        if self.cmd_pointer > 0 {
            let text = text_of(&self.cmd_buf[0..self.cmd_pointer]);
            assert(self.cmd_buf@.subrange(0, self.cmd_pointer as int) =~= self@.line);
            self.cmd_pointer = 0;
            assert(self@.line =~= Seq::<u8>::empty());
            return Some(text);
        }
        assert(self@.line =~= Seq::<u8>::empty());
        None
    }

    /// Takes one byte of the stream.
    pub fn handle_byte(&mut self, byte: u8) -> (event: A010Event)
        requires
            old(self).wf(),
            old(self)@.accepts(),
        ensures
            final(self).wf(),
            final(self)@ == step(old(self)@, byte).0,
            event_is(event, step(old(self)@, byte).1),
    {
        match self.status {
            A010CodecStatus::Cmd => {
                if byte == 0x00 {
                    self.status = A010CodecStatus::FrameStart;
                } else if byte == CARRIAGE_RETURN || byte == LINE_FEED {
                    if let Some(text) = self.handle_command() {
                        return A010Event::Command(text);
                    }
                } else {
                    if self.cmd_pointer >= CMD_BUF_SIZE {
                        if let Some(text) = self.handle_command() {
                            return A010Event::Command(text);
                        }
                    }
                    self.cmd_buf[self.cmd_pointer] = byte;
                    self.cmd_pointer = self.cmd_pointer + 1;
                    assert(self@.line =~= old(self)@.line.push(byte));
                }
            },
            A010CodecStatus::FrameStart => {
                if byte == 0xFF {
                    self.status = A010CodecStatus::FrameSizeLsb;
                } else {
                    self.reset_frame();
                    self.status = A010CodecStatus::Cmd;
                }
            },
            A010CodecStatus::FrameSizeLsb => {
                self.frame.full_size = self.frame.full_size | (byte as usize);
                if self.frame.full_size > FRAME_BUF_SIZE {
                    self.reset_frame();
                }
                self.frame_pointer = 0;
                self.status = A010CodecStatus::FrameSizeMsb;
            },
            A010CodecStatus::FrameSizeMsb => {
                self.frame.full_size = self.frame.full_size | ((byte as usize) << 8);
                self.frame.frame_size = self.frame.full_size.wrapping_sub(HEADER_SIZE);
                self.status = A010CodecStatus::FrameHeader;
                self.frame_pointer = 0;
            },
            A010CodecStatus::FrameHeader => {
                self.frame.header[self.frame_pointer] = byte;
                self.frame_pointer = self.frame_pointer + 1;
                if self.frame_pointer >= HEADER_SIZE {
                    self.frame_pointer = 0;
                    self.status = A010CodecStatus::FrameData;
                }
            },
            A010CodecStatus::FrameData => {
                self.frame.data[self.frame_pointer] = byte;
                self.frame_pointer = self.frame_pointer + 1;
                if self.frame_pointer >= self.frame.frame_size {
                    self.status = A010CodecStatus::FrameSum;
                }
            },
            A010CodecStatus::FrameSum => {
                let sum: u8 = self.frame.checksum(self.frame_pointer);
                self.status = A010CodecStatus::FrameStop;
                if sum != byte {
                    return A010Event::ChecksumError { expected: sum, got: byte };
                }
            },
            A010CodecStatus::FrameStop => {
                let frame = self.frame;
                self.reset_frame();
                self.status = A010CodecStatus::Cmd;
                return A010Event::Frame(frame);
            },
        }
        A010Event::Pending
    }
}

} // verus!
