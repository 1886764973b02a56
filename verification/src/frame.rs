//! Depth frames and their checksum.

use vstd::prelude::*;

verus! {

/// Bytes of header in front of the pixels of a frame.
pub const HEADER_SIZE: usize = 16;

/// Pixels of the largest frame, 100 by 100.
pub const MAX_FRAME_SIZE: usize = 100 * 100;

/// A depth frame: a header and one distance byte per pixel.
///
/// `full_size` is the size announced on the wire, header included, and `frame_size` the number of
/// pixels that follows from it. Only the first `frame_size` bytes of `data` belong to the frame.
#[derive(Clone, Copy)]
pub struct A010Frame {
    pub full_size: usize,
    pub header: [u8; HEADER_SIZE],
    pub frame_size: usize,
    pub data: [u8; MAX_FRAME_SIZE],
}

/// What a frame holds, with its arrays as sequences.
#[verifier::ext_equal]
pub struct FrameView {
    pub full_size: usize,
    pub header: Seq<u8>,
    pub frame_size: usize,
    pub data: Seq<u8>,
}

impl View for A010Frame {
    type V = FrameView;

    open spec fn view(&self) -> FrameView {
        FrameView {
            full_size: self.full_size,
            header: self.header@,
            frame_size: self.frame_size,
            data: self.data@,
        }
    }
}

/// The frame shown before the first one arrives: a full-size one at the greatest distance.
pub open spec fn default_frame() -> FrameView {
    FrameView {
        full_size: (MAX_FRAME_SIZE + HEADER_SIZE) as usize,
        header: Seq::new(HEADER_SIZE as nat, |i: int| 0u8),
        frame_size: MAX_FRAME_SIZE,
        data: Seq::new(MAX_FRAME_SIZE as nat, |i: int| 0xFFu8),
    }
}

/// The sum of a sequence of bytes.
pub open spec fn byte_sum(bytes: Seq<u8>) -> int
    decreases bytes.len(),
{
    if bytes.len() == 0 {
        0
    } else {
        byte_sum(bytes.drop_last()) + bytes.last()
    }
}

/// The checksum of a frame of which `received` pixels have arrived: the sum, modulo 256, of the
/// two bytes of the start mark (`0x00` and `0xFF`, together -1), the two bytes of the size, the
/// header and the pixels.
pub open spec fn checksum_of(frame: FrameView, received: int) -> int {
    (byte_sum(frame.header) + byte_sum(frame.data.take(received)) + frame.full_size % 256
        + frame.full_size / 256 % 256 - 1) % 256
}

impl Default for A010Frame {
    fn default() -> (frame: Self)
        ensures
            frame@ == default_frame(),
    {
        A010Frame {
            full_size: MAX_FRAME_SIZE + HEADER_SIZE,
            header: [0; HEADER_SIZE],
            frame_size: MAX_FRAME_SIZE,
            data: [0xFF; MAX_FRAME_SIZE],
        }
    }
}

impl A010Frame {
    /// The checksum of this frame when the first `received` bytes of `data` are its pixels.
    pub fn checksum(&self, received: usize) -> (sum: u8)
        requires
            received <= MAX_FRAME_SIZE,
        ensures
            sum == checksum_of(self@, received as int),
    {
        let mut sum: u8 = 0;
        let mut i: usize = 0;
        assert(self.header@.take(0) =~= Seq::<u8>::empty());
        while i < HEADER_SIZE
            invariant
                i <= HEADER_SIZE,
                sum == byte_sum(self.header@.take(i as int)) % 256,
            decreases HEADER_SIZE - i,
        {
            assert(self.header@.take(i + 1).drop_last() =~= self.header@.take(i as int));
            sum = sum.wrapping_add(self.header[i]);
            i = i + 1;
        }
        assert(self.header@.take(HEADER_SIZE as int) =~= self.header@);
        let mut j: usize = 0;
        assert(self.data@.take(0) =~= Seq::<u8>::empty());
        while j < received
            invariant
                j <= received <= MAX_FRAME_SIZE,
                sum == (byte_sum(self.header@) + byte_sum(self.data@.take(j as int))) % 256,
            decreases received - j,
        {
            assert(self.data@.take(j + 1).drop_last() =~= self.data@.take(j as int));
            sum = sum.wrapping_add(self.data[j]);
            j = j + 1;
        }
        let full: usize = self.full_size;
        let low: u8 = #[verifier::truncate] (full as u8);
        let high: u8 = #[verifier::truncate] ((full >> 8) as u8);
        assert(low == full % 256) by (bit_vector)
            requires
                low == full as u8,
        ;
        assert(high == full / 256 % 256) by (bit_vector)
            requires
                high == (full >> 8) as u8,
        ;
        sum.wrapping_add(low).wrapping_add(high).wrapping_sub(1)
    }
}

} // verus!
