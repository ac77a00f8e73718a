//! The header: the first 512 bytes of a C3D byte source.

use vstd::prelude::*;
use crate::error::ParserError;
use crate::frame::spec_word_size;
use crate::ieee::{is_nonpositive, spec_is_nonpositive};
use crate::wire::{copy_range, read_u16_le, read_u32_le, spec_u16_le, spec_u32_le};

verus! {

/// The number of bytes in one block of the file.
pub const BLOCK_SIZE: usize = 512;

/// The byte that marks a header.
pub const HEADER_MAGIC: u8 = 0x50;

/// The number of slots in the header's event table.
pub const EVENT_SLOTS: usize = 18;

/// The fields of the header.
///
/// Real numbers (`scale`, `frame_rate`, `event_times`) are held as IEEE 754
/// single-precision bit patterns. The event table and the reserved areas
/// are kept as they stand in the file.
#[derive(Clone, Debug)]
pub struct HeaderBlock {
    /// The block in which the parameter section starts, counted from 1.
    pub parameter_start: u8,
    /// The magic byte, `0x50`.
    pub magic_word: u8,
    /// The number of 3-D points in a frame.
    pub point_counts: u16,
    /// The number of analog samples in a frame.
    pub analog_counts: u16,
    /// The number of the first frame, counted from 1.
    pub frame_first: u16,
    /// The number of the last frame.
    pub frame_last: u16,
    /// The longest gap that was filled by interpolation.
    pub max_gap: u16,
    /// The scale factor. Zero or negative: the frames hold real numbers.
    /// Positive: they hold 16-bit integers, and this is the factor by which
    /// a point's coordinates are multiplied.
    pub scale: u32,
    /// The block in which the frames start, counted from 1.
    pub data_start: u16,
    /// The number of analog samples per point frame and channel.
    pub analog_per_frame: u16,
    /// The number of point frames per second.
    pub frame_rate: u32,
    /// Bytes 24 to 297.
    pub reserved: Vec<u8>,
    /// Whether event labels are four characters long.
    pub event_lables_long: u16,
    /// The number of events.
    pub event_counts: u16,
    /// Bytes 302 and 303.
    pub reserved_two: u16,
    /// The times of the events.
    pub event_times: Vec<u32>,
    /// One display flag for each event.
    pub event_display_flags: Vec<u8>,
    /// Bytes 394 and 395.
    pub reserved_three: u16,
    /// The labels of the events, four bytes each.
    pub event_labels: Vec<u8>,
    /// Bytes 468 to 511.
    pub reserved_four: Vec<u8>,
}

/// The times of the event table that starts at byte 304.
pub open spec fn spec_event_times(bytes: Seq<u8>) -> Seq<u32> {
    Seq::new(EVENT_SLOTS as nat, |i: int| spec_u32_le(bytes, 304 + 4 * i) as u32)
}

impl HeaderBlock {
    /// Whether the fields are those that `bytes` holds.
    pub open spec fn holds(&self, bytes: Seq<u8>) -> bool {
        &&& self.parameter_start == bytes[0]
        &&& self.magic_word == bytes[1]
        &&& self.point_counts == spec_u16_le(bytes, 2)
        &&& self.analog_counts == spec_u16_le(bytes, 4)
        &&& self.frame_first == spec_u16_le(bytes, 6)
        &&& self.frame_last == spec_u16_le(bytes, 8)
        &&& self.max_gap == spec_u16_le(bytes, 10)
        &&& self.scale == spec_u32_le(bytes, 12)
        &&& self.data_start == spec_u16_le(bytes, 16)
        &&& self.analog_per_frame == spec_u16_le(bytes, 18)
        &&& self.frame_rate == spec_u32_le(bytes, 20)
        &&& self.reserved@ == bytes.subrange(24, 298)
        &&& self.event_lables_long == spec_u16_le(bytes, 298)
        &&& self.event_counts == spec_u16_le(bytes, 300)
        &&& self.reserved_two == spec_u16_le(bytes, 302)
        &&& self.event_times@ == spec_event_times(bytes)
        &&& self.event_display_flags@ == bytes.subrange(376, 394)
        &&& self.reserved_three == spec_u16_le(bytes, 394)
        &&& self.event_labels@ == bytes.subrange(396, 468)
        &&& self.reserved_four@ == bytes.subrange(468, 512)
    }

    /// Whether the frames hold real numbers rather than 16-bit integers.
    pub open spec fn spec_is_float(&self) -> bool {
        spec_is_nonpositive(self.scale)
    }

    /// The number of bytes in one element of a frame.
    pub open spec fn spec_word_size(&self) -> int {
        spec_word_size(self.spec_is_float())
    }

    /// The number of bytes in the point record of a frame.
    pub open spec fn spec_points_size(&self) -> int {
        4 * self.point_counts * self.spec_word_size()
    }

    /// The number of bytes in the analog record of a frame.
    pub open spec fn spec_analog_size(&self) -> int {
        self.analog_counts * self.spec_word_size()
    }

    /// The number of bytes in one frame.
    pub open spec fn spec_frame_size(&self) -> int {
        self.spec_points_size() + self.spec_analog_size()
    }

    /// The number of frames that the header announces.
    pub open spec fn spec_frame_count(&self) -> int {
        if self.frame_first <= self.frame_last {
            self.frame_last - self.frame_first + 1
        } else {
            0
        }
    }

    /// Reads the header from the start of `bytes`.
    ///
    /// The magic byte is looked at first, so that a source which is not a
    /// C3D file is called that, however short it is.
    pub fn from_bytes(bytes: &[u8]) -> (r: Result<HeaderBlock, ParserError>)
        ensures
            bytes@.len() >= 2 && bytes@[1] != HEADER_MAGIC ==> r == Err::<HeaderBlock, ParserError>(
                ParserError::UnmatchMagic,
            ),
            !(bytes@.len() >= 2 && bytes@[1] != HEADER_MAGIC) && bytes@.len() < BLOCK_SIZE ==> r
                == Err::<HeaderBlock, ParserError>(ParserError::Truncated),
            bytes@.len() >= BLOCK_SIZE && bytes@[1] == HEADER_MAGIC ==> r is Ok && r->Ok_0.holds(
                bytes@,
            ),
    {
        if bytes.len() >= 2 && bytes[1] != HEADER_MAGIC {
            return Err(ParserError::UnmatchMagic);
        }
        if bytes.len() < BLOCK_SIZE {
            return Err(ParserError::Truncated);
        }
        let mut event_times: Vec<u32> = Vec::new();
        let mut i: usize = 0;
        while i < EVENT_SLOTS
            invariant
                i <= EVENT_SLOTS,
                bytes@.len() >= BLOCK_SIZE,
                event_times@.len() == i,
                forall|k: int| 0 <= k < i ==> event_times@[k] == spec_u32_le(bytes@, 304 + 4 * k),
            decreases EVENT_SLOTS - i,
        {
            event_times.push(read_u32_le(bytes, 304 + 4 * i));
            i += 1;
        }
        assert(event_times@ =~= spec_event_times(bytes@));
        Ok(
            HeaderBlock {
                parameter_start: bytes[0],
                magic_word: bytes[1],
                point_counts: read_u16_le(bytes, 2),
                analog_counts: read_u16_le(bytes, 4),
                frame_first: read_u16_le(bytes, 6),
                frame_last: read_u16_le(bytes, 8),
                max_gap: read_u16_le(bytes, 10),
                scale: read_u32_le(bytes, 12),
                data_start: read_u16_le(bytes, 16),
                analog_per_frame: read_u16_le(bytes, 18),
                frame_rate: read_u32_le(bytes, 20),
                reserved: copy_range(bytes, 24, 298),
                event_lables_long: read_u16_le(bytes, 298),
                event_counts: read_u16_le(bytes, 300),
                reserved_two: read_u16_le(bytes, 302),
                event_times,
                event_display_flags: copy_range(bytes, 376, 394),
                reserved_three: read_u16_le(bytes, 394),
                event_labels: copy_range(bytes, 396, 468),
                reserved_four: copy_range(bytes, 468, 512),
            },
        )
    }

    /// Whether the frames hold real numbers rather than 16-bit integers.
    pub fn is_float(&self) -> (r: bool)
        ensures
            r == self.spec_is_float(),
    {
        is_nonpositive(self.scale)
    }

    /// The number of bytes in one element of a frame.
    pub fn word_size(&self) -> (n: usize)
        ensures
            n == self.spec_word_size(),
    {
        if self.is_float() {
            4
        } else {
            2
        }
    }

    /// The number of bytes in the point record of a frame.
    pub fn points_size(&self) -> (n: usize)
        ensures
            n == self.spec_points_size(),
    {
        4 * (self.point_counts as usize) * self.word_size()
    }

    /// The number of bytes in the analog record of a frame.
    pub fn analog_size(&self) -> (n: usize)
        ensures
            n == self.spec_analog_size(),
    {
        (self.analog_counts as usize) * self.word_size()
    }

    /// The number of frames that the header announces.
    pub fn frame_count(&self) -> (n: u32)
        ensures
            n == self.spec_frame_count(),
    {
        if self.frame_first <= self.frame_last {
            (self.frame_last - self.frame_first) as u32 + 1
        } else {
            0
        }
    }
}

} // verus!
