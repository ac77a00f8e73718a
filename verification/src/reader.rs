//! The frames of a file, one after another.

use vstd::prelude::*;
use crate::error::ParserError;
use crate::frame::{
    read_points, read_samples, spec_points, spec_samples, AnalogData, AnalogSample, Calibration,
    CalibrationView, PointData, Quantity,
};
use crate::header::{HeaderBlock, BLOCK_SIZE};
use crate::parameter::{ParameterBlock, ParameterBlockView};
use crate::text::{spec_trim, trim_bounds};
use crate::value::{char_bytes, integers, reals, spec_char_bytes, spec_integers, spec_reals};

verus! {

/// The bytes of the word `UNSIGNED`.
pub open spec fn spec_unsigned_word() -> Seq<u8> {
    seq![0x55u8, 0x4E, 0x53, 0x49, 0x47, 0x4E, 0x45, 0x44]
}

/// What `dictionary` says about the analog samples.
///
/// `ANALOG:FORMAT` holds characters; integer samples are unsigned where
/// these, without the white space around them, spell `UNSIGNED`.
/// `ANALOG:OFFSET` holds one integer for each channel, `ANALOG:SCALE` one
/// real number for each channel, and `ANALOG:GEN_SCALE` one real number, of
/// which the first counts. Each of the four may be missing.
pub open spec fn spec_calibration(dictionary: ParameterBlockView) -> CalibrationView {
    CalibrationView {
        unsigned: match dictionary.spec_get("ANALOG:FORMAT"@) {
            Some(p) => spec_trim(spec_char_bytes(p.values)) == spec_unsigned_word(),
            None => false,
        },
        offset: match dictionary.spec_get("ANALOG:OFFSET"@) {
            Some(p) => Some(spec_integers(p.values)),
            None => None,
        },
        scale: match dictionary.spec_get("ANALOG:SCALE"@) {
            Some(p) => Some(spec_reals(p.values)),
            None => None,
        },
        gen_scale: match dictionary.spec_get("ANALOG:GEN_SCALE"@) {
            Some(p) => if spec_reals(p.values).len() > 0 {
                Some(spec_reals(p.values)[0])
            } else {
                None
            },
            None => None,
        },
    }
}

/// Whether `bytes[from..to]` spells `UNSIGNED`.
pub fn is_unsigned_word(bytes: &Vec<u8>, from: usize, to: usize) -> (r: bool)
    requires
        from <= to <= bytes@.len(),
    ensures
        r == (bytes@.subrange(from as int, to as int) == spec_unsigned_word()),
{
    let r: bool = to - from == 8 && bytes[from] == 0x55 && bytes[from + 1] == 0x4E && bytes[from
        + 2] == 0x53 && bytes[from + 3] == 0x49 && bytes[from + 4] == 0x47 && bytes[from + 5]
        == 0x4E && bytes[from + 6] == 0x45 && bytes[from + 7] == 0x44;
    proof {
        let part = bytes@.subrange(from as int, to as int);
        let word = spec_unsigned_word();
        if r {
            assert(part =~= word);
        } else if to - from == 8 {
            assert(part[0] == bytes@[from as int]);
            assert(part[1] == bytes@[from + 1]);
            assert(part[2] == bytes@[from + 2]);
            assert(part[3] == bytes@[from + 3]);
            assert(part[4] == bytes@[from + 4]);
            assert(part[5] == bytes@[from + 5]);
            assert(part[6] == bytes@[from + 6]);
            assert(part[7] == bytes@[from + 7]);
        } else {
            assert(part.len() != word.len());
        }
    }
    r
}

/// Reads from `dictionary` what it says about the analog samples.
pub fn read_calibration(dictionary: &ParameterBlock) -> (calibration: Calibration)
    ensures
        calibration@ == spec_calibration(dictionary@),
{
    let unsigned: bool = match dictionary.get("ANALOG:FORMAT") {
        Some(p) => {
            let bytes: Vec<u8> = char_bytes(
                &p.parameter_data.values,
                0,
                p.parameter_data.values.len(),
            );
            assert(p.parameter_data.values@.subrange(0, p.parameter_data.values@.len() as int)
                =~= p.parameter_data.values@);
            let bounds: (usize, usize) = trim_bounds(&bytes);
            is_unsigned_word(&bytes, bounds.0, bounds.1)
        },
        None => false,
    };
    let offset: Option<Vec<i16>> = match dictionary.get("ANALOG:OFFSET") {
        Some(p) => Some(integers(&p.parameter_data.values)),
        None => None,
    };
    let scale: Option<Vec<u32>> = match dictionary.get("ANALOG:SCALE") {
        Some(p) => Some(reals(&p.parameter_data.values)),
        None => None,
    };
    let gen_scale: Option<u32> = match dictionary.get("ANALOG:GEN_SCALE") {
        Some(p) => {
            let all: Vec<u32> = reals(&p.parameter_data.values);
            if all.len() > 0 {
                Some(all[0])
            } else {
                None
            }
        },
        None => None,
    };
    Calibration { unsigned, offset, scale, gen_scale }
}

/// The frames of a byte source, from the block that the header names.
///
/// A reader keeps its own place in the bytes, so two readers of one source
/// never disturb each other.
pub struct C3dReader<'a> {
    /// The header of the source.
    pub header: &'a HeaderBlock,
    /// The dictionary of the source.
    pub parameter: &'a ParameterBlock,
    /// The bytes of the source.
    pub handle: &'a [u8],
    /// Where the next frame starts.
    pub position: usize,
    /// The number of the next frame.
    pub frame_idx: u32,
    /// What the dictionary says about the analog samples.
    pub calibration: Calibration,
}

/// One frame: its number, its points and, where the file has analog
/// channels, its analog samples.
pub struct FrameView {
    pub index: int,
    pub points: Seq<Seq<Quantity>>,
    pub analog: Option<Seq<AnalogSample>>,
}

/// What a frame holds.
pub open spec fn spec_frame_view(frame: (u16, PointData, Option<AnalogData>)) -> FrameView {
    FrameView {
        index: frame.0 as int,
        points: frame.1@,
        analog: match frame.2 {
            Some(samples) => Some(samples@),
            None => None,
        },
    }
}

/// The smaller of two numbers.
pub open spec fn spec_min(a: int, b: int) -> int {
    if a <= b {
        a
    } else {
        b
    }
}

impl<'a> C3dReader<'a> {
    /// The number of frames that the header still announces.
    pub open spec fn spec_announced(&self) -> int {
        if self.frame_idx <= self.header.frame_last {
            self.header.frame_last - self.frame_idx + 1
        } else {
            0
        }
    }

    /// Whether the bytes hold a whole frame at the reader's place. A frame
    /// of no bytes is always there.
    pub open spec fn spec_fits(&self) -> bool {
        self.header.spec_frame_size() == 0 || self.position + self.header.spec_frame_size()
            <= self.handle@.len()
    }

    /// The number of whole frames that the bytes hold from the reader's
    /// place on, as far as the header announces them.
    pub open spec fn spec_remaining(&self) -> int {
        if self.header.spec_frame_size() == 0 {
            self.spec_announced()
        } else if self.position > self.handle@.len() {
            0
        } else {
            spec_min(
                self.spec_announced(),
                (self.handle@.len() - self.position) / self.header.spec_frame_size(),
            )
        }
    }

    /// The frame that lies `ahead` frames after the reader's place.
    pub open spec fn spec_frame_at(&self, ahead: int) -> FrameView {
        let at = self.position + ahead * self.header.spec_frame_size();
        FrameView {
            index: self.frame_idx + ahead,
            points: spec_points(
                self.header.spec_is_float(),
                self.handle@,
                at,
                self.header.point_counts as int,
            ),
            analog: if self.header.analog_counts > 0 {
                Some(
                    spec_samples(
                        self.header.spec_is_float(),
                        self.calibration@,
                        self.handle@,
                        at + self.header.spec_points_size(),
                        self.header.analog_counts as int,
                    ),
                )
            } else {
                None
            },
        }
    }

    /// The frame at the reader's place.
    pub open spec fn spec_frame(&self) -> FrameView {
        self.spec_frame_at(0)
    }

    /// A reader at the first frame.
    ///
    /// The frames start at block `data_start`, counted from 1; a header
    /// that names block 0 asks for a place before the start of the source.
    pub fn new(header: &'a HeaderBlock, parameter: &'a ParameterBlock, handle: &'a [u8]) -> (r:
        Result<Self, ParserError>)
        ensures
            header.data_start == 0 ==> r is Err && r->Err_0 == ParserError::IoError,
            header.data_start > 0 ==> r is Ok,
            r matches Ok(reader) ==> {
                &&& reader.header == header
                &&& reader.parameter == parameter
                &&& reader.handle == handle
                &&& reader.position == (header.data_start - 1) * BLOCK_SIZE
                &&& reader.frame_idx == header.frame_first
                &&& reader.calibration@ == spec_calibration(parameter@)
            },
    {
        if header.data_start == 0 {
            return Err(ParserError::IoError);
        }
        Ok(
            C3dReader {
                header,
                parameter,
                handle,
                position: (header.data_start as usize - 1) * BLOCK_SIZE,
                frame_idx: header.frame_first as u32,
                calibration: read_calibration(parameter),
            },
        )
    }

    /// The next frame, or nothing where the header announces no further
    /// frame or the bytes do not hold a whole one.
    ///
    /// Once it has returned nothing it does so again: where the bytes end
    /// early, the reader stays where it is.
    pub fn next(&mut self) -> (r: Option<(u16, PointData, Option<AnalogData>)>)
        ensures
            r is Some <==> old(self).spec_announced() > 0 && old(self).spec_fits(),
            r is Some <==> old(self).spec_remaining() > 0,
            r is None ==> *final(self) == *old(self),
            r matches Some(frame) ==> {
                &&& spec_frame_view(frame) == old(self).spec_frame()
                &&& frame.1.values@.len() == old(self).header.point_counts
                &&& frame.2 is Some <==> old(self).header.analog_counts > 0
                &&& frame.2 matches Some(samples) ==> samples.values@.len() == old(
                    self,
                ).header.analog_counts
                &&& final(self).position == old(self).position + old(self).header.spec_frame_size()
                &&& final(self).frame_idx == old(self).frame_idx + 1
                &&& final(self).header == old(self).header
                &&& final(self).parameter == old(self).parameter
                &&& final(self).handle == old(self).handle
                &&& final(self).calibration == old(self).calibration
                &&& final(self).spec_remaining() == old(self).spec_remaining() - 1
            },
    {
        proof {
            lemma_remaining(*self);
        }
        if self.frame_idx > self.header.frame_last as u32 {
            return None;
        }
        let is_float: bool = self.header.is_float();
        let points_size: usize = self.header.points_size();
        let analog_size: usize = self.header.analog_size();
        let frame_size: usize = points_size + analog_size;
        let len: usize = self.handle.len();
        if frame_size > 0 && (self.position > len || len - self.position < frame_size) {
            return None;
        }
        let points: PointData = if self.header.point_counts > 0 {
            read_points(is_float, self.handle, self.position, self.header.point_counts as usize)
        } else {
            let none = PointData { values: Vec::new() };
            assert(none@ =~= spec_points(is_float, self.handle@, self.position as int, 0));
            none
        };
        let analog: Option<AnalogData> = if self.header.analog_counts > 0 {
            Some(
                read_samples(
                    is_float,
                    &self.calibration,
                    self.handle,
                    self.position + points_size,
                    self.header.analog_counts as usize,
                ),
            )
        } else {
            None
        };
        assert(points.values@.len() == points@.len());
        let index: u16 = self.frame_idx as u16;
        self.position = self.position + frame_size;
        self.frame_idx = self.frame_idx + 1;
        proof {
            lemma_remaining(*self);
            if frame_size > 0 {
                let room = len - old(self).position;
                assert((room - frame_size) / (frame_size as int) == room / (frame_size as int) - 1)
                    by (nonlinear_arith)
                    requires
                        frame_size > 0,
                        room >= frame_size,
                ;
            }
        }
        Some((index, points, analog))
    }

    /// All the frames that are left, in their order.
    pub fn frames(&mut self) -> (out: Vec<(u16, PointData, Option<AnalogData>)>)
        ensures
            out@.len() == old(self).spec_remaining(),
            forall|k: int|
                0 <= k < out@.len() ==> spec_frame_view(#[trigger] out@[k]) == old(
                    self,
                ).spec_frame_at(k),
            forall|k: int|
                0 <= k < out@.len() ==> (#[trigger] out@[k]).1.values@.len() == old(
                    self,
                ).header.point_counts,
            forall|k: int|
                0 <= k < out@.len() ==> match (#[trigger] out@[k]).2 {
                    Some(samples) => samples.values@.len() == old(self).header.analog_counts,
                    None => old(self).header.analog_counts == 0,
                },
            final(self).spec_remaining() == 0,
            final(self).position == old(self).position + out@.len() * old(
                self,
            ).header.spec_frame_size(),
            final(self).frame_idx == old(self).frame_idx + out@.len(),
            final(self).header == old(self).header,
            final(self).parameter == old(self).parameter,
            final(self).handle == old(self).handle,
            final(self).calibration == old(self).calibration,
    {
        let mut out: Vec<(u16, PointData, Option<AnalogData>)> = Vec::new();
        let ghost start = *self;
        let ghost size = self.header.spec_frame_size();
        proof {
            lemma_remaining(*self);
        }
        loop
            invariant
                self.header == start.header,
                self.parameter == start.parameter,
                self.handle == start.handle,
                self.calibration == start.calibration,
                size == start.header.spec_frame_size(),
                self.position == start.position + out@.len() * size,
                self.frame_idx == start.frame_idx + out@.len(),
                self.spec_remaining() == start.spec_remaining() - out@.len(),
                self.spec_remaining() >= 0,
                forall|k: int|
                    0 <= k < out@.len() ==> spec_frame_view(#[trigger] out@[k])
                        == start.spec_frame_at(k),
                forall|k: int|
                    0 <= k < out@.len() ==> (#[trigger] out@[k]).1.values@.len()
                        == start.header.point_counts,
                forall|k: int|
                    0 <= k < out@.len() ==> match (#[trigger] out@[k]).2 {
                        Some(samples) => samples.values@.len() == start.header.analog_counts,
                        None => start.header.analog_counts == 0,
                    },
            ensures
                out@.len() == start.spec_remaining(),
                self.spec_remaining() == 0,
                self.header == start.header,
                self.parameter == start.parameter,
                self.handle == start.handle,
                self.calibration == start.calibration,
                self.position == start.position + out@.len() * size,
                self.frame_idx == start.frame_idx + out@.len(),
                forall|k: int|
                    0 <= k < out@.len() ==> spec_frame_view(#[trigger] out@[k])
                        == start.spec_frame_at(k),
                forall|k: int|
                    0 <= k < out@.len() ==> (#[trigger] out@[k]).1.values@.len()
                        == start.header.point_counts,
                forall|k: int|
                    0 <= k < out@.len() ==> match (#[trigger] out@[k]).2 {
                        Some(samples) => samples.values@.len() == start.header.analog_counts,
                        None => start.header.analog_counts == 0,
                    },
            decreases self.spec_remaining(),
        {
            let ghost before = *self;
            let ghost count = out@.len() as int;
            match self.next() {
                None => {
                    break ;
                },
                Some(frame) => {
                    proof {
                        assert(before.spec_frame_at(0) == start.spec_frame_at(count));
                        assert((count + 1) * size == count * size + size) by (nonlinear_arith);
                        lemma_remaining(*self);
                    }
                    out.push(frame);
                },
            }
        }
        out
    }
}

/// The reader has frames left exactly where the header announces one and
/// the bytes hold it; and reading one frame leaves one fewer.
pub proof fn lemma_remaining(reader: C3dReader)
    ensures
        reader.spec_remaining() >= 0,
        reader.spec_remaining() > 0 <==> reader.spec_announced() > 0 && reader.spec_fits(),
        reader.spec_remaining() <= reader.spec_announced(),
{
    let size = reader.header.spec_frame_size();
    assert(size >= 0) by (nonlinear_arith)
        requires
            size == 4 * reader.header.point_counts * reader.header.spec_word_size()
                + reader.header.analog_counts * reader.header.spec_word_size(),
            reader.header.spec_word_size() > 0,
    ;
    if size > 0 && reader.position <= reader.handle@.len() {
        let room = reader.handle@.len() - reader.position;
        assert(room / size >= 0 && (room / size > 0 <==> room >= size)) by (nonlinear_arith)
            requires
                size > 0,
                room >= 0,
        ;
    }
}

/// Whether the bytes end before the last frame that the header announces:
/// the announced frames take bytes, and more than are there.
pub open spec fn spec_truncated(reader: C3dReader) -> bool {
    reader.spec_announced() > 0 && reader.header.spec_frame_size() > 0 && reader.position
        + reader.spec_announced() * reader.header.spec_frame_size() > reader.handle@.len()
}

/// As many frames are left as the header announces where the bytes hold
/// them all, and fewer where the bytes end early.
pub proof fn lemma_frames_left(reader: C3dReader)
    ensures
        !spec_truncated(reader) ==> reader.spec_remaining() == reader.spec_announced(),
        spec_truncated(reader) ==> 0 <= reader.spec_remaining() < reader.spec_announced(),
{
    lemma_remaining(reader);
    let size = reader.header.spec_frame_size();
    let announced = reader.spec_announced();
    if size > 0 && reader.position <= reader.handle@.len() {
        let room = reader.handle@.len() - reader.position;
        assert(announced * size <= room ==> room / size >= announced) by (nonlinear_arith)
            requires
                size > 0,
                room >= 0,
                announced >= 0,
        ;
        assert(announced * size > room ==> room / size < announced) by (nonlinear_arith)
            requires
                size > 0,
                room >= 0,
                announced >= 0,
        ;
    } else if size > 0 {
        assert(announced * size >= 0) by (nonlinear_arith)
            requires
                size > 0,
                announced >= 0,
        ;
    } else {
        assert(announced * size == 0) by (nonlinear_arith)
            requires
                size == 0,
        ;
    }
}

} // verus!
