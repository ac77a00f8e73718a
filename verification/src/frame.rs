//! One frame of the data section: a record of 3-D points and, where the
//! file has analog channels, a record of analog samples.
//!
//! A point is four elements `x, y, z, w`. The fourth element tells whether
//! the point was seen at all; where it was, its low byte is the residual
//! of the measurement and its high byte a mask of the cameras that saw the
//! point. An element is two bytes wide in a file of integers and four bytes
//! wide in a file of real numbers.
//!
//! Nothing here multiplies or subtracts real numbers. A frame is handed
//! out as [`Quantity`] values, which say how each number is to be computed
//! from what the file holds.

use vstd::prelude::*;
use crate::header::HeaderBlock;
use crate::ieee::{
    is_below_threshold, lemma_sign_decides, spec_is_below_threshold, spec_is_nan, spec_magnitude,
    spec_sign, spec_to_i16, to_i16,
};
use crate::wire::{
    read_i16_le, read_u16_le, read_u32_le, spec_i16_le, spec_u16_le, spec_u32_le,
};

verus! {

/// A real number of a frame, as the file gives it.
#[derive(Clone, Copy, Debug, PartialEq, Eq, Structural)]
pub enum Quantity {
    /// The number with this IEEE 754 single-precision bit pattern.
    Real(u32),
    /// This whole number times the magnitude of the header's scale factor.
    Scaled(i16),
    /// This whole number.
    Whole(i32),
    /// The marker of a point that was not seen: `-0.01`.
    Occluded,
}

/// The point record of a frame: for each point `x, y, z`, the residual and
/// the camera mask.
#[derive(Clone, Debug)]
pub struct PointData {
    pub values: Vec<[Quantity; 5]>,
}

/// One analog sample and what is to be done to it, in this order: take
/// `offset` away, multiply by `scale`, multiply by `gen_scale`. A step
/// whose value is missing is left out.
#[derive(Clone, Copy, Debug, PartialEq, Eq, Structural)]
pub struct AnalogSample {
    /// The sample as it stands in the file.
    pub raw: Quantity,
    /// The offset of the sample's channel.
    pub offset: Option<i16>,
    /// The bit pattern of the scale of the sample's channel.
    pub scale: Option<u32>,
    /// The bit pattern of the scale of all channels.
    pub gen_scale: Option<u32>,
}

/// The analog record of a frame.
#[derive(Clone, Debug)]
pub struct AnalogData {
    pub values: Vec<AnalogSample>,
}

/// What the dictionary says about how analog samples are stored and scaled.
#[derive(Clone, Debug)]
pub struct Calibration {
    /// Whether integer samples are unsigned.
    pub unsigned: bool,
    /// One offset for each channel.
    pub offset: Option<Vec<i16>>,
    /// The bit pattern of one scale for each channel.
    pub scale: Option<Vec<u32>>,
    /// The bit pattern of the scale of all channels.
    pub gen_scale: Option<u32>,
}

/// What a [`Calibration`] holds.
pub struct CalibrationView {
    pub unsigned: bool,
    pub offset: Option<Seq<i16>>,
    pub scale: Option<Seq<u32>>,
    pub gen_scale: Option<u32>,
}

impl View for Calibration {
    type V = CalibrationView;

    open spec fn view(&self) -> CalibrationView {
        CalibrationView {
            unsigned: self.unsigned,
            offset: match self.offset {
                Some(v) => Some(v@),
                None => None,
            },
            scale: match self.scale {
                Some(v) => Some(v@),
                None => None,
            },
            gen_scale: self.gen_scale,
        }
    }
}

impl View for PointData {
    type V = Seq<Seq<Quantity>>;

    open spec fn view(&self) -> Seq<Seq<Quantity>> {
        self.values@.map_values(|point: [Quantity; 5]| point@)
    }
}

impl View for AnalogData {
    type V = Seq<AnalogSample>;

    open spec fn view(&self) -> Seq<AnalogSample> {
        self.values@
    }
}

/// The number of bytes in one element of a frame.
pub open spec fn spec_word_size(is_float: bool) -> int {
    if is_float {
        4
    } else {
        2
    }
}

/// The coordinate whose first byte is at `at`: a real number as it stands,
/// an integer as a count of scale units.
pub open spec fn spec_coordinate(is_float: bool, bytes: Seq<u8>, at: int) -> Quantity {
    if is_float {
        Quantity::Real(spec_u32_le(bytes, at) as u32)
    } else {
        Quantity::Scaled(spec_i16_le(bytes, at) as i16)
    }
}

/// The fourth element of a point as a 16-bit word, where the point was
/// seen.
///
/// A point was not seen where the element is at most `-0.01`; for an
/// integer that is to say, where it is negative. A real number is cut to a
/// whole number.
pub open spec fn spec_fourth(is_float: bool, bytes: Seq<u8>, at: int) -> Option<int> {
    if is_float {
        let bits = spec_u32_le(bytes, at) as u32;
        if spec_is_below_threshold(bits) {
            None
        } else {
            Some(spec_to_i16(bits))
        }
    } else {
        if spec_i16_le(bytes, at) < 0 {
            None
        } else {
            Some(spec_i16_le(bytes, at))
        }
    }
}

/// The residual that the word carries, in scale units: its low byte.
pub open spec fn spec_residual(word: int) -> int {
    word % 256
}

/// The camera mask that the word carries: the word without its low byte,
/// which is the sum of the weights of the bits that are set from bit 8 up.
pub open spec fn spec_cameras(word: int) -> int {
    word - word % 256
}

/// The point whose first byte is at `at`.
pub open spec fn spec_point(is_float: bool, bytes: Seq<u8>, at: int) -> Seq<Quantity> {
    let size = spec_word_size(is_float);
    let x = spec_coordinate(is_float, bytes, at);
    let y = spec_coordinate(is_float, bytes, at + size);
    let z = spec_coordinate(is_float, bytes, at + 2 * size);
    match spec_fourth(is_float, bytes, at + 3 * size) {
        None => seq![x, y, z, Quantity::Occluded, Quantity::Occluded],
        Some(word) => seq![
            x,
            y,
            z,
            Quantity::Scaled(spec_residual(word) as i16),
            Quantity::Whole(spec_cameras(word) as i32),
        ],
    }
}

/// The `count` points that lie one after another from `at`.
pub open spec fn spec_points(is_float: bool, bytes: Seq<u8>, at: int, count: int) -> Seq<
    Seq<Quantity>,
> {
    Seq::new(count as nat, |i: int| spec_point(is_float, bytes, at + i * 4 * spec_word_size(is_float)))
}

/// The term of channel `channel` in a list of one term for each channel;
/// nothing where there is no list or the list is too short.
pub open spec fn spec_term<T>(terms: Option<Seq<T>>, channel: int) -> Option<T> {
    match terms {
        Some(list) => if 0 <= channel < list.len() {
            Some(list[channel])
        } else {
            None
        },
        None => None,
    }
}

/// The sample of channel `channel`, whose first byte is at `at`.
///
/// A real number stands as it is. An integer is signed unless the
/// dictionary says otherwise.
pub open spec fn spec_sample(
    is_float: bool,
    calibration: CalibrationView,
    bytes: Seq<u8>,
    at: int,
    channel: int,
) -> AnalogSample {
    AnalogSample {
        raw: if is_float {
            Quantity::Real(spec_u32_le(bytes, at) as u32)
        } else if calibration.unsigned {
            Quantity::Whole(spec_u16_le(bytes, at) as i32)
        } else {
            Quantity::Whole(spec_i16_le(bytes, at) as i32)
        },
        offset: spec_term(calibration.offset, channel),
        scale: spec_term(calibration.scale, channel),
        gen_scale: calibration.gen_scale,
    }
}

/// The samples of `count` channels that lie one after another from `at`.
pub open spec fn spec_samples(
    is_float: bool,
    calibration: CalibrationView,
    bytes: Seq<u8>,
    at: int,
    count: int,
) -> Seq<AnalogSample> {
    Seq::new(
        count as nat,
        |i: int| spec_sample(is_float, calibration, bytes, at + i * spec_word_size(is_float), i),
    )
}

/// A real number that is above `-0.01` is cut to a whole number that is
/// not negative.
pub proof fn lemma_seen_word_is_natural(bits: u32)
    requires
        !spec_is_below_threshold(bits),
    ensures
        0 <= spec_to_i16(bits) <= 32767,
{
    let m = bits as int % 0x8000_0000;
    let exponent = m / 0x80_0000;
    let fraction = (m % 0x80_0000) as u32;
    if !spec_is_nan(bits) && 127 <= exponent < 142 {
        let full: u32 = (0x80_0000 + fraction) as u32;
        let shift: u32 = (150 - exponent) as u32;
        assert(0 <= full >> shift <= 32767) by (bit_vector)
            requires
                full < 0x100_0000u32,
                9 <= shift <= 23,
        ;
    }
}

/// The camera mask is the sum of what the word has in common with each of
/// the bits 8 to 15.
pub proof fn lemma_cameras_sum_of_bits(word: u16)
    ensures
        spec_cameras(word as int) == (word & 0x0100) + (word & 0x0200) + (word & 0x0400) + (word
            & 0x0800) + (word & 0x1000) + (word & 0x2000) + (word & 0x4000) + (word & 0x8000),
        spec_residual(word as int) == word & 0x00FF,
{
    assert(word - word % 256 == (word & 0x0100) + (word & 0x0200) + (word & 0x0400) + (word
        & 0x0800) + (word & 0x1000) + (word & 0x2000) + (word & 0x4000) + (word & 0x8000))
        by (bit_vector);
    assert(word % 256 == word & 0x00FF) by (bit_vector);
}

/// Changing the sign of a scale factor that is a number and not zero
/// changes the kind of file: of the two files one holds elements of four
/// bytes and coordinates that stand as they are, the other elements of two
/// bytes and coordinates that count scale units.
pub proof fn lemma_scale_sign_dispatch(a: HeaderBlock, b: HeaderBlock)
    requires
        !spec_is_nan(a.scale),
        spec_magnitude(a.scale) != 0,
        spec_magnitude(b.scale) == spec_magnitude(a.scale),
        spec_sign(b.scale) != spec_sign(a.scale),
    ensures
        a.spec_is_float() != b.spec_is_float(),
        a.spec_word_size() == 4 <==> b.spec_word_size() == 2,
        a.spec_word_size() == 2 <==> b.spec_word_size() == 4,
        forall|bytes: Seq<u8>, at: int|
            #[trigger] spec_coordinate(a.spec_is_float(), bytes, at) is Real
                <==> spec_coordinate(b.spec_is_float(), bytes, at) is Scaled,
        forall|bytes: Seq<u8>, at: int|
            #[trigger] spec_coordinate(a.spec_is_float(), bytes, at) is Scaled
                <==> spec_coordinate(b.spec_is_float(), bytes, at) is Real,
{
    lemma_sign_decides(a.scale, b.scale);
}

/// Reads the coordinate whose first byte is at `at`.
pub fn read_coordinate(is_float: bool, bytes: &[u8], at: usize) -> (q: Quantity)
    requires
        at + spec_word_size(is_float) <= bytes@.len(),
    ensures
        q == spec_coordinate(is_float, bytes@, at as int),
{
    if is_float {
        Quantity::Real(read_u32_le(bytes, at))
    } else {
        Quantity::Scaled(read_i16_le(bytes, at))
    }
}

/// Reads the fourth element of a point as a 16-bit word, where the point
/// was seen.
pub fn read_fourth(is_float: bool, bytes: &[u8], at: usize) -> (word: Option<u16>)
    requires
        at + spec_word_size(is_float) <= bytes@.len(),
    ensures
        match word {
            Some(w) => spec_fourth(is_float, bytes@, at as int) == Some(w as int) && w <= 32767,
            None => spec_fourth(is_float, bytes@, at as int) is None,
        },
{
    if is_float {
        let bits: u32 = read_u32_le(bytes, at);
        if is_below_threshold(bits) {
            None
        } else {
            proof {
                lemma_seen_word_is_natural(bits);
            }
            Some(to_i16(bits) as u16)
        }
    } else {
        let w: i16 = read_i16_le(bytes, at);
        if w < 0 {
            None
        } else {
            Some(w as u16)
        }
    }
}

/// Reads the point whose first byte is at `at`.
pub fn read_point(is_float: bool, bytes: &[u8], at: usize) -> (point: [Quantity; 5])
    requires
        at + 4 * spec_word_size(is_float) <= bytes@.len(),
    ensures
        point@ == spec_point(is_float, bytes@, at as int),
{
    let size: usize = if is_float { 4 } else { 2 };
    let limit: usize = bytes.len();
    let x: Quantity = read_coordinate(is_float, bytes, at);
    let y: Quantity = read_coordinate(is_float, bytes, at + size);
    let z: Quantity = read_coordinate(is_float, bytes, at + 2 * size);
    let point: [Quantity; 5] = match read_fourth(is_float, bytes, at + 3 * size) {
        None => [x, y, z, Quantity::Occluded, Quantity::Occluded],
        Some(word) => {
            let low: u16 = word % 256;
            [x, y, z, Quantity::Scaled(low as i16), Quantity::Whole((word - low) as i32)]
        },
    };
    assert(point@ =~= spec_point(is_float, bytes@, at as int));
    point
}

/// Reads `count` points that lie one after another from `at`.
pub fn read_points(is_float: bool, bytes: &[u8], at: usize, count: usize) -> (points: PointData)
    requires
        at + count * 4 * spec_word_size(is_float) <= bytes@.len(),
    ensures
        points@ == spec_points(is_float, bytes@, at as int, count as int),
{
    let step: usize = if is_float { 16 } else { 8 };
    let limit: usize = bytes.len();
    let mut values: Vec<[Quantity; 5]> = Vec::new();
    let mut i: usize = 0;
    let mut pos: usize = at;
    while i < count
        invariant
            limit == bytes@.len(),
            step == 4 * spec_word_size(is_float),
            at + count * step <= limit,
            i <= count,
            pos == at + i * step,
            values@.len() == i,
            forall|k: int|
                0 <= k < i ==> (#[trigger] values@[k])@ == spec_point(
                    is_float,
                    bytes@,
                    at + k * 4 * spec_word_size(is_float),
                ),
        decreases count - i,
    {
        assert(at + (i + 1) * step <= at + count * step) by (nonlinear_arith)
            requires
                i < count,
                step >= 0,
        ;
        assert((i + 1) * step == i * step + step) by (nonlinear_arith);
        assert(i * 4 * spec_word_size(is_float) == i * step) by (nonlinear_arith)
            requires
                step == 4 * spec_word_size(is_float),
        ;
        values.push(read_point(is_float, bytes, pos));
        i += 1;
        pos += step;
    }
    let points = PointData { values };
    assert(points@ =~= spec_points(is_float, bytes@, at as int, count as int));
    points
}

/// The term of channel `channel`, where the list has one.
pub fn term_of<T: Copy>(terms: &Option<Vec<T>>, channel: usize) -> (term: Option<T>)
    ensures
        term == spec_term(
            match terms {
                Some(v) => Some(v@),
                None => None,
            },
            channel as int,
        ),
{
    match terms {
        Some(list) => if channel < list.len() {
            Some(list[channel])
        } else {
            None
        },
        None => None,
    }
}

/// Reads the sample of channel `channel`, whose first byte is at `at`.
pub fn read_sample(
    is_float: bool,
    calibration: &Calibration,
    bytes: &[u8],
    at: usize,
    channel: usize,
) -> (sample: AnalogSample)
    requires
        at + spec_word_size(is_float) <= bytes@.len(),
    ensures
        sample == spec_sample(is_float, calibration@, bytes@, at as int, channel as int),
{
    let raw: Quantity = if is_float {
        Quantity::Real(read_u32_le(bytes, at))
    } else if calibration.unsigned {
        Quantity::Whole(read_u16_le(bytes, at) as i32)
    } else {
        Quantity::Whole(read_i16_le(bytes, at) as i32)
    };
    AnalogSample {
        raw,
        offset: term_of(&calibration.offset, channel),
        scale: term_of(&calibration.scale, channel),
        gen_scale: calibration.gen_scale,
    }
}

/// Reads the samples of `count` channels that lie one after another from
/// `at`.
pub fn read_samples(
    is_float: bool,
    calibration: &Calibration,
    bytes: &[u8],
    at: usize,
    count: usize,
) -> (samples: AnalogData)
    requires
        at + count * spec_word_size(is_float) <= bytes@.len(),
    ensures
        samples@ == spec_samples(is_float, calibration@, bytes@, at as int, count as int),
{
    let step: usize = if is_float { 4 } else { 2 };
    let limit: usize = bytes.len();
    let mut values: Vec<AnalogSample> = Vec::new();
    let mut i: usize = 0;
    let mut pos: usize = at;
    while i < count
        invariant
            limit == bytes@.len(),
            step == spec_word_size(is_float),
            at + count * step <= limit,
            i <= count,
            pos == at + i * step,
            values@ == spec_samples(is_float, calibration@, bytes@, at as int, i as int),
        decreases count - i,
    {
        assert(at + (i + 1) * step <= at + count * step) by (nonlinear_arith)
            requires
                i < count,
                step >= 0,
        ;
        assert((i + 1) * step == i * step + step) by (nonlinear_arith);
        values.push(read_sample(is_float, calibration, bytes, pos, i));
        i += 1;
        pos += step;
    }
    AnalogData { values }
}

} // verus!
