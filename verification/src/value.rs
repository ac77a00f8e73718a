//! The scalar kinds that a parameter's payload can hold.

use vstd::prelude::*;
use crate::wire::{spec_i16_le, spec_u32_le, read_i16_le, read_u32_le};

verus! {

/// One element of a parameter's payload.
///
/// All elements of one parameter are of one kind, which the parameter's
/// element width names: `-1` a character, `1` a byte, `2` a signed 16-bit
/// integer, `4` a real number.
#[derive(Clone, Copy, Debug, PartialEq, Eq, Structural)]
pub enum ParamValue {
    /// A character, one byte wide.
    Char(u8),
    /// An unsigned byte.
    Byte(u8),
    /// A signed 16-bit integer.
    I16(i16),
    /// A real number, as its IEEE 754 single-precision bit pattern.
    F32(u32),
}

impl ParamValue {
    /// The character, if this is one. A byte stands for the code point of
    /// the same number.
    pub open spec fn spec_as_char(&self) -> Option<char> {
        match self {
            ParamValue::Char(b) => Some(*b as char),
            _ => None,
        }
    }

    /// The byte, if this is one.
    pub open spec fn spec_as_u8(&self) -> Option<u8> {
        match self {
            ParamValue::Byte(b) => Some(*b),
            _ => None,
        }
    }

    /// The integer, if this is one.
    pub open spec fn spec_as_i16(&self) -> Option<i16> {
        match self {
            ParamValue::I16(v) => Some(*v),
            _ => None,
        }
    }

    /// The bit pattern of the real number, if this is one.
    pub open spec fn spec_as_f32(&self) -> Option<u32> {
        match self {
            ParamValue::F32(bits) => Some(*bits),
            _ => None,
        }
    }

    /// The character, if this is one.
    pub fn as_char(&self) -> (r: Option<char>)
        ensures
            r == self.spec_as_char(),
    {
        match self {
            ParamValue::Char(b) => Some(*b as char),
            _ => None,
        }
    }

    /// The byte, if this is one.
    pub fn as_u8(&self) -> (r: Option<u8>)
        ensures
            r == self.spec_as_u8(),
    {
        match self {
            ParamValue::Byte(b) => Some(*b),
            _ => None,
        }
    }

    /// The integer, if this is one.
    pub fn as_i16(&self) -> (r: Option<i16>)
        ensures
            r == self.spec_as_i16(),
    {
        match self {
            ParamValue::I16(v) => Some(*v),
            _ => None,
        }
    }

    /// The bit pattern of the real number, if this is one.
    pub fn as_f32(&self) -> (r: Option<u32>)
        ensures
            r == self.spec_as_f32(),
    {
        match self {
            ParamValue::F32(bits) => Some(*bits),
            _ => None,
        }
    }
}

/// A value that can be copied into a box of its own.
pub trait ParamClone {
    /// A copy of the value, in a box.
    fn clone_box(&self) -> (copy: Box<ParamValue>)
        ensures
            *copy == self.spec_value(),
    ;

    /// The value as an element.
    spec fn spec_value(&self) -> ParamValue;
}

impl ParamClone for ParamValue {
    fn clone_box(&self) -> (copy: Box<ParamValue>) {
        Box::new(*self)
    }

    open spec fn spec_value(&self) -> ParamValue {
        *self
    }
}

/// Whether `width` names one of the four element kinds.
pub open spec fn spec_is_element_width(width: int) -> bool {
    width == -1 || width == 1 || width == 2 || width == 4
}

/// The number of bytes that one element of width `width` takes.
pub open spec fn spec_element_size(width: int) -> int {
    if width < 0 {
        -width
    } else {
        width
    }
}

/// The element of kind `width` whose first byte is at `at`.
pub open spec fn spec_element_at(width: int, bytes: Seq<u8>, at: int) -> ParamValue {
    if width == 4 {
        ParamValue::F32(spec_u32_le(bytes, at) as u32)
    } else if width == 2 {
        ParamValue::I16(spec_i16_le(bytes, at) as i16)
    } else if width == 1 {
        ParamValue::Byte(bytes[at])
    } else {
        ParamValue::Char(bytes[at])
    }
}

/// The `count` elements of kind `width` that lie one after another from `at`.
pub open spec fn spec_elements(width: int, bytes: Seq<u8>, at: int, count: int) -> Seq<ParamValue> {
    Seq::new(
        count as nat,
        |i: int| spec_element_at(width, bytes, at + i * spec_element_size(width)),
    )
}

/// Reads the element of kind `width` whose first byte is at `at`.
pub fn read_element(width: i8, bytes: &[u8], at: usize) -> (value: ParamValue)
    requires
        spec_is_element_width(width as int),
        at + spec_element_size(width as int) <= bytes@.len(),
    ensures
        value == spec_element_at(width as int, bytes@, at as int),
{
    if width == 4 {
        ParamValue::F32(read_u32_le(bytes, at))
    } else if width == 2 {
        ParamValue::I16(read_i16_le(bytes, at))
    } else if width == 1 {
        ParamValue::Byte(bytes[at])
    } else {
        ParamValue::Char(bytes[at])
    }
}

/// Reads `count` elements of kind `width` that lie one after another from `at`.
pub fn read_elements(width: i8, bytes: &[u8], at: usize, count: usize) -> (values: Vec<ParamValue>)
    requires
        spec_is_element_width(width as int),
        at + count * spec_element_size(width as int) <= bytes@.len(),
    ensures
        values@ == spec_elements(width as int, bytes@, at as int, count as int),
{
    let size: usize = if width < 0 { 1 } else { width as usize };
    let mut values: Vec<ParamValue> = Vec::new();
    let mut i: usize = 0;
    let mut pos: usize = at;
    let limit: usize = bytes.len();
    while i < count
        invariant
            limit == bytes@.len(),
            spec_is_element_width(width as int),
            size == spec_element_size(width as int),
            at + count * size <= bytes@.len(),
            i <= count,
            pos == at + i * size,
            values@ == spec_elements(width as int, bytes@, at as int, i as int),
        decreases count - i,
    {
        assert(at + (i + 1) * size <= at + count * size) by (nonlinear_arith)
            requires
                i < count,
                size >= 0,
        ;
        assert((i + 1) * size == i * size + size) by (nonlinear_arith);
        values.push(read_element(width, bytes, pos));
        i += 1;
        pos += size;
    }
    values
}

/// The bytes of the characters among `values`, in their order; values of
/// another kind are passed over.
pub open spec fn spec_char_bytes(values: Seq<ParamValue>) -> Seq<u8>
    decreases values.len(),
{
    if values.len() == 0 {
        Seq::empty()
    } else {
        match values.last() {
            ParamValue::Char(b) => spec_char_bytes(values.drop_last()).push(b),
            _ => spec_char_bytes(values.drop_last()),
        }
    }
}

/// The integers among `values`, in their order; values of another kind are
/// passed over.
pub open spec fn spec_integers(values: Seq<ParamValue>) -> Seq<i16>
    decreases values.len(),
{
    if values.len() == 0 {
        Seq::empty()
    } else {
        match values.last() {
            ParamValue::I16(v) => spec_integers(values.drop_last()).push(v),
            _ => spec_integers(values.drop_last()),
        }
    }
}

/// The bit patterns of the real numbers among `values`, in their order;
/// values of another kind are passed over.
pub open spec fn spec_reals(values: Seq<ParamValue>) -> Seq<u32>
    decreases values.len(),
{
    if values.len() == 0 {
        Seq::empty()
    } else {
        match values.last() {
            ParamValue::F32(bits) => spec_reals(values.drop_last()).push(bits),
            _ => spec_reals(values.drop_last()),
        }
    }
}

/// The bytes of the characters among `values[from..to]`.
pub fn char_bytes(values: &Vec<ParamValue>, from: usize, to: usize) -> (out: Vec<u8>)
    requires
        from <= to <= values@.len(),
    ensures
        out@ == spec_char_bytes(values@.subrange(from as int, to as int)),
{
    let mut out: Vec<u8> = Vec::new();
    let mut i: usize = from;
    assert(values@.subrange(from as int, from as int) =~= Seq::<ParamValue>::empty());
    while i < to
        invariant
            from <= i <= to <= values@.len(),
            out@ == spec_char_bytes(values@.subrange(from as int, i as int)),
        decreases to - i,
    {
        assert(values@.subrange(from as int, i + 1).drop_last() =~= values@.subrange(
            from as int,
            i as int,
        ));
        if let ParamValue::Char(b) = values[i] {
            out.push(b);
        }
        i += 1;
    }
    out
}

/// The integers among `values`.
pub fn integers(values: &Vec<ParamValue>) -> (out: Vec<i16>)
    ensures
        out@ == spec_integers(values@),
{
    let mut out: Vec<i16> = Vec::new();
    let mut i: usize = 0;
    assert(values@.take(0) =~= Seq::<ParamValue>::empty());
    while i < values.len()
        invariant
            i <= values@.len(),
            out@ == spec_integers(values@.take(i as int)),
        decreases values@.len() - i,
    {
        assert(values@.take(i + 1).drop_last() =~= values@.take(i as int));
        match values[i].as_i16() {
            Some(v) => {
                out.push(v);
            },
            None => {},
        }
        i += 1;
    }
    assert(values@.take(values@.len() as int) =~= values@);
    out
}

/// The bit patterns of the real numbers among `values`.
pub fn reals(values: &Vec<ParamValue>) -> (out: Vec<u32>)
    ensures
        out@ == spec_reals(values@),
{
    let mut out: Vec<u32> = Vec::new();
    let mut i: usize = 0;
    assert(values@.take(0) =~= Seq::<ParamValue>::empty());
    while i < values.len()
        invariant
            i <= values@.len(),
            out@ == spec_reals(values@.take(i as int)),
        decreases values@.len() - i,
    {
        assert(values@.take(i + 1).drop_last() =~= values@.take(i as int));
        match values[i].as_f32() {
            Some(bits) => {
                out.push(bits);
            },
            None => {},
        }
        i += 1;
    }
    assert(values@.take(values@.len() as int) =~= values@);
    out
}

} // verus!
