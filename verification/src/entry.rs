//! One entry of the parameter section: a group or a parameter.
//!
//! An entry begins with a signed name length, whose sign is the locked
//! flag, and a signed number: positive for a parameter of the group of that
//! number, negative for the group itself. The name follows, then a 16-bit
//! offset that leads to the next entry, then what is particular to the kind
//! of entry.

use vstd::prelude::*;
use vstd::utf8::{decode_utf8, decode_utf8_encode_utf8, encode_utf8, valid_utf8};
use crate::error::ParserError;
use crate::parameter::{
    spec_product, GroupFormat, GroupView, ParamData, ParameterFormat, ParameterView,
};
use crate::text::{lemma_ascii_decodes, spec_is_ascii, spec_text, string_from_utf8};
use crate::value::{
    read_elements, spec_element_size, spec_elements, spec_is_element_width, ParamValue,
};
use crate::wire::{copy_range, read_i16_le, read_i8, spec_i16_le, spec_i8};

verus! {

/// What an [`Entry`] holds.
pub enum EntryView {
    Group(GroupView),
    Param(ParameterView),
}

/// An entry as it was read, before it is filed under its group.
pub enum Entry {
    /// A group, still without parameters.
    Group(GroupFormat),
    /// A parameter.
    Param(ParameterFormat),
}

impl View for Entry {
    type V = EntryView;

    open spec fn view(&self) -> EntryView {
        match self {
            Entry::Group(g) => EntryView::Group(g@),
            Entry::Param(p) => EntryView::Param(p@),
        }
    }
}

/// The length of the name that the length byte `b` announces.
pub open spec fn spec_name_size(b: u8) -> int {
    if spec_i8(b) < 0 {
        -spec_i8(b)
    } else {
        spec_i8(b)
    }
}

/// Whether no entry starts at `c`: fewer than two bytes are left, or the
/// length byte or the number is zero.
pub open spec fn spec_at_end(buf: Seq<u8>, c: int) -> bool {
    c + 2 > buf.len() || buf[c] == 0 || buf[c + 1] == 0
}

/// Where the offset field of the entry at `c` stands.
pub open spec fn spec_anchor(buf: Seq<u8>, c: int) -> int {
    c + 2 + spec_name_size(buf[c])
}

/// The offset of the entry at `c`.
pub open spec fn spec_offset_at(buf: Seq<u8>, c: int) -> int {
    spec_i16_le(buf, spec_anchor(buf, c))
}

/// Where the payload of the parameter entry at `c` starts: after the
/// offset, the element width, the number of dimensions and the extents.
pub open spec fn spec_payload_start(buf: Seq<u8>, c: int) -> int {
    spec_anchor(buf, c) + 4 + buf[spec_anchor(buf, c) + 3]
}

/// The text that `buf[from..to]` encodes in UTF-8.
pub open spec fn spec_text_at(buf: Seq<u8>, from: int, to: int) -> Result<Seq<char>, ParserError> {
    if valid_utf8(buf.subrange(from, to)) {
        Ok(decode_utf8(buf.subrange(from, to)))
    } else {
        Err(ParserError::ParseParameterError)
    }
}

/// The description whose length byte stands at `at`.
pub open spec fn spec_description_at(buf: Seq<u8>, at: int) -> Result<Seq<char>, ParserError> {
    if at + 1 > buf.len() || at + 1 + buf[at] > buf.len() {
        Err(ParserError::Truncated)
    } else {
        spec_text_at(buf, at + 1, at + 1 + buf[at])
    }
}

/// The group that the entry at `c` describes, `name` being its name.
pub open spec fn spec_group_at(buf: Seq<u8>, c: int, name: Seq<char>) -> Result<
    GroupView,
    ParserError,
> {
    match spec_description_at(buf, spec_anchor(buf, c) + 2) {
        Err(e) => Err(e),
        Ok(description) => Ok(
            GroupView {
                id: -spec_i8(buf[c + 1]),
                name,
                description,
                locked: spec_i8(buf[c]) < 0,
                params: Seq::empty(),
            },
        ),
    }
}

/// The parameter that the entry at `c` describes, `name` being its name.
///
/// After the offset come the element width, the number of dimensions, the
/// extents, the payload and the description. The payload takes as many
/// bytes as the extents and the width multiply to; an entry that announces
/// more than the section holds, or a width that names no kind of element,
/// is malformed.
pub open spec fn spec_param_at(buf: Seq<u8>, c: int, name: Seq<char>) -> Result<
    ParameterView,
    ParserError,
> {
    let trailer = spec_anchor(buf, c) + 2;
    if trailer + 2 > buf.len() || trailer + 2 + buf[trailer + 1] > buf.len() {
        Err(ParserError::Truncated)
    } else {
        let width = spec_i8(buf[trailer]);
        let payload = spec_payload_start(buf, c);
        let dimensions = buf.subrange(trailer + 2, payload);
        let size = spec_product(dimensions) * spec_element_size(width);
        if !spec_is_element_width(width) || payload + size > buf.len() {
            Err(ParserError::ParseParameterError)
        } else {
            match spec_description_at(buf, payload + size) {
                Err(e) => Err(e),
                Ok(description) => Ok(
                    ParameterView {
                        name_chars_size: spec_name_size(buf[c]),
                        id: spec_i8(buf[c + 1]),
                        name,
                        offset: spec_offset_at(buf, c),
                        data_length: width,
                        num_dimensions: buf[trailer + 1] as int,
                        dimensions,
                        values: spec_elements(width, buf, payload, spec_product(dimensions) as int),
                        locked: spec_i8(buf[c]) < 0,
                        desc_chars_size: buf[payload + size] as int,
                        description,
                    },
                ),
            }
        }
    }
}

/// The entry that starts at `c`, where one does.
pub open spec fn spec_entry_at(buf: Seq<u8>, c: int) -> Result<EntryView, ParserError> {
    if spec_anchor(buf, c) + 2 > buf.len() {
        Err(ParserError::Truncated)
    } else {
        match spec_text_at(buf, c + 2, spec_anchor(buf, c)) {
            Err(e) => Err(e),
            Ok(name) => if spec_i8(buf[c + 1]) > 0 {
                match spec_param_at(buf, c, name) {
                    Err(e) => Err(e),
                    Ok(p) => Ok(EntryView::Param(p)),
                }
            } else {
                match spec_group_at(buf, c, name) {
                    Err(e) => Err(e),
                    Ok(g) => Ok(EntryView::Group(g)),
                }
            },
        }
    }
}

/// The length of the name that the length byte `b` announces.
pub fn name_size(b: u8) -> (n: usize)
    ensures
        n == spec_name_size(b),
        n <= 128,
{
    if b < 128 {
        b as usize
    } else {
        256 - (b as usize)
    }
}

/// Whether no entry starts at `c`.
pub fn at_end(buf: &[u8], c: usize) -> (r: bool)
    requires
        c <= buf@.len(),
    ensures
        r == spec_at_end(buf@, c as int),
{
    buf.len() - c < 2 || buf[c] == 0 || buf[c + 1] == 0
}

/// Reads `buf[from..to]` as UTF-8 text.
pub fn read_text(buf: &[u8], from: usize, to: usize) -> (r: Result<String, ParserError>)
    requires
        from <= to <= buf@.len(),
    ensures
        match r {
            Ok(text) => spec_text_at(buf@, from as int, to as int) == Ok::<Seq<char>, ParserError>(
                text@,
            ),
            Err(e) => spec_text_at(buf@, from as int, to as int) == Err::<Seq<char>, ParserError>(
                e,
            ),
        },
{
    match string_from_utf8(copy_range(buf, from, to)) {
        Some(text) => Ok(text),
        None => Err(ParserError::ParseParameterError),
    }
}

/// Reads the description whose length byte stands at `at`.
pub fn read_description(buf: &[u8], at: usize) -> (r: Result<(u8, String), ParserError>)
    requires
        at <= buf@.len(),
    ensures
        match r {
            Ok((size, text)) => spec_description_at(buf@, at as int) == Ok::<
                Seq<char>,
                ParserError,
            >(text@) && at < buf@.len() && size == buf@[at as int] && at + 1 + size <= buf@.len(),
            Err(e) => spec_description_at(buf@, at as int) == Err::<Seq<char>, ParserError>(e),
        },
{
    let len: usize = buf.len();
    if len - at < 1 {
        return Err(ParserError::Truncated);
    }
    let size: u8 = buf[at];
    if len - at - 1 < size as usize {
        return Err(ParserError::Truncated);
    }
    match read_text(buf, at + 1, at + 1 + size as usize) {
        Ok(text) => Ok((size, text)),
        Err(e) => Err(e),
    }
}

/// The product of `dims`, where it is at most `limit`.
pub fn element_count(dims: &Vec<u8>, limit: usize) -> (r: Option<usize>)
    ensures
        match r {
            Some(n) => n == spec_product(dims@) && n <= limit,
            None => spec_product(dims@) > limit,
        },
{
    let mut product: usize = 1;
    let mut over: bool = limit < 1;
    let mut i: usize = 0;
    assert(dims@.take(0) =~= Seq::<u8>::empty());
    while i < dims.len()
        invariant
            i <= dims@.len(),
            over ==> spec_product(dims@.take(i as int)) > limit,
            !over ==> product == spec_product(dims@.take(i as int)) && product <= limit,
        decreases dims@.len() - i,
    {
        let d: usize = dims[i] as usize;
        let ghost before = spec_product(dims@.take(i as int));
        proof {
            assert(dims@.take(i + 1).drop_last() =~= dims@.take(i as int));
            assert(spec_product(dims@.take(i + 1)) == before * (d as nat));
        }
        if d == 0 {
            assert(before * (d as nat) == 0) by (nonlinear_arith)
                requires
                    d == 0,
            ;
            product = 0;
            over = false;
        } else if over {
            assert(before * (d as nat) > limit) by (nonlinear_arith)
                requires
                    before > limit,
                    d >= 1,
            ;
        } else if product > limit / d {
            over = true;
            assert(before * (d as nat) > limit) by (nonlinear_arith)
                requires
                    before > limit / d,
                    d >= 1,
            ;
        } else {
            assert(before * (d as nat) <= limit) by (nonlinear_arith)
                requires
                    before <= limit / d,
                    d >= 1,
            ;
            product = product * d;
        }
        i += 1;
    }
    assert(dims@.take(dims@.len() as int) =~= dims@);
    if over {
        None
    } else {
        Some(product)
    }
}

/// Reads what follows the offset of a group entry.
pub fn read_group(buf: &[u8], c: usize, name: String) -> (r: Result<GroupFormat, ParserError>)
    requires
        c + 2 <= buf@.len(),
        spec_anchor(buf@, c as int) + 2 <= buf@.len(),
        spec_i8(buf@[c + 1]) < 0,
    ensures
        match r {
            Ok(g) => spec_group_at(buf@, c as int, name@) == Ok::<GroupView, ParserError>(g@),
            Err(e) => spec_group_at(buf@, c as int, name@) == Err::<GroupView, ParserError>(e),
        },
{
    let len: usize = buf.len();
    let anchor: usize = c + 2 + name_size(buf[c]);
    match read_description(buf, anchor + 2) {
        Err(e) => Err(e),
        Ok((_, description)) => {
            let id: i8 = read_i8(buf, c + 1);
            let group = GroupFormat {
                id: if id == -128 { 128 } else { (-id) as u8 },
                name,
                description,
                locked: read_i8(buf, c) < 0,
                params: Vec::new(),
            };
            assert(group@.params =~= Seq::<ParameterView>::empty());
            Ok(group)
        },
    }
}

/// Reads what follows the offset of a parameter entry.
pub fn read_param(buf: &[u8], c: usize, name: String) -> (r: Result<ParameterFormat, ParserError>)
    requires
        c + 2 <= buf@.len(),
        spec_anchor(buf@, c as int) + 2 <= buf@.len(),
    ensures
        match r {
            Ok(p) => spec_param_at(buf@, c as int, name@) == Ok::<ParameterView, ParserError>(p@),
            Err(e) => spec_param_at(buf@, c as int, name@) == Err::<ParameterView, ParserError>(e),
        },
{
    let len: usize = buf.len();
    let size_of_name: usize = name_size(buf[c]);
    let anchor: usize = c + 2 + size_of_name;
    let trailer: usize = anchor + 2;
    if len - trailer < 2 {
        return Err(ParserError::Truncated);
    }
    let width: i8 = read_i8(buf, trailer);
    let rank: u8 = buf[trailer + 1];
    if len - trailer - 2 < rank as usize {
        return Err(ParserError::Truncated);
    }
    let payload: usize = trailer + 2 + rank as usize;
    let dimensions: Vec<u8> = copy_range(buf, trailer + 2, payload);
    if !(width == -1 || width == 1 || width == 2 || width == 4) {
        return Err(ParserError::ParseParameterError);
    }
    let each: usize = if width < 0 { 1 } else { width as usize };
    let room: usize = len - payload;
    let count: usize = match element_count(&dimensions, room / each) {
        None => {
            assert(spec_product(dimensions@) * each > room) by (nonlinear_arith)
                requires
                    spec_product(dimensions@) > room / each,
                    each >= 1,
            ;
            return Err(ParserError::ParseParameterError);
        },
        Some(n) => n,
    };
    assert(count * each <= room) by (nonlinear_arith)
        requires
            count <= room / each,
            each >= 1,
    ;
    let values: Vec<ParamValue> = read_elements(width, buf, payload, count);
    match read_description(buf, payload + count * each) {
        Err(e) => Err(e),
        Ok((desc_chars_size, description)) => Ok(
            ParameterFormat {
                name_chars_size: size_of_name as u8,
                id: read_i8(buf, c + 1),
                name,
                offset: read_i16_le(buf, anchor),
                data_length: width,
                num_dimensions: rank,
                dimensions,
                parameter_data: ParamData { values, locked: read_i8(buf, c) < 0 },
                desc_chars_size,
                description,
            },
        ),
    }
}

/// Reads the entry that starts at `c`.
pub fn read_entry(buf: &[u8], c: usize) -> (r: Result<Entry, ParserError>)
    requires
        c + 2 <= buf@.len(),
        !spec_at_end(buf@, c as int),
    ensures
        match r {
            Ok(entry) => spec_entry_at(buf@, c as int) == Ok::<EntryView, ParserError>(entry@),
            Err(e) => spec_entry_at(buf@, c as int) == Err::<EntryView, ParserError>(e),
        },
{
    let size_of_name: usize = name_size(buf[c]);
    if buf.len() - c - 2 < size_of_name || buf.len() - c - 2 - size_of_name < 2 {
        return Err(ParserError::Truncated);
    }
    let name: String = match read_text(buf, c + 2, c + 2 + size_of_name) {
        Err(e) => {
            return Err(e);
        },
        Ok(name) => name,
    };
    if read_i8(buf, c + 1) > 0 {
        match read_param(buf, c, name) {
            Err(e) => Err(e),
            Ok(p) => Ok(Entry::Param(p)),
        }
    } else {
        match read_group(buf, c, name) {
            Err(e) => Err(e),
            Ok(g) => Ok(Entry::Group(g)),
        }
    }
}

/// Text that was read from the section encodes to the bytes it was read
/// from.
pub proof fn lemma_text_round_trip(buf: Seq<u8>, from: int, to: int)
    requires
        0 <= from <= to <= buf.len(),
    ensures
        spec_text_at(buf, from, to) matches Ok(text) ==> encode_utf8(text) == buf.subrange(
            from,
            to,
        ),
{
    if valid_utf8(buf.subrange(from, to)) {
        decode_utf8_encode_utf8(buf.subrange(from, to));
    }
}

/// Where the length byte of the description of the entry at `c` stands:
/// after the payload in a parameter, after the offset in a group.
pub open spec fn spec_description_anchor(buf: Seq<u8>, c: int) -> int {
    if spec_i8(buf[c + 1]) > 0 {
        let width = spec_i8(buf[spec_anchor(buf, c) + 2]);
        let dimensions = buf.subrange(spec_anchor(buf, c) + 4, spec_payload_start(buf, c));
        spec_payload_start(buf, c) + spec_product(dimensions) * spec_element_size(width)
    } else {
        spec_anchor(buf, c) + 2
    }
}

/// The name and the description of an entry that was read encode to the
/// bytes of the entry's name and description.
pub proof fn lemma_entry_round_trip(buf: Seq<u8>, c: int)
    requires
        0 <= c,
        !spec_at_end(buf, c),
    ensures
        match spec_entry_at(buf, c) {
            Ok(EntryView::Param(p)) => {
                &&& encode_utf8(p.name) == buf.subrange(c + 2, spec_anchor(buf, c))
                &&& encode_utf8(p.description) == buf.subrange(
                    spec_description_anchor(buf, c) + 1,
                    spec_description_anchor(buf, c) + 1 + buf[spec_description_anchor(buf, c)],
                )
            },
            Ok(EntryView::Group(g)) => {
                &&& encode_utf8(g.name) == buf.subrange(c + 2, spec_anchor(buf, c))
                &&& encode_utf8(g.description) == buf.subrange(
                    spec_description_anchor(buf, c) + 1,
                    spec_description_anchor(buf, c) + 1 + buf[spec_description_anchor(buf, c)],
                )
            },
            Err(_) => true,
        },
{
    if spec_entry_at(buf, c) is Ok {
        let at = spec_description_anchor(buf, c);
        lemma_text_round_trip(buf, c + 2, spec_anchor(buf, c));
        if spec_i8(buf[c + 1]) > 0 {
            let width = spec_i8(buf[spec_anchor(buf, c) + 2]);
            let dimensions = buf.subrange(spec_anchor(buf, c) + 4, spec_payload_start(buf, c));
            assert(spec_product(dimensions) * spec_element_size(width) >= 0) by (nonlinear_arith)
                requires
                    spec_element_size(width) >= 0,
            ;
        }
        lemma_text_round_trip(buf, at + 1, at + 1 + buf[at]);
    }
}

/// Bytes below 128 are always read as text, character for byte, and that
/// text encodes to the same bytes again.
pub proof fn lemma_ascii_round_trip(buf: Seq<u8>, from: int, to: int)
    requires
        0 <= from <= to <= buf.len(),
        spec_is_ascii(buf.subrange(from, to)),
    ensures
        spec_text_at(buf, from, to) == Ok::<Seq<char>, ParserError>(
            spec_text(buf.subrange(from, to)),
        ),
        encode_utf8(spec_text(buf.subrange(from, to))) == buf.subrange(from, to),
{
    lemma_ascii_decodes(buf.subrange(from, to));
}

} // verus!
