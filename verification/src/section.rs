//! The parameter section as a whole: the walk from entry to entry, and the
//! dictionary that comes of it.
//!
//! The section begins with four bytes: two without meaning, the number of
//! 512-byte blocks that the section takes, and the magic byte `0x54`. The
//! entries follow. Each entry says by its offset where the next one starts;
//! nothing else moves the walk on. A parameter may come before its group,
//! so the groups are first gathered under their numbers and filed under
//! their names only when the walk is over.

use vstd::prelude::*;
use crate::entry::{
    at_end, lemma_text_round_trip, name_size, read_entry, spec_anchor, spec_at_end, spec_entry_at,
    spec_offset_at, spec_param_at, spec_payload_start, spec_text_at, Entry, EntryView,
};
use crate::error::ParserError;
use crate::header::BLOCK_SIZE;
use crate::parameter::{
    find_group, find_param, lemma_index_of_first, spec_group_ids, spec_group_names,
    spec_group_views, spec_param_names, spec_param_views, spec_product, GroupFormat, GroupView,
    ParameterBlock, ParameterBlockHeader, ParameterBlockView, ParameterFormat, ParameterView,
    PARAMETER_MAGIC,
};
use crate::value::spec_element_size;
use crate::wire::{read_i16_le, spec_i8};

verus! {

/// `params` with `p` in the place of the parameter of the same name, or at
/// the end where there is none.
pub open spec fn spec_upsert_param(params: Seq<ParameterView>, p: ParameterView) -> Seq<
    ParameterView,
> {
    match spec_param_names(params).index_of_first(p.name) {
        Some(i) => params.update(i, p),
        None => params.push(p),
    }
}

/// The groups gathered so far, with `entry` filed.
///
/// A parameter goes to the group of its number, which is made if it is not
/// there yet, with an empty name. A group entry gives its name, description
/// and locked flag to the group of its number, which keeps its parameters.
pub open spec fn spec_stage(staged: Seq<GroupView>, entry: EntryView) -> Seq<GroupView> {
    match entry {
        EntryView::Param(p) => match spec_group_ids(staged).index_of_first(p.id) {
            Some(i) => staged.update(
                i,
                GroupView {
                    id: staged[i].id,
                    name: staged[i].name,
                    description: staged[i].description,
                    locked: staged[i].locked,
                    params: spec_upsert_param(staged[i].params, p),
                },
            ),
            None => staged.push(
                GroupView {
                    id: p.id,
                    name: Seq::empty(),
                    description: Seq::empty(),
                    locked: false,
                    params: seq![p],
                },
            ),
        },
        EntryView::Group(g) => match spec_group_ids(staged).index_of_first(g.id) {
            Some(i) => staged.update(
                i,
                GroupView {
                    id: staged[i].id,
                    name: g.name,
                    description: g.description,
                    locked: g.locked,
                    params: staged[i].params,
                },
            ),
            None => staged.push(g),
        },
    }
}

/// The groups gathered by the walk that starts at `c` with `staged`.
///
/// The walk ends where no entry starts, and after an entry whose offset is
/// zero. An offset that is negative, or that leads beyond the section, is
/// an error, as is whatever keeps an entry from being read.
pub open spec fn spec_walk(buf: Seq<u8>, c: int, staged: Seq<GroupView>) -> Result<
    Seq<GroupView>,
    ParserError,
>
    decreases buf.len() - c,
{
    if c < 0 || spec_at_end(buf, c) {
        Ok(staged)
    } else {
        match spec_entry_at(buf, c) {
            Err(e) => Err(e),
            Ok(entry) => {
                let offset = spec_offset_at(buf, c);
                let next = spec_anchor(buf, c) + offset;
                if offset == 0 {
                    Ok(spec_stage(staged, entry))
                } else if offset < 0 || next > buf.len() {
                    Err(ParserError::ParseParameterError)
                } else {
                    spec_walk(buf, next, spec_stage(staged, entry))
                }
            },
        }
    }
}

/// `groups` with `g` in the place of the group of the same name, or at the
/// end where there is none.
pub open spec fn spec_insert_group(groups: Seq<GroupView>, g: GroupView) -> Seq<GroupView> {
    match spec_group_names(groups).index_of_first(g.name) {
        Some(i) => groups.update(i, g),
        None => groups.push(g),
    }
}

/// The gathered groups filed under their names, in the order in which they
/// were gathered; of two groups of one name the later one stays.
pub open spec fn spec_rekey(staged: Seq<GroupView>) -> Seq<GroupView>
    decreases staged.len(),
{
    if staged.len() == 0 {
        Seq::empty()
    } else {
        spec_insert_group(spec_rekey(staged.drop_last()), staged.last())
    }
}

/// The dictionary that the bytes of a parameter section hold.
pub open spec fn spec_parse_section(bytes: Seq<u8>) -> Result<ParameterBlockView, ParserError> {
    if bytes.len() < 4 {
        Err(ParserError::Truncated)
    } else if bytes[3] != PARAMETER_MAGIC {
        Err(ParserError::UnmatchMagic)
    } else if bytes[2] == 0 {
        Err(ParserError::ParseParameterError)
    } else if bytes.len() < bytes[2] * BLOCK_SIZE {
        Err(ParserError::Truncated)
    } else {
        match spec_walk(bytes.subrange(4, bytes[2] * BLOCK_SIZE), 0, Seq::empty()) {
            Err(e) => Err(e),
            Ok(staged) => Ok(
                ParameterBlockView {
                    header: ParameterBlockHeader {
                        reserved_one: bytes[0],
                        reserved_two: bytes[1],
                        parameter_block_counts: bytes[2],
                        magic_word: bytes[3],
                    },
                    groups: spec_rekey(staged),
                },
            ),
        }
    }
}

/// Puts `p` in the place of the parameter of the same name, or at the end.
pub fn upsert_param(params: &mut Vec<ParameterFormat>, p: ParameterFormat)
    ensures
        spec_param_views(final(params)@) == spec_upsert_param(spec_param_views(old(params)@), p@),
{
    match find_param(params, &p.name) {
        Some(i) => {
            params[i] = p;
            assert(spec_param_views(params@) =~= spec_param_views(old(params)@).update(
                i as int,
                p@,
            ));
        },
        None => {
            params.push(p);
            assert(spec_param_views(params@) =~= spec_param_views(old(params)@).push(p@));
        },
    }
}

/// The index of the first of `staged` that has the number `id`.
pub fn find_group_by_id(staged: &Vec<GroupFormat>, id: u8) -> (r: Option<usize>)
    ensures
        match r {
            Some(i) => spec_group_ids(spec_group_views(staged@)).index_of_first(id as int) == Some(
                i as int,
            ) && i < staged@.len(),
            None => spec_group_ids(spec_group_views(staged@)).index_of_first(id as int) is None,
        },
{
    let ghost ids = spec_group_ids(spec_group_views(staged@));
    let mut i: usize = 0;
    while i < staged.len()
        invariant
            i <= staged@.len(),
            ids == spec_group_ids(spec_group_views(staged@)),
            forall|k: int| 0 <= k < i ==> #[trigger] ids[k] != id as int,
        decreases staged@.len() - i,
    {
        if staged[i].id == id {
            proof {
                lemma_index_of_first(ids, id as int, i as int);
            }
            return Some(i);
        }
        i += 1;
    }
    proof {
        lemma_index_of_first(ids, id as int, i as int);
    }
    None
}

/// Files `entry` with the groups gathered so far.
pub fn stage(staged: &mut Vec<GroupFormat>, entry: Entry)
    requires
        entry is Param ==> entry->Param_0.id > 0,
    ensures
        spec_group_views(final(staged)@) == spec_stage(spec_group_views(old(staged)@), entry@),
{
    match entry {
        Entry::Param(p) => {
            let id: u8 = p.id as u8;
            match find_group_by_id(staged, id) {
                Some(i) => {
                    let ghost before = staged@[i as int]@;
                    let ghost pv = p@;
                    upsert_param(&mut staged[i].params, p);
                    assert(spec_group_views(staged@) =~= spec_group_views(old(staged)@).update(
                        i as int,
                        GroupView {
                            id: before.id,
                            name: before.name,
                            description: before.description,
                            locked: before.locked,
                            params: spec_upsert_param(before.params, pv),
                        },
                    ));
                },
                None => {
                    let ghost pv = p@;
                    let mut params: Vec<ParameterFormat> = Vec::new();
                    params.push(p);
                    assert(spec_param_views(params@) =~= seq![pv]);
                    let group = GroupFormat {
                        id,
                        name: String::new(),
                        description: String::new(),
                        locked: false,
                        params,
                    };
                    staged.push(group);
                    assert(spec_group_views(staged@) =~= spec_group_views(old(staged)@).push(
                        GroupView {
                            id: pv.id,
                            name: Seq::empty(),
                            description: Seq::empty(),
                            locked: false,
                            params: seq![pv],
                        },
                    ));
                },
            }
        },
        Entry::Group(g) => {
            match find_group_by_id(staged, g.id) {
                Some(i) => {
                    let ghost before = staged@[i as int]@;
                    let ghost gv = g@;
                    staged[i].name = g.name;
                    staged[i].description = g.description;
                    staged[i].locked = g.locked;
                    assert(spec_group_views(staged@) =~= spec_group_views(old(staged)@).update(
                        i as int,
                        GroupView {
                            id: before.id,
                            name: gv.name,
                            description: gv.description,
                            locked: gv.locked,
                            params: before.params,
                        },
                    ));
                },
                None => {
                    let ghost gv = g@;
                    staged.push(g);
                    assert(spec_group_views(staged@) =~= spec_group_views(old(staged)@).push(gv));
                },
            }
        },
    }
}

/// Walks the entries of `buf` and gathers the groups under their numbers.
pub fn walk(buf: &[u8]) -> (r: Result<Vec<GroupFormat>, ParserError>)
    ensures
        match r {
            Ok(staged) => spec_walk(buf@, 0, Seq::empty()) == Ok::<Seq<GroupView>, ParserError>(
                spec_group_views(staged@),
            ),
            Err(e) => spec_walk(buf@, 0, Seq::empty()) == Err::<Seq<GroupView>, ParserError>(e),
        },
{
    let len: usize = buf.len();
    let mut staged: Vec<GroupFormat> = Vec::new();
    let mut c: usize = 0;
    assert(spec_group_views(staged@) =~= Seq::<GroupView>::empty());
    loop
        invariant
            len == buf@.len(),
            c <= len,
            spec_walk(buf@, c as int, spec_group_views(staged@)) == spec_walk(
                buf@,
                0,
                Seq::empty(),
            ),
        decreases len - c,
    {
        if at_end(buf, c) {
            return Ok(staged);
        }
        let entry: Entry = match read_entry(buf, c) {
            Err(e) => {
                return Err(e);
            },
            Ok(entry) => entry,
        };
        let anchor: usize = c + 2 + name_size(buf[c]);
        let offset: i16 = read_i16_le(buf, anchor);
        stage(&mut staged, entry);
        if offset == 0 {
            return Ok(staged);
        }
        if offset < 0 || len - anchor < offset as usize {
            return Err(ParserError::ParseParameterError);
        }
        c = anchor + offset as usize;
    }
}

/// Puts `g` in the place of the group of the same name, or at the end.
pub fn insert_group(groups: &mut Vec<GroupFormat>, g: GroupFormat)
    ensures
        spec_group_views(final(groups)@) == spec_insert_group(spec_group_views(old(groups)@), g@),
{
    match find_group(groups, &g.name) {
        Some(i) => {
            groups[i] = g;
            assert(spec_group_views(groups@) =~= spec_group_views(old(groups)@).update(
                i as int,
                g@,
            ));
        },
        None => {
            groups.push(g);
            assert(spec_group_views(groups@) =~= spec_group_views(old(groups)@).push(g@));
        },
    }
}

/// Files the gathered groups under their names.
pub fn rekey(staged: Vec<GroupFormat>) -> (groups: Vec<GroupFormat>)
    ensures
        spec_group_views(groups@) == spec_rekey(spec_group_views(staged@)),
{
    let ghost all = spec_group_views(staged@);
    let mut rest: Vec<GroupFormat> = staged;
    let mut groups: Vec<GroupFormat> = Vec::new();
    assert(spec_group_views(groups@) =~= Seq::<GroupView>::empty());
    assert(all.take(0) =~= Seq::<GroupView>::empty());
    assert(all.skip(0) =~= all);
    while rest.len() > 0
        invariant
            rest@.len() <= all.len(),
            spec_group_views(rest@) == all.skip(all.len() - rest@.len()),
            spec_group_views(groups@) == spec_rekey(all.take(all.len() - rest@.len())),
        decreases rest@.len(),
    {
        let ghost done = all.len() - rest@.len();
        let ghost views = spec_group_views(rest@);
        let ghost before = rest@;
        let g: GroupFormat = rest.remove(0);
        proof {
            assert(g@ == views[0]);
            assert(views[0] == all[done]);
            assert forall|k: int| 0 <= k < rest@.len() implies spec_group_views(rest@)[k]
                == all.skip(done + 1)[k] by {
                assert(rest@[k] == before[k + 1]);
                assert(views[k + 1] == before[k + 1]@);
                assert(views[k + 1] == all.skip(done)[k + 1]);
            }
            assert(spec_group_views(rest@) =~= all.skip(done + 1));
            assert(all.take(done + 1).drop_last() =~= all.take(done));
            assert(all.take(done + 1).last() == all[done]);
        }
        insert_group(&mut groups, g);
    }
    assert(all.take(all.len() as int) =~= all);
    groups
}

impl ParameterBlockHeader {
    /// Reads the four bytes with which a parameter section begins.
    pub fn from_bytes(bytes: &[u8]) -> (r: Result<ParameterBlockHeader, ParserError>)
        ensures
            bytes@.len() < 4 ==> r == Err::<ParameterBlockHeader, ParserError>(
                ParserError::Truncated,
            ),
            bytes@.len() >= 4 ==> r == Ok::<ParameterBlockHeader, ParserError>(
                ParameterBlockHeader {
                    reserved_one: bytes@[0],
                    reserved_two: bytes@[1],
                    parameter_block_counts: bytes@[2],
                    magic_word: bytes@[3],
                },
            ),
    {
        if bytes.len() < 4 {
            return Err(ParserError::Truncated);
        }
        Ok(
            ParameterBlockHeader {
                reserved_one: bytes[0],
                reserved_two: bytes[1],
                parameter_block_counts: bytes[2],
                magic_word: bytes[3],
            },
        )
    }
}

impl ParameterBlock {
    /// Reads the parameter section that `bytes` begins with.
    pub fn from_bytes(bytes: &[u8]) -> (r: Result<ParameterBlock, ParserError>)
        ensures
            match r {
                Ok(block) => spec_parse_section(bytes@) == Ok::<ParameterBlockView, ParserError>(
                    block@,
                ),
                Err(e) => spec_parse_section(bytes@) == Err::<ParameterBlockView, ParserError>(e),
            },
            r matches Ok(block) ==> block@.wf() && block.header.magic_word == PARAMETER_MAGIC,
    {
        proof {
            lemma_section_wf(bytes@);
        }
        let header: ParameterBlockHeader = match ParameterBlockHeader::from_bytes(bytes) {
            Err(e) => {
                return Err(e);
            },
            Ok(header) => header,
        };
        if header.magic_word != PARAMETER_MAGIC {
            return Err(ParserError::UnmatchMagic);
        }
        if header.parameter_block_counts == 0 {
            return Err(ParserError::ParseParameterError);
        }
        let end: usize = header.parameter_block_counts as usize * BLOCK_SIZE;
        if bytes.len() < end {
            return Err(ParserError::Truncated);
        }
        let buf: &[u8] = vstd::slice::slice_subrange(bytes, 4, end);
        match walk(buf) {
            Err(e) => Err(e),
            Ok(staged) => Ok(ParameterBlock { header, groups: rekey(staged) }),
        }
    }
}

impl EntryView {
    /// Whether the entry is well formed; a group entry brings no parameters.
    pub open spec fn wf(&self) -> bool {
        match self {
            EntryView::Param(p) => p.wf(),
            EntryView::Group(g) => g.wf() && g.params.len() == 0,
        }
    }
}

/// Whether the groups gathered under their numbers are well formed and no
/// two of them have one number.
pub open spec fn spec_gathered(staged: Seq<GroupView>) -> bool {
    &&& spec_group_ids(staged).no_duplicates()
    &&& forall|i: int| 0 <= i < staged.len() ==> (#[trigger] staged[i]).wf()
}

/// An entry that was read is well formed: a parameter has as many elements
/// as its dimensions multiply to, all of the kind that its element width
/// names, and they take `elements x |width|` bytes of the section.
pub proof fn lemma_entry_wf(buf: Seq<u8>, c: int)
    requires
        0 <= c,
        !spec_at_end(buf, c),
    ensures
        spec_entry_at(buf, c) matches Ok(entry) ==> entry.wf(),
        spec_entry_at(buf, c) matches Ok(EntryView::Param(p)) ==> spec_payload_start(buf, c)
            + p.values.len() * spec_element_size(p.data_length) < buf.len(),
{
    let anchor = spec_anchor(buf, c);
    if spec_entry_at(buf, c) is Ok {
        let name = spec_text_at(buf, c + 2, anchor)->Ok_0;
        lemma_text_round_trip(buf, c + 2, anchor);
        if spec_i8(buf[c + 1]) > 0 {
            let p = spec_param_at(buf, c, name)->Ok_0;
            let trailer = anchor + 2;
            let payload = trailer + 2 + buf[trailer + 1];
            let size = spec_product(p.dimensions) * spec_element_size(p.data_length);
            assert(size >= 0) by (nonlinear_arith)
                requires
                    size == spec_product(p.dimensions) * spec_element_size(p.data_length),
                    spec_element_size(p.data_length) >= 0,
            ;
            lemma_text_round_trip(buf, payload + size + 1, payload + size + 1 + buf[payload + size]);
            assert(p.wf());
        } else {
            let at = anchor + 2;
            lemma_text_round_trip(buf, at + 1, at + 1 + buf[at]);
        }
    }
}

/// Putting a well-formed parameter of a group among the group's parameters
/// leaves them well formed and their names distinct.
pub proof fn lemma_upsert_param_wf(params: Seq<ParameterView>, p: ParameterView, id: int)
    requires
        spec_param_names(params).no_duplicates(),
        forall|i: int| 0 <= i < params.len() ==> (#[trigger] params[i]).wf() && params[i].id == id,
        p.wf(),
        p.id == id,
    ensures
        spec_param_names(spec_upsert_param(params, p)).no_duplicates(),
        forall|i: int|
            0 <= i < spec_upsert_param(params, p).len() ==> (#[trigger] spec_upsert_param(
                params,
                p,
            )[i]).wf() && spec_upsert_param(params, p)[i].id == id,
{
    let names = spec_param_names(params);
    names.index_of_first_ensures(p.name);
    match names.index_of_first(p.name) {
        Some(i) => {
            assert(spec_param_names(params.update(i, p)) =~= names);
        },
        None => {
            assert(spec_param_names(params.push(p)) =~= names.push(p.name));
            assert forall|i: int| 0 <= i < names.len() implies names[i] != p.name by {
                if names[i] == p.name {
                    assert(names.contains(p.name));
                }
            }
        },
    }
}

/// Filing a well-formed entry leaves the gathered groups well formed and
/// their numbers distinct.
pub proof fn lemma_stage_wf(staged: Seq<GroupView>, entry: EntryView)
    requires
        spec_gathered(staged),
        entry.wf(),
    ensures
        spec_gathered(spec_stage(staged, entry)),
{
    let ids = spec_group_ids(staged);
    let after = spec_stage(staged, entry);
    match entry {
        EntryView::Param(p) => {
            ids.index_of_first_ensures(p.id);
            match ids.index_of_first(p.id) {
                Some(i) => {
                    assert(staged[i].wf());
                    lemma_upsert_param_wf(staged[i].params, p, p.id);
                    assert(spec_group_ids(after) =~= ids);
                },
                None => {
                    assert(spec_group_ids(after) =~= ids.push(p.id));
                    assert forall|i: int| 0 <= i < ids.len() implies ids[i] != p.id by {
                        if ids[i] == p.id {
                            assert(ids.contains(p.id));
                        }
                    }
                    assert(spec_param_names(seq![p]) =~= seq![p.name]);
                },
            }
        },
        EntryView::Group(g) => {
            ids.index_of_first_ensures(g.id);
            match ids.index_of_first(g.id) {
                Some(i) => {
                    assert(staged[i].wf());
                    assert(spec_group_ids(after) =~= ids);
                },
                None => {
                    assert(spec_group_ids(after) =~= ids.push(g.id));
                    assert forall|i: int| 0 <= i < ids.len() implies ids[i] != g.id by {
                        if ids[i] == g.id {
                            assert(ids.contains(g.id));
                        }
                    }
                },
            }
        },
    }
}

/// The walk gathers well-formed groups of distinct numbers.
pub proof fn lemma_walk_wf(buf: Seq<u8>, c: int, staged: Seq<GroupView>)
    requires
        spec_gathered(staged),
    ensures
        spec_walk(buf, c, staged) matches Ok(gathered) ==> spec_gathered(gathered),
    decreases buf.len() - c,
{
    if c < 0 || spec_at_end(buf, c) {
    } else {
        match spec_entry_at(buf, c) {
            Err(_) => {},
            Ok(entry) => {
                lemma_entry_wf(buf, c);
                lemma_stage_wf(staged, entry);
                let offset = spec_offset_at(buf, c);
                let next = spec_anchor(buf, c) + offset;
                if offset > 0 && next <= buf.len() {
                    lemma_walk_wf(buf, next, spec_stage(staged, entry));
                }
            },
        }
    }
}

/// Filing a well-formed group under its name leaves the groups well formed
/// and their names distinct.
pub proof fn lemma_insert_group_wf(groups: Seq<GroupView>, g: GroupView)
    requires
        spec_group_names(groups).no_duplicates(),
        forall|i: int| 0 <= i < groups.len() ==> (#[trigger] groups[i]).wf(),
        g.wf(),
    ensures
        spec_group_names(spec_insert_group(groups, g)).no_duplicates(),
        forall|i: int|
            0 <= i < spec_insert_group(groups, g).len() ==> (#[trigger] spec_insert_group(
                groups,
                g,
            )[i]).wf(),
{
    let names = spec_group_names(groups);
    names.index_of_first_ensures(g.name);
    match names.index_of_first(g.name) {
        Some(i) => {
            assert(spec_group_names(groups.update(i, g)) =~= names);
        },
        None => {
            assert(spec_group_names(groups.push(g)) =~= names.push(g.name));
            assert forall|i: int| 0 <= i < names.len() implies names[i] != g.name by {
                if names[i] == g.name {
                    assert(names.contains(g.name));
                }
            }
        },
    }
}

/// Filed under their names, well-formed groups make a well-formed
/// dictionary: no two groups of one name, and in a group no two parameters
/// of one name.
pub proof fn lemma_rekey_wf(staged: Seq<GroupView>)
    requires
        forall|i: int| 0 <= i < staged.len() ==> (#[trigger] staged[i]).wf(),
    ensures
        spec_group_names(spec_rekey(staged)).no_duplicates(),
        forall|i: int|
            0 <= i < spec_rekey(staged).len() ==> (#[trigger] spec_rekey(staged)[i]).wf(),
    decreases staged.len(),
{
    if staged.len() == 0 {
        assert(spec_group_names(Seq::<GroupView>::empty()) =~= Seq::<Seq<char>>::empty());
    } else {
        let front = staged.drop_last();
        assert forall|i: int| 0 <= i < front.len() implies (#[trigger] front[i]).wf() by {
            assert(front[i] == staged[i]);
        }
        lemma_rekey_wf(front);
        lemma_insert_group_wf(spec_rekey(front), staged.last());
    }
}

/// Every dictionary that is read from a parameter section is well formed,
/// and the section it was read from carries the magic byte.
pub proof fn lemma_section_wf(bytes: Seq<u8>)
    ensures
        spec_parse_section(bytes) matches Ok(block) ==> block.wf() && block.header.magic_word
            == PARAMETER_MAGIC,
{
    if spec_parse_section(bytes) is Ok {
        let buf = bytes.subrange(4, bytes[2] * BLOCK_SIZE);
        assert(spec_group_ids(Seq::<GroupView>::empty()) =~= Seq::<int>::empty());
        lemma_walk_wf(buf, 0, Seq::empty());
        lemma_rekey_wf(spec_walk(buf, 0, Seq::empty())->Ok_0);
    }
}

} // verus!
