//! The parameter dictionary: named groups of named, typed arrays.

use vstd::prelude::*;
use vstd::string::*;
use crate::value::{spec_element_size, spec_is_element_width, ParamValue};

verus! {

/// The byte that marks the parameter section.
pub const PARAMETER_MAGIC: u8 = 0x54;

/// The four bytes with which the parameter section begins.
#[derive(Clone, Copy, Debug, PartialEq, Eq, Structural)]
pub struct ParameterBlockHeader {
    /// The first byte, which carries no meaning.
    pub reserved_one: u8,
    /// The second byte, which carries no meaning.
    pub reserved_two: u8,
    /// The number of 512-byte blocks in the section.
    pub parameter_block_counts: u8,
    /// The magic byte, `0x54`.
    pub magic_word: u8,
}

/// The payload of a parameter.
#[derive(Clone, Debug)]
pub struct ParamData {
    /// The elements, the first dimension running fastest.
    pub values: Vec<ParamValue>,
    /// Whether the file marks the parameter as not to be changed.
    pub locked: bool,
}

/// One parameter of the dictionary.
#[derive(Clone, Debug)]
pub struct ParameterFormat {
    /// The number of bytes in the name.
    pub name_chars_size: u8,
    /// The number of the group that the parameter belongs to.
    pub id: i8,
    /// The name.
    pub name: String,
    /// The distance in bytes from the entry's offset field to the next entry.
    pub offset: i16,
    /// The element width: `-1` character, `1` byte, `2` integer, `4` real.
    pub data_length: i8,
    /// The number of dimensions.
    pub num_dimensions: u8,
    /// The extent of each dimension.
    pub dimensions: Vec<u8>,
    /// The elements and the locked flag.
    pub parameter_data: ParamData,
    /// The number of bytes in the description.
    pub desc_chars_size: u8,
    /// The description.
    pub description: String,
}

/// One group of the dictionary.
#[derive(Clone, Debug)]
pub struct GroupFormat {
    /// The number by which the group's parameters name it.
    pub id: u8,
    /// The name; empty as long as only parameters of the group were seen.
    pub name: String,
    /// The description.
    pub description: String,
    /// Whether the file marks the group as not to be changed.
    pub locked: bool,
    /// The parameters, no two of one name.
    pub params: Vec<ParameterFormat>,
}

/// The parameter section of a file.
#[derive(Clone, Debug)]
pub struct ParameterBlock {
    /// The section's first four bytes.
    pub header: ParameterBlockHeader,
    /// The groups, no two of one name.
    pub groups: Vec<GroupFormat>,
}

/// What a [`ParameterFormat`] holds.
pub struct ParameterView {
    pub name_chars_size: int,
    pub id: int,
    pub name: Seq<char>,
    pub offset: int,
    pub data_length: int,
    pub num_dimensions: int,
    pub dimensions: Seq<u8>,
    pub values: Seq<ParamValue>,
    pub locked: bool,
    pub desc_chars_size: int,
    pub description: Seq<char>,
}

/// What a [`GroupFormat`] holds.
pub struct GroupView {
    pub id: int,
    pub name: Seq<char>,
    pub description: Seq<char>,
    pub locked: bool,
    pub params: Seq<ParameterView>,
}

/// What a [`ParameterBlock`] holds.
pub struct ParameterBlockView {
    pub header: ParameterBlockHeader,
    pub groups: Seq<GroupView>,
}

/// The product of the extents; `1` where there is none.
pub open spec fn spec_product(dims: Seq<u8>) -> nat
    decreases dims.len(),
{
    if dims.len() == 0 {
        1
    } else {
        spec_product(dims.drop_last()) * (dims.last() as nat)
    }
}

/// Whether `value` is of the kind that the element width `width` names.
pub open spec fn spec_is_kind(width: int, value: ParamValue) -> bool {
    match value {
        ParamValue::Char(_) => width == -1,
        ParamValue::Byte(_) => width == 1,
        ParamValue::I16(_) => width == 2,
        ParamValue::F32(_) => width == 4,
    }
}

/// The names of `params`, in their order.
pub open spec fn spec_param_names(params: Seq<ParameterView>) -> Seq<Seq<char>> {
    params.map_values(|p: ParameterView| p.name)
}

/// The names of `groups`, in their order.
pub open spec fn spec_group_names(groups: Seq<GroupView>) -> Seq<Seq<char>> {
    groups.map_values(|g: GroupView| g.name)
}

/// The numbers of `groups`, in their order.
pub open spec fn spec_group_ids(groups: Seq<GroupView>) -> Seq<int> {
    groups.map_values(|g: GroupView| g.id)
}

/// What each of `params` holds.
pub open spec fn spec_param_views(params: Seq<ParameterFormat>) -> Seq<ParameterView> {
    params.map_values(|p: ParameterFormat| p@)
}

/// What each of `groups` holds.
pub open spec fn spec_group_views(groups: Seq<GroupFormat>) -> Seq<GroupView> {
    groups.map_values(|g: GroupFormat| g@)
}

impl ParameterView {
    /// The number of bytes that the payload takes in the file.
    pub open spec fn payload_size(&self) -> int {
        spec_product(self.dimensions) * spec_element_size(self.data_length)
    }

    /// Whether the parts agree with each other: there are as many elements
    /// as the dimensions multiply to, all of the kind that the element
    /// width names, and the three counts are the lengths that they count.
    pub open spec fn wf(&self) -> bool {
        &&& spec_is_element_width(self.data_length)
        &&& self.values.len() == spec_product(self.dimensions)
        &&& self.values.len() * spec_element_size(self.data_length) == self.payload_size()
        &&& forall|i: int|
            0 <= i < self.values.len() ==> spec_is_kind(self.data_length, #[trigger] self.values[i])
        &&& self.num_dimensions == self.dimensions.len()
        &&& self.name_chars_size == vstd::utf8::encode_utf8(self.name).len()
        &&& self.desc_chars_size == vstd::utf8::encode_utf8(self.description).len()
        &&& 1 <= self.id <= 127
    }
}

impl GroupView {
    /// Whether every parameter is well formed and belongs to this group,
    /// and no two parameters share a name.
    pub open spec fn wf(&self) -> bool {
        &&& 1 <= self.id <= 128
        &&& spec_param_names(self.params).no_duplicates()
        &&& forall|i: int|
            0 <= i < self.params.len() ==> (#[trigger] self.params[i]).wf() && self.params[i].id
                == self.id
    }
}

impl ParameterBlockView {
    /// Whether every group is well formed and no two groups share a name.
    pub open spec fn wf(&self) -> bool {
        &&& spec_group_names(self.groups).no_duplicates()
        &&& forall|i: int| 0 <= i < self.groups.len() ==> (#[trigger] self.groups[i]).wf()
    }

    /// Where the parameter that `key` names stands: the index of its group
    /// and its index in the group.
    ///
    /// `key` is a group's name, a separator and a parameter's name. The
    /// separator is the first `:` or `.` of the key. Names are compared
    /// character by character.
    pub open spec fn spec_locate(&self, key: Seq<char>) -> Option<(int, int)> {
        match spec_key_parts(key) {
            None => None,
            Some((group, name)) => match spec_group_names(self.groups).index_of_first(group) {
                None => None,
                Some(g) => match spec_param_names(self.groups[g].params).index_of_first(name) {
                    None => None,
                    Some(p) => Some((g, p)),
                },
            },
        }
    }

    /// The parameter that `key` names, if there is one.
    pub open spec fn spec_get(&self, key: Seq<char>) -> Option<ParameterView> {
        match self.spec_locate(key) {
            None => None,
            Some((g, p)) => Some(self.groups[g].params[p]),
        }
    }
}

impl View for ParameterFormat {
    type V = ParameterView;

    open spec fn view(&self) -> ParameterView {
        ParameterView {
            name_chars_size: self.name_chars_size as int,
            id: self.id as int,
            name: self.name@,
            offset: self.offset as int,
            data_length: self.data_length as int,
            num_dimensions: self.num_dimensions as int,
            dimensions: self.dimensions@,
            values: self.parameter_data.values@,
            locked: self.parameter_data.locked,
            desc_chars_size: self.desc_chars_size as int,
            description: self.description@,
        }
    }
}

impl View for GroupFormat {
    type V = GroupView;

    open spec fn view(&self) -> GroupView {
        GroupView {
            id: self.id as int,
            name: self.name@,
            description: self.description@,
            locked: self.locked,
            params: spec_param_views(self.params@),
        }
    }
}

impl View for ParameterBlock {
    type V = ParameterBlockView;

    open spec fn view(&self) -> ParameterBlockView {
        ParameterBlockView { header: self.header, groups: spec_group_views(self.groups@) }
    }
}

/// Whether the character parts a group's name from a parameter's.
pub open spec fn spec_is_separator(c: char) -> bool {
    c == ':' || c == '.'
}

/// Whether the character parts a group's name from a parameter's.
pub fn is_separator(c: char) -> (r: bool)
    ensures
        r == spec_is_separator(c),
{
    c == ':' || c == '.'
}

/// The index of the first separator in `key`; the length of `key` where it
/// has none.
pub open spec fn spec_first_separator(key: Seq<char>) -> int
    decreases key.len(),
{
    if key.len() == 0 || spec_is_separator(key[0]) {
        0
    } else {
        1 + spec_first_separator(key.drop_first())
    }
}

/// The two names into which `key` is cut at its first separator; nothing
/// where it has none.
pub open spec fn spec_key_parts(key: Seq<char>) -> Option<(Seq<char>, Seq<char>)> {
    let at = spec_first_separator(key);
    if at >= key.len() {
        None
    } else {
        Some((key.subrange(0, at), key.subrange(at + 1, key.len() as int)))
    }
}

/// The first separator is where no separator stands before.
pub proof fn lemma_first_separator(key: Seq<char>, at: int)
    requires
        0 <= at <= key.len(),
        forall|i: int| 0 <= i < at ==> !spec_is_separator(#[trigger] key[i]),
        at < key.len() ==> spec_is_separator(key[at]),
    ensures
        spec_first_separator(key) == at,
    decreases at,
{
    if at > 0 {
        let rest = key.drop_first();
        assert forall|i: int| 0 <= i < at - 1 implies !spec_is_separator(#[trigger] rest[i]) by {
            assert(rest[i] == key[i + 1]);
        }
        lemma_first_separator(rest, at - 1);
    }
}

/// `s.index_of_first(a)` is the index before which `a` does not occur and
/// at which it does.
pub proof fn lemma_index_of_first<A>(s: Seq<A>, a: A, at: int)
    requires
        0 <= at <= s.len(),
        forall|i: int| 0 <= i < at ==> #[trigger] s[i] != a,
        at < s.len() ==> s[at] == a,
    ensures
        at < s.len() ==> s.index_of_first(a) == Some(at),
        at == s.len() ==> s.index_of_first(a) is None,
{
    s.index_of_first_ensures(a);
    if at < s.len() {
        assert(s.contains(a));
    }
}

/// The index of the first of `params` that is called `name`.
pub fn find_param(params: &Vec<ParameterFormat>, name: &String) -> (r: Option<usize>)
    ensures
        match r {
            Some(i) => spec_param_names(spec_param_views(params@)).index_of_first(name@) == Some(
                i as int,
            ) && i < params@.len(),
            None => spec_param_names(spec_param_views(params@)).index_of_first(name@) is None,
        },
{
    let ghost names = spec_param_names(spec_param_views(params@));
    let mut i: usize = 0;
    while i < params.len()
        invariant
            i <= params@.len(),
            names == spec_param_names(spec_param_views(params@)),
            forall|k: int| 0 <= k < i ==> #[trigger] names[k] != name@,
        decreases params@.len() - i,
    {
        if params[i].name == *name {
            proof {
                lemma_index_of_first(names, name@, i as int);
            }
            return Some(i);
        }
        i += 1;
    }
    proof {
        lemma_index_of_first(names, name@, i as int);
    }
    None
}

/// The index of the first of `groups` that is called `name`.
pub fn find_group(groups: &Vec<GroupFormat>, name: &String) -> (r: Option<usize>)
    ensures
        match r {
            Some(i) => spec_group_names(spec_group_views(groups@)).index_of_first(name@) == Some(
                i as int,
            ) && i < groups@.len(),
            None => spec_group_names(spec_group_views(groups@)).index_of_first(name@) is None,
        },
{
    let ghost names = spec_group_names(spec_group_views(groups@));
    let mut i: usize = 0;
    while i < groups.len()
        invariant
            i <= groups@.len(),
            names == spec_group_names(spec_group_views(groups@)),
            forall|k: int| 0 <= k < i ==> #[trigger] names[k] != name@,
        decreases groups@.len() - i,
    {
        if groups[i].name == *name {
            proof {
                lemma_index_of_first(names, name@, i as int);
            }
            return Some(i);
        }
        i += 1;
    }
    proof {
        lemma_index_of_first(names, name@, i as int);
    }
    None
}

impl ParameterBlock {
    /// The parameter that `key` names: `GROUP:NAME` or `GROUP.NAME`.
    ///
    /// The key is cut at its first `:` or `.`. Nothing is returned where
    /// the key has no separator, where no group has the name before it, or
    /// where that group has no parameter of the name after it.
    pub fn get(&self, key: &str) -> (r: Option<&ParameterFormat>)
        ensures
            match self@.spec_locate(key@) {
                None => r is None,
                Some((g, p)) => r == Some(&self.groups@[g].params@[p]),
            },
            r is Some ==> self@.spec_get(key@) == Some(r->0@),
            r is None ==> self@.spec_get(key@) is None,
    {
        let n: usize = key.unicode_len();
        let mut at: usize = 0;
        while at < n && !is_separator(key.get_char(at))
            invariant
                at <= n == key@.len(),
                forall|i: int| 0 <= i < at ==> !spec_is_separator(#[trigger] key@[i]),
            decreases n - at,
        {
            at += 1;
        }
        proof {
            lemma_first_separator(key@, at as int);
        }
        if at >= n {
            return None;
        }
        let group_key: String = key.substring_char(0, at).to_owned();
        let param_key: String = key.substring_char(at + 1, n).to_owned();
        match find_group(&self.groups, &group_key) {
            None => None,
            Some(g) => match find_param(&self.groups[g].params, &param_key) {
                None => None,
                Some(p) => Some(&self.groups[g].params[p]),
            },
        }
    }
}

/// A key written with `:` and the same key written with `.` name the same
/// parameter, provided that the group's name itself holds neither.
pub proof fn lemma_separator_equivalence(
    dictionary: ParameterBlockView,
    group: Seq<char>,
    name: Seq<char>,
)
    requires
        forall|i: int| 0 <= i < group.len() ==> !spec_is_separator(#[trigger] group[i]),
    ensures
        dictionary.spec_locate(group + seq![':'] + name) == dictionary.spec_locate(
            group + seq!['.'] + name,
        ),
        dictionary.spec_get(group + seq![':'] + name) == dictionary.spec_get(
            group + seq!['.'] + name,
        ),
        spec_key_parts(group + seq![':'] + name) == Some((group, name)),
        spec_key_parts(group + seq!['.'] + name) == Some((group, name)),
{
    let colon = group + seq![':'] + name;
    let dot = group + seq!['.'] + name;
    let at = group.len() as int;
    assert forall|i: int| 0 <= i < at implies !spec_is_separator(#[trigger] colon[i]) by {
        assert(colon[i] == group[i]);
    }
    assert forall|i: int| 0 <= i < at implies !spec_is_separator(#[trigger] dot[i]) by {
        assert(dot[i] == group[i]);
    }
    assert(colon[at] == ':');
    assert(dot[at] == '.');
    lemma_first_separator(colon, at);
    lemma_first_separator(dot, at);
    assert(colon.subrange(0, at) =~= group);
    assert(dot.subrange(0, at) =~= group);
    assert(colon.subrange(at + 1, colon.len() as int) =~= name);
    assert(dot.subrange(at + 1, dot.len() as int) =~= name);
}

/// In a well-formed dictionary every parameter is found under its group's
/// name, a separator and its own name, provided that the group's name
/// holds no separator.
pub proof fn lemma_get_finds(dictionary: ParameterBlockView, g: int, p: int)
    requires
        dictionary.wf(),
        0 <= g < dictionary.groups.len(),
        0 <= p < dictionary.groups[g].params.len(),
        forall|i: int|
            0 <= i < dictionary.groups[g].name.len() ==> !spec_is_separator(
                #[trigger] dictionary.groups[g].name[i],
            ),
    ensures
        dictionary.spec_get(
            dictionary.groups[g].name + seq![':'] + dictionary.groups[g].params[p].name,
        ) == Some(dictionary.groups[g].params[p]),
        dictionary.spec_get(
            dictionary.groups[g].name + seq!['.'] + dictionary.groups[g].params[p].name,
        ) == Some(dictionary.groups[g].params[p]),
{
    let group = dictionary.groups[g];
    let param = group.params[p];
    lemma_separator_equivalence(dictionary, group.name, param.name);
    let groups = spec_group_names(dictionary.groups);
    assert(groups[g] == group.name);
    assert forall|i: int| 0 <= i < g implies #[trigger] groups[i] != group.name by {}
    lemma_index_of_first(groups, group.name, g);
    assert(group.wf());
    let params = spec_param_names(group.params);
    assert(params[p] == param.name);
    assert forall|i: int| 0 <= i < p implies #[trigger] params[i] != param.name by {}
    lemma_index_of_first(params, param.name, p);
}

} // verus!
