//! Label lists: the names of points and analog channels, which a file
//! stores as tables of characters.
//!
//! A table of labels is a parameter whose first dimension is the width of
//! a label. Each run of that many elements is one label; the white space
//! around it is padding.
//!
//! The labels of the analog channels are spread over several parameters of
//! one group, `LABELS`, `LABELS2` and so on, and are listed in the order of
//! these names.

use vstd::prelude::*;
use vstd::relations::sorted_by;
use vstd::seq_lib::{lemma_sorted_unique, to_multiset_build, to_multiset_insert};
use crate::order::{
    chars_of, contains, lemma_lex_total, lemma_lex_transitive, lemma_name_order_total, lex_le,
    spec_contains, spec_lex_le, spec_name_order,
};
use crate::parameter::{
    find_param, spec_param_names, spec_param_views, ParameterFormat, ParameterView,
};
use crate::text::{spec_text, spec_trim, text_of, trim_bounds};
use crate::value::{char_bytes, spec_char_bytes, ParamValue};

verus! {

/// The width of the labels that `p` holds; zero where `p` has no dimension.
pub open spec fn spec_label_width(p: ParameterView) -> int {
    if p.dimensions.len() == 0 {
        0
    } else {
        p.dimensions[0] as int
    }
}

/// The number of labels that `p` holds: the number of whole runs of the
/// label width among its elements, and none where the width is zero.
pub open spec fn spec_label_count(p: ParameterView) -> int {
    if spec_label_width(p) == 0 {
        0
    } else {
        (p.values.len() as int) / spec_label_width(p)
    }
}

/// The label of `p` with the number `i`: the characters of its run,
/// without the white space around them.
pub open spec fn spec_label(p: ParameterView, i: int) -> Seq<char> {
    spec_text(
        spec_trim(
            spec_char_bytes(
                p.values.subrange(i * spec_label_width(p), (i + 1) * spec_label_width(p)),
            ),
        ),
    )
}

/// The labels that `p` holds, in their order.
pub open spec fn spec_labels(p: ParameterView) -> Seq<Seq<char>> {
    Seq::new(spec_label_count(p) as nat, |i: int| spec_label(p, i))
}

/// What each of `texts` spells.
pub open spec fn spec_strings(texts: Seq<String>) -> Seq<Seq<char>> {
    texts.map_values(|text: String| text@)
}

/// The labels that `p` holds, in their order.
pub fn labels_of(p: &ParameterFormat) -> (labels: Vec<String>)
    ensures
        spec_strings(labels@) == spec_labels(p@),
{
    let mut labels: Vec<String> = Vec::new();
    if p.dimensions.len() == 0 || p.dimensions[0] == 0 {
        assert(spec_strings(labels@) =~= spec_labels(p@));
        return labels;
    }
    let width: usize = p.dimensions[0] as usize;
    let values: &Vec<ParamValue> = &p.parameter_data.values;
    let count: usize = values.len() / width;
    let mut i: usize = 0;
    let mut from: usize = 0;
    while i < count
        invariant
            width == spec_label_width(p@),
            width > 0,
            values@ == p@.values,
            values@.len() <= usize::MAX,
            count == spec_label_count(p@),
            i <= count,
            from == i * width,
            labels@.len() == i,
            forall|k: int| 0 <= k < i ==> (#[trigger] labels@[k])@ == spec_label(p@, k),
        decreases count - i,
    {
        assert((i + 1) * width <= values@.len()) by (nonlinear_arith)
            requires
                i < count,
                count == (values@.len() as int) / (width as int),
                width > 0,
        ;
        assert((i + 1) * width == i * width + width) by (nonlinear_arith);
        let bytes: Vec<u8> = char_bytes(values, from, from + width);
        let bounds: (usize, usize) = trim_bounds(&bytes);
        labels.push(text_of(&bytes, bounds.0, bounds.1));
        i += 1;
        from += width;
    }
    assert(spec_strings(labels@) =~= spec_labels(p@));
    labels
}

/// The word by which the parameters that hold analog labels are known.
pub open spec fn spec_label_word() -> Seq<char> {
    "LABEL"@
}

/// Those of `names` that hold the word `LABEL`, in their order.
pub open spec fn spec_label_names(names: Seq<Seq<char>>) -> Seq<Seq<char>>
    decreases names.len(),
{
    if names.len() == 0 {
        Seq::empty()
    } else if spec_contains(names.last(), spec_label_word()) {
        spec_label_names(names.drop_last()).push(names.last())
    } else {
        spec_label_names(names.drop_last())
    }
}

/// The labels of the parameters that `names` names, one list after
/// another. A name stands for the first of `params` that has it.
pub open spec fn spec_labels_under(params: Seq<ParameterView>, names: Seq<Seq<char>>) -> Seq<
    Seq<char>,
>
    decreases names.len(),
{
    if names.len() == 0 {
        Seq::empty()
    } else {
        spec_labels_under(params, names.drop_last()) + (match spec_param_names(
            params,
        ).index_of_first(names.last()) {
            Some(i) => spec_labels(params[i]),
            None => Seq::empty(),
        })
    }
}

/// The analog labels that `params` hold: the label lists of the parameters
/// whose name holds the word `LABEL`, in the order of their names.
pub open spec fn spec_analog_labels(params: Seq<ParameterView>) -> Seq<Seq<char>> {
    spec_labels_under(
        params,
        spec_label_names(spec_param_names(params)).sort_by(spec_name_order()),
    )
}

/// The names in whose order the analog labels are listed are the names
/// that hold the word `LABEL`, each as often as it occurs, and each of them
/// is or comes before every one that follows it.
pub proof fn lemma_label_names_sorted(names: Seq<Seq<char>>)
    ensures
        spec_label_names(names).sort_by(spec_name_order()).to_multiset() == spec_label_names(
            names,
        ).to_multiset(),
        forall|i: int, j: int|
            0 <= i < j < spec_label_names(names).sort_by(spec_name_order()).len() ==> spec_lex_le(
                #[trigger] spec_label_names(names).sort_by(spec_name_order())[i],
                #[trigger] spec_label_names(names).sort_by(spec_name_order())[j],
            ),
{
    lemma_name_order_total();
    spec_label_names(names).lemma_sort_by_ensures(spec_name_order());
    let sorted = spec_label_names(names).sort_by(spec_name_order());
    assert forall|i: int, j: int| 0 <= i < j < sorted.len() implies spec_lex_le(
        #[trigger] sorted[i],
        #[trigger] sorted[j],
    ) by {
        assert(spec_name_order()(sorted[i], sorted[j]));
    }
}

/// What each of `names` spells.
pub open spec fn spec_char_views(names: Seq<Vec<char>>) -> Seq<Seq<char>> {
    names.map_values(|name: Vec<char>| name@)
}

/// The names that `order` picks from `names`.
pub open spec fn spec_picked(names: Seq<Seq<char>>, order: Seq<usize>) -> Seq<Seq<char>> {
    Seq::new(order.len(), |j: int| names[order[j] as int])
}

/// The names of `params`, as characters.
pub fn names_of(params: &Vec<ParameterFormat>) -> (names: Vec<Vec<char>>)
    ensures
        names@.len() == params@.len(),
        spec_char_views(names@) == spec_param_names(spec_param_views(params@)),
{
    let mut names: Vec<Vec<char>> = Vec::new();
    let mut i: usize = 0;
    while i < params.len()
        invariant
            i <= params@.len(),
            names@.len() == i,
            forall|k: int| 0 <= k < i ==> (#[trigger] names@[k])@ == params@[k].name@,
        decreases params@.len() - i,
    {
        names.push(chars_of(params[i].name.as_str()));
        i += 1;
    }
    assert(spec_char_views(names@) =~= spec_param_names(spec_param_views(params@)));
    names
}

/// Puts the index `k` into `order` so that the names which `order` picks
/// stay in the order of names.
pub fn insert_sorted(order: &mut Vec<usize>, names: &Vec<Vec<char>>, k: usize)
    requires
        k < names@.len(),
        forall|j: int| 0 <= j < old(order)@.len() ==> (#[trigger] old(order)@[j]) < names@.len(),
        sorted_by(spec_picked(spec_char_views(names@), old(order)@), spec_name_order()),
    ensures
        forall|j: int| 0 <= j < final(order)@.len() ==> (#[trigger] final(order)@[j]) < names@.len(),
        sorted_by(spec_picked(spec_char_views(names@), final(order)@), spec_name_order()),
        spec_picked(spec_char_views(names@), final(order)@).to_multiset() == spec_picked(
            spec_char_views(names@),
            old(order)@,
        ).to_multiset().insert(names@[k as int]@),
{
    let ghost all = spec_char_views(names@);
    let ghost before = spec_picked(all, order@);
    let ghost name = names@[k as int]@;
    let mut at: usize = 0;
    while at < order.len() && lex_le(&names[order[at]], &names[k])
        invariant
            at <= order@.len(),
            order@ == old(order)@,
            k < names@.len(),
            all == spec_char_views(names@),
            before == spec_picked(all, order@),
            name == names@[k as int]@,
            forall|j: int| 0 <= j < order@.len() ==> (#[trigger] order@[j]) < names@.len(),
            forall|j: int| 0 <= j < at ==> spec_lex_le(#[trigger] before[j], name),
        decreases order@.len() - at,
    {
        at += 1;
    }
    order.insert(at, k);
    proof {
        let after = spec_picked(all, order@);
        assert(after =~= before.insert(at as int, name));
        to_multiset_insert(before, at as int, name);
        if at < before.len() {
            assert(!spec_lex_le(before[at as int], name));
            lemma_lex_total(before[at as int], name);
        }
        assert forall|i: int, j: int| 0 <= i < j < after.len() implies #[trigger] spec_name_order()(
            after[i],
            after[j],
        ) by {
            if j < at {
                assert(spec_name_order()(before[i], before[j]));
            } else if j == at {
            } else if i == at {
                if j - 1 > at {
                    assert(spec_name_order()(before[at as int], before[j - 1]));
                    lemma_lex_transitive(name, before[at as int], before[j - 1]);
                }
            } else if i < at {
                assert(spec_name_order()(before[i], before[j - 1]));
            } else {
                assert(spec_name_order()(before[i - 1], before[j - 1]));
            }
        }
    }
}

/// The analog labels that `params` hold.
pub fn analog_labels_of(params: &Vec<ParameterFormat>) -> (labels: Vec<String>)
    ensures
        spec_strings(labels@) == spec_analog_labels(spec_param_views(params@)),
{
    let ghost views = spec_param_views(params@);
    let ghost all = spec_param_names(views);
    let word: Vec<char> = chars_of("LABEL");
    let names: Vec<Vec<char>> = names_of(params);
    let mut order: Vec<usize> = Vec::new();
    let mut k: usize = 0;
    assert(all.take(0) =~= Seq::<Seq<char>>::empty());
    assert(spec_picked(all, order@) =~= Seq::<Seq<char>>::empty());
    while k < names.len()
        invariant
            k <= names@.len() == params@.len(),
            word@ == spec_label_word(),
            all == spec_char_views(names@),
            forall|j: int| 0 <= j < order@.len() ==> (#[trigger] order@[j]) < names@.len(),
            sorted_by(spec_picked(all, order@), spec_name_order()),
            spec_picked(all, order@).to_multiset() == spec_label_names(
                all.take(k as int),
            ).to_multiset(),
        decreases names@.len() - k,
    {
        proof {
            assert(all.take(k + 1).drop_last() =~= all.take(k as int));
            assert(all.take(k + 1).last() == names@[k as int]@);
            to_multiset_build(spec_label_names(all.take(k as int)), names@[k as int]@);
        }
        if contains(&names[k], &word) {
            insert_sorted(&mut order, &names, k);
        }
        k += 1;
    }
    let ghost keys = spec_picked(all, order@);
    proof {
        assert(all.take(names@.len() as int) =~= all);
        let wanted = spec_label_names(all);
        lemma_name_order_total();
        wanted.lemma_sort_by_ensures(spec_name_order());
        lemma_sorted_unique(keys, wanted.sort_by(spec_name_order()), spec_name_order());
    }
    let mut labels: Vec<String> = Vec::new();
    let mut j: usize = 0;
    assert(keys.take(0) =~= Seq::<Seq<char>>::empty());
    while j < order.len()
        invariant
            j <= order@.len(),
            views == spec_param_views(params@),
            all == spec_param_names(views),
            all.len() == params@.len(),
            keys == spec_picked(all, order@),
            forall|i: int| 0 <= i < order@.len() ==> (#[trigger] order@[i]) < params@.len(),
            spec_strings(labels@) == spec_labels_under(views, keys.take(j as int)),
        decreases order@.len() - j,
    {
        proof {
            assert(keys.take(j + 1).drop_last() =~= keys.take(j as int));
            assert(keys.take(j + 1).last() == params@[order@[j as int] as int].name@);
        }
        let ghost so_far = labels@;
        match find_param(params, &params[order[j]].name) {
            Some(i) => {
                let mut more: Vec<String> = labels_of(&params[i]);
                let ghost added = more@;
                labels.append(&mut more);
                assert(spec_strings(labels@) =~= spec_strings(so_far) + spec_strings(added));
            },
            None => {
                assert(spec_strings(labels@) =~= spec_strings(so_far) + Seq::<Seq<char>>::empty());
            },
        }
        j += 1;
    }
    assert(keys.take(order@.len() as int) =~= keys);
    labels
}

} // verus!
