//! The order of names, and the search for a word in a name.

use vstd::prelude::*;
use vstd::relations::total_ordering;

verus! {

/// Whether `a` comes before `b` in the dictionary, or is `b`: at the first
/// place where the two differ `a` has the smaller character, or `a` ends
/// where `b` goes on.
pub open spec fn spec_lex_le(a: Seq<char>, b: Seq<char>) -> bool
    decreases a.len(),
{
    if a.len() == 0 {
        true
    } else if b.len() == 0 {
        false
    } else if a[0] != b[0] {
        (a[0] as u32) < (b[0] as u32)
    } else {
        spec_lex_le(a.drop_first(), b.drop_first())
    }
}

/// The order of names as a relation.
pub open spec fn spec_name_order() -> spec_fn(Seq<char>, Seq<char>) -> bool {
    |a: Seq<char>, b: Seq<char>| spec_lex_le(a, b)
}

/// Whether `word` stands somewhere in `text`.
pub open spec fn spec_contains(text: Seq<char>, word: Seq<char>) -> bool {
    exists|at: int| spec_occurs_at(text, word, at)
}

/// Whether `word` stands in `text` at `at`.
pub open spec fn spec_occurs_at(text: Seq<char>, word: Seq<char>, at: int) -> bool {
    0 <= at && at + word.len() <= text.len() && text.subrange(at, at + word.len()) == word
}

/// Every name is itself or comes before itself.
pub proof fn lemma_lex_reflexive(a: Seq<char>)
    ensures
        spec_lex_le(a, a),
    decreases a.len(),
{
    if a.len() > 0 {
        lemma_lex_reflexive(a.drop_first());
    }
}

/// Two names of which each is or comes before the other are one name.
pub proof fn lemma_lex_antisymmetric(a: Seq<char>, b: Seq<char>)
    requires
        spec_lex_le(a, b),
        spec_lex_le(b, a),
    ensures
        a == b,
    decreases a.len(),
{
    if a.len() == 0 || b.len() == 0 {
        assert(a =~= b);
    } else {
        lemma_lex_antisymmetric(a.drop_first(), b.drop_first());
        assert(a =~= seq![a[0]] + a.drop_first());
        assert(b =~= seq![b[0]] + b.drop_first());
    }
}

/// The order of names carries over.
pub proof fn lemma_lex_transitive(a: Seq<char>, b: Seq<char>, c: Seq<char>)
    requires
        spec_lex_le(a, b),
        spec_lex_le(b, c),
    ensures
        spec_lex_le(a, c),
    decreases a.len(),
{
    if a.len() > 0 && b.len() > 0 && c.len() > 0 && a[0] == b[0] && b[0] == c[0] {
        lemma_lex_transitive(a.drop_first(), b.drop_first(), c.drop_first());
    }
}

/// Of two names one is or comes before the other.
pub proof fn lemma_lex_total(a: Seq<char>, b: Seq<char>)
    ensures
        spec_lex_le(a, b) || spec_lex_le(b, a),
    decreases a.len(),
{
    if a.len() > 0 && b.len() > 0 {
        if a[0] == b[0] {
            lemma_lex_total(a.drop_first(), b.drop_first());
        } else {
            vstd::utf8::char_u32_cast(a[0], a[0] as u32);
            vstd::utf8::char_u32_cast(b[0], b[0] as u32);
        }
    }
}

/// The order of names is a total order.
pub proof fn lemma_name_order_total()
    ensures
        total_ordering(spec_name_order()),
{
    let r = spec_name_order();
    assert forall|x: Seq<char>| #[trigger] r(x, x) by {
        lemma_lex_reflexive(x);
    }
    assert forall|x: Seq<char>, y: Seq<char>| #[trigger] r(x, y) && #[trigger] r(y, x) implies x
        == y by {
        lemma_lex_antisymmetric(x, y);
    }
    assert forall|x: Seq<char>, y: Seq<char>, z: Seq<char>| #[trigger]
        r(x, y) && #[trigger] r(y, z) implies r(x, z) by {
        lemma_lex_transitive(x, y, z);
    }
    assert forall|x: Seq<char>, y: Seq<char>| #[trigger] r(x, y) || #[trigger] r(y, x) by {
        lemma_lex_total(x, y);
    }
}

/// Two names that agree up to `at` are ordered as what follows orders them.
pub proof fn lemma_lex_skip(a: Seq<char>, b: Seq<char>, at: int)
    requires
        0 <= at <= a.len(),
        at <= b.len(),
        forall|i: int| 0 <= i < at ==> a[i] == b[i],
    ensures
        spec_lex_le(a, b) == spec_lex_le(a.skip(at), b.skip(at)),
    decreases at,
{
    if at == 0 {
        assert(a.skip(0) =~= a);
        assert(b.skip(0) =~= b);
    } else {
        lemma_lex_skip(a.drop_first(), b.drop_first(), at - 1);
        assert(a.drop_first().skip(at - 1) =~= a.skip(at));
        assert(b.drop_first().skip(at - 1) =~= b.skip(at));
    }
}

/// Whether `a` comes before `b` in the dictionary, or is `b`.
pub fn lex_le(a: &Vec<char>, b: &Vec<char>) -> (r: bool)
    ensures
        r == spec_lex_le(a@, b@),
{
    let mut i: usize = 0;
    while i < a.len() && i < b.len() && a[i] == b[i]
        invariant
            i <= a@.len(),
            i <= b@.len(),
            forall|k: int| 0 <= k < i ==> a@[k] == b@[k],
        decreases a@.len() - i,
    {
        i += 1;
    }
    proof {
        lemma_lex_skip(a@, b@, i as int);
        if i < a@.len() && i < b@.len() {
            assert(a@.skip(i as int)[0] == a@[i as int]);
            assert(b@.skip(i as int)[0] == b@[i as int]);
        }
    }
    if i == a.len() {
        true
    } else if i == b.len() {
        false
    } else {
        (a[i] as u32) < (b[i] as u32)
    }
}

/// Whether `word` stands in `text` at `at`.
pub fn occurs_at(text: &Vec<char>, word: &Vec<char>, at: usize) -> (r: bool)
    ensures
        r == spec_occurs_at(text@, word@, at as int),
{
    if at > text.len() || text.len() - at < word.len() {
        return false;
    }
    let mut j: usize = 0;
    while j < word.len() && text[at + j] == word[j]
        invariant
            at + word@.len() <= text@.len() <= usize::MAX,
            j <= word@.len(),
            forall|k: int| 0 <= k < j ==> text@[at + k] == word@[k],
        decreases word@.len() - j,
    {
        j += 1;
    }
    proof {
        let part = text@.subrange(at as int, at + word@.len());
        if j == word@.len() {
            assert(part =~= word@);
        } else {
            assert(part[j as int] == text@[at + j]);
        }
    }
    j == word.len()
}

/// Whether `word` stands somewhere in `text`.
pub fn contains(text: &Vec<char>, word: &Vec<char>) -> (r: bool)
    ensures
        r == spec_contains(text@, word@),
{
    if word.len() > text.len() {
        return false;
    }
    let last: usize = text.len() - word.len();
    let mut at: usize = 0;
    while at < last
        invariant
            at <= last,
            last + word@.len() == text@.len(),
            forall|k: int| 0 <= k < at ==> !spec_occurs_at(text@, word@, k),
        decreases last - at,
    {
        if occurs_at(text, word, at) {
            return true;
        }
        at += 1;
    }
    occurs_at(text, word, last)
}

/// The characters of `text`.
pub fn chars_of(text: &str) -> (out: Vec<char>)
    ensures
        out@ == text@,
{
    let mut out: Vec<char> = Vec::new();
    for c in it: text.chars()
        invariant
            out@ == it.seq().take(it.index() as int),
            it.seq() == text@,
    {
        out.push(c);
    }
    out
}

} // verus!
