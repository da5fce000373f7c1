//! The order of texts: character by character, a prefix before what it begins.
use crate::text::chars_of;
use vstd::prelude::*;

verus! {

/// Whether `a` comes before `b`.
pub open spec fn text_less(a: Seq<char>, b: Seq<char>) -> bool
    decreases a.len(),
{
    if b.len() == 0 {
        false
    } else if a.len() == 0 {
        true
    } else if a[0] == b[0] {
        text_less(a.skip(1), b.skip(1))
    } else {
        a[0] < b[0]
    }
}

/// Whether every text comes before those that follow it.
pub open spec fn ascending(texts: Seq<Seq<char>>) -> bool {
    forall|i: int, j: int|
        0 <= i < j < texts.len() ==> text_less(#[trigger] texts[i], #[trigger] texts[j])
}

/// No text comes before itself.
pub proof fn lemma_less_irreflexive(a: Seq<char>)
    ensures
        !text_less(a, a),
    decreases a.len(),
{
    if a.len() > 0 {
        lemma_less_irreflexive(a.skip(1));
    }
}

/// What comes before what comes before a text comes before that text.
pub proof fn lemma_less_transitive(a: Seq<char>, b: Seq<char>, c: Seq<char>)
    requires
        text_less(a, b),
        text_less(b, c),
    ensures
        text_less(a, c),
    decreases a.len(),
{
    if a.len() > 0 && a[0] == b[0] && b[0] == c[0] {
        lemma_less_transitive(a.skip(1), b.skip(1), c.skip(1));
    }
}

/// Of two texts one comes first, or they are the same.
pub proof fn lemma_less_total(a: Seq<char>, b: Seq<char>)
    ensures
        text_less(a, b) || text_less(b, a) || a == b,
    decreases a.len(),
{
    if a.len() > 0 && b.len() > 0 && a[0] == b[0] {
        lemma_less_total(a.skip(1), b.skip(1));
        if a.skip(1) == b.skip(1) {
            assert(a =~= seq![a[0]] + a.skip(1));
            assert(b =~= seq![b[0]] + b.skip(1));
        }
    } else if a.len() == 0 && b.len() == 0 {
        assert(a =~= b);
    }
}

/// Whether `a` comes before `b`.
pub fn comes_before(a: &str, b: &str) -> (before: bool)
    ensures
        before == text_less(a@, b@),
{
    let left = chars_of(a);
    let right = chars_of(b);
    let mut i: usize = 0;
    assert(left@.skip(0) =~= left@);
    assert(right@.skip(0) =~= right@);
    while i < left.len() && i < right.len() && left[i] == right[i]
        invariant
            left@ == a@,
            right@ == b@,
            i <= left@.len(),
            i <= right@.len(),
            text_less(left@.skip(i as int), right@.skip(i as int)) == text_less(a@, b@),
        decreases left@.len() - i,
    {
        assert(left@.skip(i as int).skip(1) =~= left@.skip(i + 1));
        assert(right@.skip(i as int).skip(1) =~= right@.skip(i + 1));
        i += 1;
    }
    if i >= right.len() {
        false
    } else if i >= left.len() {
        true
    } else {
        left[i] < right[i]
    }
}

/// Two ascending lists of the same texts are the same list.
pub proof fn law_ascending_list_is_unique(a: Seq<Seq<char>>, b: Seq<Seq<char>>)
    requires
        ascending(a),
        ascending(b),
        a.to_set() =~= b.to_set(),
    ensures
        a == b,
    decreases a.len(),
{
    assert forall|t: Seq<char>| a.contains(t) == b.contains(t) by {
        assert(a.to_set().contains(t) == b.to_set().contains(t));
    }
    if a.len() == 0 {
        if b.len() > 0 {
            assert(b.contains(b[0]));
        }
        assert(a =~= b);
    } else {
        assert(a.contains(a[0]));
        assert(b.len() > 0);
        let last_a = a.last();
        let last_b = b.last();
        assert(a.contains(last_a));
        assert(b.contains(last_b));
        let i = choose|i: int| 0 <= i < a.len() && a[i] == last_b;
        let j = choose|j: int| 0 <= j < b.len() && b[j] == last_a;
        if last_a != last_b {
            assert(text_less(a[i], a[a.len() - 1]));
            assert(text_less(b[j], b[b.len() - 1]));
            lemma_less_transitive(last_a, last_b, last_a);
            lemma_less_irreflexive(last_a);
        }
        let rest_a = a.drop_last();
        let rest_b = b.drop_last();
        assert forall|t: Seq<char>| rest_a.to_set().contains(t) == rest_b.to_set().contains(t) by {
            if rest_a.contains(t) {
                let k = choose|k: int| 0 <= k < rest_a.len() && rest_a[k] == t;
                assert(text_less(a[k], a[a.len() - 1]));
                lemma_less_irreflexive(t);
                assert(a[k] == t);
                assert(b.contains(t));
                let m = choose|m: int| 0 <= m < b.len() && b[m] == t;
                assert(rest_b[m] == t);
            }
            if rest_b.contains(t) {
                let k = choose|k: int| 0 <= k < rest_b.len() && rest_b[k] == t;
                assert(text_less(b[k], b[b.len() - 1]));
                lemma_less_irreflexive(t);
                assert(b[k] == t);
                assert(a.contains(t));
                let m = choose|m: int| 0 <= m < a.len() && a[m] == t;
                assert(rest_a[m] == t);
            }
        }
        law_ascending_list_is_unique(rest_a, rest_b);
        assert(a =~= rest_a.push(last_a));
        assert(b =~= rest_b.push(last_b));
    }
}

/// Texts are ordered by the first character in which they differ; one that ends before
/// they do comes first.
pub proof fn law_order_is_by_the_first_difference(common: Seq<char>, a: Seq<char>, b: Seq<char>)
    ensures
        text_less(common + a, common + b) == text_less(a, b),
        b.len() > 0 ==> text_less(common, common + b),
        a.len() > 0 && b.len() > 0 && a[0] < b[0] ==> text_less(
            common + a,
            common + b,
        ),
        a.len() > 0 && b.len() > 0 && b[0] < a[0] ==> !text_less(
            common + a,
            common + b,
        ),
    decreases common.len(),
{
    if common.len() == 0 {
        assert(common + a =~= a);
        assert(common + b =~= b);
    } else {
        let rest = common.skip(1);
        law_order_is_by_the_first_difference(rest, a, b);
        assert((common + a).skip(1) =~= rest + a);
        assert((common + b).skip(1) =~= rest + b);
        assert((common + a)[0] == common[0] && (common + b)[0] == common[0]);
    }
}

} // verus!
