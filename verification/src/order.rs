//! The order in which names are listed: character by character, as
//! `String`'s `Ord` compares them, and a sort by that order.

use vstd::prelude::*;
use vstd::string::*;

verus! {

/// `a` comes before `b`: at the first position where they differ `a` has the
/// smaller character, or `a` is a proper prefix of `b`.
pub open spec fn text_lt(a: Seq<char>, b: Seq<char>) -> bool
    decreases a.len(),
{
    if a.len() == 0 {
        b.len() > 0
    } else if b.len() == 0 {
        false
    } else if a[0] != b[0] {
        a[0] < b[0]
    } else {
        text_lt(a.drop_first(), b.drop_first())
    }
}

/// No text comes before itself.
pub proof fn lemma_lt_irreflexive(a: Seq<char>)
    ensures
        !text_lt(a, a),
    decreases a.len(),
{
    if a.len() > 0 {
        lemma_lt_irreflexive(a.drop_first());
    }
}

/// Of two different texts, one comes before the other.
pub proof fn lemma_lt_total(a: Seq<char>, b: Seq<char>)
    ensures
        a == b || text_lt(a, b) || text_lt(b, a),
    decreases a.len(),
{
    if a.len() == 0 {
        if b.len() == 0 {
            assert(a =~= b);
        }
    } else if b.len() > 0 && a[0] == b[0] {
        lemma_lt_total(a.drop_first(), b.drop_first());
        if a.drop_first() == b.drop_first() {
            assert(a.drop_first().len() == b.drop_first().len());
            assert forall|i: int| 0 <= i < a.len() implies a[i] == b[i] by {
                if i > 0 {
                    assert(a[i] == a.drop_first()[i - 1]);
                    assert(b[i] == b.drop_first()[i - 1]);
                }
            }
            assert(a =~= b);
        }
    }
}

/// The order is transitive.
pub proof fn lemma_lt_transitive(a: Seq<char>, b: Seq<char>, c: Seq<char>)
    requires
        text_lt(a, b),
        text_lt(b, c),
    ensures
        text_lt(a, c),
    decreases a.len(),
{
    if a.len() > 0 && a[0] == b[0] && b[0] == c[0] {
        lemma_lt_transitive(a.drop_first(), b.drop_first(), c.drop_first());
    }
}

/// The order never holds both ways.
pub proof fn lemma_lt_asymmetric(a: Seq<char>, b: Seq<char>)
    requires
        text_lt(a, b),
    ensures
        !text_lt(b, a),
{
    if text_lt(b, a) {
        lemma_lt_transitive(a, b, a);
        lemma_lt_irreflexive(a);
    }
}

/// Whether `a` comes before `b`.
pub fn text_less(a: &str, b: &str) -> (r: bool)
    ensures
        r == text_lt(a@, b@),
{
    let n = a.unicode_len();
    let m = b.unicode_len();
    let mut k: usize = 0;
    assert(a@.skip(0) =~= a@);
    assert(b@.skip(0) =~= b@);
    while k < n && k < m
        invariant
            k <= n,
            k <= m,
            n == a@.len(),
            m == b@.len(),
            text_lt(a@, b@) == text_lt(a@.skip(k as int), b@.skip(k as int)),
        decreases n - k,
    {
        let x = a.get_char(k);
        let y = b.get_char(k);
        assert(a@.skip(k as int)[0] == x);
        assert(b@.skip(k as int)[0] == y);
        if x != y {
            return x < y;
        }
        assert(a@.skip(k as int).drop_first() =~= a@.skip(k + 1));
        assert(b@.skip(k as int).drop_first() =~= b@.skip(k + 1));
        k = k + 1;
    }
    k == n && k < m
}

/// Strictly ascending in the listing order.
pub open spec fn strictly_sorted(s: Seq<Seq<char>>) -> bool {
    forall|i: int, j: int| 0 <= i < j < s.len() ==> text_lt(#[trigger] s[i], #[trigger] s[j])
}

/// No two texts are equal.
pub open spec fn texts_distinct(s: Seq<Seq<char>>) -> bool {
    forall|i: int, j: int| 0 <= i < j < s.len() ==> (#[trigger] s[i]) != (#[trigger] s[j])
}

/// The texts of a list of strings.
pub open spec fn texts(v: Seq<String>) -> Seq<Seq<char>> {
    v.map_values(|s: String| s@)
}

/// Both lists hold the same texts.
pub open spec fn same_texts(a: Seq<Seq<char>>, b: Seq<Seq<char>>) -> bool {
    &&& a.len() == b.len()
    &&& forall|i: int| 0 <= i < a.len() ==> b.contains(#[trigger] a[i])
    &&& forall|j: int| 0 <= j < b.len() ==> a.contains(#[trigger] b[j])
}

/// Sorts distinct strings into ascending order.
pub fn sort_texts(v: Vec<String>) -> (r: Vec<String>)
    requires
        texts_distinct(texts(v@)),
    ensures
        same_texts(texts(r@), texts(v@)),
        strictly_sorted(texts(r@)),
{
    let ghost src = texts(v@);
    let mut r: Vec<String> = Vec::new();
    let mut i: usize = 0;
    while i < v.len()
        invariant
            i <= v.len(),
            src == texts(v@),
            texts_distinct(src),
            r@.len() == i,
            strictly_sorted(texts(r@)),
            forall|k: int| 0 <= k < r@.len() ==> src.subrange(0, i as int).contains(#[trigger] texts(r@)[k]),
            forall|j: int| 0 <= j < i ==> texts(r@).contains(#[trigger] src[j]),
        decreases v.len() - i,
    {
        let x = &v[i];
        let ghost xs = x@;
        assert(src[i as int] == xs);
        let ghost old_r = texts(r@);
        // the first position whose name comes after x
        let mut p: usize = 0;
        while p < r.len() && !text_less(x.as_str(), r[p].as_str())
            invariant
                p <= r@.len(),
                old_r == texts(r@),
                xs == x@,
                forall|k: int| 0 <= k < p ==> !text_lt(xs, #[trigger] old_r[k]),
            decreases r@.len() - p,
        {
            assert(old_r[p as int] == r@[p as int]@);
            p = p + 1;
        }
        assert(p < r@.len() ==> old_r[p as int] == r@[p as int]@);
        proof {
            // x differs from every name taken so far
            assert forall|k: int| 0 <= k < old_r.len() implies old_r[k] != xs by {
                let j = choose|j: int| 0 <= j < i && src.subrange(0, i as int)[j] == #[trigger] old_r[k];
                assert(src.subrange(0, i as int)[j] == src[j]);
                assert(src[j] != src[i as int]);
            }
        }
        r.insert(p, x.clone());
        let ghost nr = texts(r@);
        proof {
            assert(nr =~= old_r.insert(p as int, xs));
            assert forall|a: int, b: int| 0 <= a < b < nr.len() implies text_lt(#[trigger] nr[a], #[trigger] nr[b]) by {
                if b < p {
                    assert(text_lt(old_r[a], old_r[b]));
                } else if a > p {
                    assert(text_lt(old_r[a - 1], old_r[b - 1]));
                } else if a == p {
                    // x comes before old_r[p], which is at most old_r[b - 1]
                    if b - 1 > p {
                        assert(text_lt(old_r[p as int], old_r[b - 1]));
                        lemma_lt_transitive(xs, old_r[p as int], old_r[b - 1]);
                    }
                } else if b == p {
                    assert(!text_lt(xs, old_r[a]));
                    lemma_lt_total(xs, old_r[a]);
                } else {
                    // a < p < b
                    assert(!text_lt(xs, old_r[a]));
                    lemma_lt_total(xs, old_r[a]);
                    if b - 1 > p {
                        assert(text_lt(old_r[p as int], old_r[b - 1]));
                        lemma_lt_transitive(old_r[a], xs, old_r[p as int]);
                        lemma_lt_transitive(old_r[a], old_r[p as int], old_r[b - 1]);
                    } else {
                        lemma_lt_transitive(old_r[a], xs, old_r[p as int]);
                    }
                }
            }
            assert forall|k: int| 0 <= k < nr.len() implies src.subrange(0, i + 1).contains(#[trigger] nr[k]) by {
                if k == p {
                    assert(src.subrange(0, i + 1)[i as int] == xs);
                } else {
                    let kk = if k < p { k } else { k - 1 };
                    assert(nr[k] == old_r[kk]);
                    let j = choose|j: int| 0 <= j < i && src.subrange(0, i as int)[j] == #[trigger] old_r[kk];
                    assert(src.subrange(0, i + 1)[j] == src.subrange(0, i as int)[j]);
                }
            }
            assert forall|j: int| 0 <= j < i + 1 implies nr.contains(#[trigger] src[j]) by {
                if j == i {
                    assert(nr[p as int] == xs);
                } else {
                    let k = choose|k: int| 0 <= k < old_r.len() && old_r[k] == #[trigger] src[j];
                    if k < p {
                        assert(nr[k] == old_r[k]);
                    } else {
                        assert(nr[k + 1] == old_r[k]);
                    }
                }
            }
        }
        i = i + 1;
    }
    proof {
        assert(src.subrange(0, v@.len() as int) =~= src);
    }
    r
}

} // verus!
