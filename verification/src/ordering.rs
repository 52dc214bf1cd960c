//! Stable sorting by a pair of texts, compared as `(&str, &str)` tuples are.

use vstd::prelude::*;
use crate::text::{lex_less, text_eq, text_less, lemma_lex_less_irreflexive, lemma_lex_less_transitive, lemma_lex_less_total};

verus! {

/// The key of a pair of texts.
pub open spec fn pair_key(p: (String, String)) -> (Seq<char>, Seq<char>) {
    (p.0@, p.1@)
}

/// Tuple order: by the first text, then by the second.
pub open spec fn pair_less(a: (Seq<char>, Seq<char>), b: (Seq<char>, Seq<char>)) -> bool {
    lex_less(a.0, b.0) || (a.0 == b.0 && lex_less(a.1, b.1))
}

/// `order` lists each of `0..n` exactly once.
pub open spec fn is_permutation(order: Seq<usize>, n: nat) -> bool {
    &&& order.len() == n
    &&& forall|i: int| 0 <= i < order.len() ==> order[i] < n
    &&& order.no_duplicates()
    &&& forall|j: usize| j < n ==> #[trigger] order.contains(j)
}

/// The keys taken in `order` never decrease.
pub open spec fn sorted_by_keys(keys: Seq<(String, String)>, order: Seq<usize>) -> bool {
    forall|a: int, b: int|
        0 <= a < b < order.len() ==> !pair_less(
            pair_key(keys[order[b] as int]),
            pair_key(keys[order[a] as int]),
        )
}

/// Among equal keys, the original order is kept.
pub open spec fn stable(keys: Seq<(String, String)>, order: Seq<usize>) -> bool {
    forall|a: int, b: int|
        0 <= a < b < order.len() && pair_key(keys[order[a] as int]) == pair_key(
            keys[order[b] as int],
        ) ==> order[a] < order[b]
}

proof fn lemma_pair_irreflexive(a: (Seq<char>, Seq<char>))
    ensures
        !pair_less(a, a),
{
    lemma_lex_less_irreflexive(a.0);
    lemma_lex_less_irreflexive(a.1);
}

proof fn lemma_pair_transitive(a: (Seq<char>, Seq<char>), b: (Seq<char>, Seq<char>), c: (Seq<char>, Seq<char>))
    requires
        pair_less(a, b),
        pair_less(b, c),
    ensures
        pair_less(a, c),
{
    if lex_less(a.0, b.0) && lex_less(b.0, c.0) {
        lemma_lex_less_transitive(a.0, b.0, c.0);
    } else if lex_less(a.0, b.0) {
    } else if lex_less(b.0, c.0) {
    } else {
        lemma_lex_less_transitive(a.1, b.1, c.1);
    }
}

proof fn lemma_pair_total(a: (Seq<char>, Seq<char>), b: (Seq<char>, Seq<char>))
    ensures
        pair_less(a, b) || pair_less(b, a) || a == b,
{
    lemma_lex_less_total(a.0, b.0);
    lemma_lex_less_total(a.1, b.1);
}

/// Not-less is transitive: `a <= b <= c` gives `a <= c`.
proof fn lemma_pair_le_transitive(a: (Seq<char>, Seq<char>), b: (Seq<char>, Seq<char>), c: (Seq<char>, Seq<char>))
    requires
        !pair_less(b, a),
        !pair_less(c, b),
    ensures
        !pair_less(c, a),
{
    lemma_pair_total(a, b);
    lemma_pair_total(b, c);
    if pair_less(c, a) {
        if a == b {
        } else if b == c {
        } else {
            lemma_pair_transitive(a, b, c);
            lemma_pair_transitive(c, a, c);
            lemma_pair_irreflexive(c);
        }
    }
}

/// Strictly less excludes the other way round.
proof fn lemma_pair_asymmetric(a: (Seq<char>, Seq<char>), b: (Seq<char>, Seq<char>))
    requires
        pair_less(a, b),
    ensures
        !pair_less(b, a),
        a != b,
{
    lemma_pair_irreflexive(a);
    if pair_less(b, a) {
        lemma_pair_transitive(a, b, a);
    }
}

/// `a < b` for pairs of texts.
pub fn pair_text_less(a: &(String, String), b: &(String, String)) -> (r: bool)
    ensures
        r == pair_less(pair_key(*a), pair_key(*b)),
{
    if text_less(a.0.as_str(), b.0.as_str()) {
        true
    } else if text_eq(a.0.as_str(), b.0.as_str()) {
        text_less(a.1.as_str(), b.1.as_str())
    } else {
        false
    }
}

/// The positions of `keys` in stable ascending order of the keys
/// (what `sort_by_key` on the pairs does).
pub fn sorted_order(keys: &Vec<(String, String)>) -> (order: Vec<usize>)
    ensures
        is_permutation(order@, keys@.len()),
        sorted_by_keys(keys@, order@),
        stable(keys@, order@),
{
    let n = keys.len();
    let mut order: Vec<usize> = Vec::new();
    for k in 0..n
        invariant
            n == keys@.len(),
            order@.len() == k,
            forall|i: int| 0 <= i < order@.len() ==> order@[i] < k,
            order@.no_duplicates(),
            forall|j: usize| j < k ==> #[trigger] order@.contains(j),
            sorted_by_keys(keys@, order@),
            stable(keys@, order@),
    {
        let mut p: usize = order.len();
        while p > 0 && pair_text_less(&keys[k], &keys[order[p - 1]])
            invariant
                n == keys@.len(),
                k < n,
                p <= order@.len(),
                forall|i: int| 0 <= i < order@.len() ==> order@[i] < k,
                forall|j: int|
                    p <= j < order@.len() ==> pair_less(
                        pair_key(keys@[k as int]),
                        pair_key(#[trigger] keys@[order@[j] as int]),
                    ),
            decreases p,
        {
            p -= 1;
        }
        let ghost old_order = order@;
        proof {
            if p > 0 {
                assert(!pair_less(
                    pair_key(keys@[k as int]),
                    pair_key(keys@[old_order[p - 1] as int]),
                ));
            }
        }
        order.insert(p, k);
        proof {
            let o = order@;
            let kk = pair_key(keys@[k as int]);
            assert(o == old_order.insert(p as int, k));
            assert forall|j: usize| j < k + 1 implies #[trigger] o.contains(j) by {
                if j == k {
                    assert(o[p as int] == k);
                } else {
                    assert(old_order.contains(j));
                    let q = choose|q: int| 0 <= q < old_order.len() && old_order[q] == j;
                    if q < p {
                        assert(o[q] == j);
                    } else {
                        assert(o[q + 1] == j);
                    }
                }
            }
            assert forall|i: int| 0 <= i < o.len() implies o[i] < k + 1 by {
                if i < p {
                    assert(o[i] == old_order[i]);
                } else if i > p {
                    assert(o[i] == old_order[i - 1]);
                }
            }
            assert forall|a: int, b: int| 0 <= a < b < o.len() implies o[a] != o[b] by {
                if a < p {
                    assert(o[a] == old_order[a]);
                } else if a > p {
                    assert(o[a] == old_order[a - 1]);
                }
                if b < p {
                    assert(o[b] == old_order[b]);
                } else if b > p {
                    assert(o[b] == old_order[b - 1]);
                }
            }
            assert forall|a: int, b: int|
                0 <= a < b < o.len() implies !pair_less(
                pair_key(keys@[o[b] as int]),
                pair_key(keys@[o[a] as int]),
            ) by {
                if b < p {
                    assert(o[a] == old_order[a]);
                    assert(o[b] == old_order[b]);
                } else if b == p {
                    assert(o[a] == old_order[a]);
                    let prev = pair_key(keys@[old_order[p - 1] as int]);
                    if a < p - 1 {
                        lemma_pair_le_transitive(pair_key(keys@[old_order[a] as int]), prev, kk);
                    }
                } else if a > p {
                    assert(o[a] == old_order[a - 1]);
                    assert(o[b] == old_order[b - 1]);
                } else if a == p {
                    assert(o[b] == old_order[b - 1]);
                    lemma_pair_asymmetric(kk, pair_key(keys@[old_order[b - 1] as int]));
                } else {
                    assert(o[a] == old_order[a]);
                    assert(o[b] == old_order[b - 1]);
                }
            }
            assert forall|a: int, b: int|
                0 <= a < b < o.len() && pair_key(keys@[o[a] as int]) == pair_key(
                    keys@[o[b] as int],
                ) implies o[a] < o[b] by {
                if b < p {
                    assert(o[a] == old_order[a]);
                    assert(o[b] == old_order[b]);
                } else if b == p {
                    assert(o[a] == old_order[a]);
                } else if a > p {
                    assert(o[a] == old_order[a - 1]);
                    assert(o[b] == old_order[b - 1]);
                } else if a == p {
                    assert(o[b] == old_order[b - 1]);
                    lemma_pair_asymmetric(kk, pair_key(keys@[old_order[b - 1] as int]));
                } else {
                    assert(o[a] == old_order[a]);
                    assert(o[b] == old_order[b - 1]);
                }
            }
        }
    }
    order
}

} // verus!
