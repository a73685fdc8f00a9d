//! Ranking of scored entries: the `k` best, highest score first, ties in
//! their original order (the order a stable descending sort gives).

use vstd::prelude::*;

use crate::score::{bits_less, lemma_score_key_order, score_key_spec, score_keys};

verus! {

/// The ranking keys of a list of score bit patterns.
pub open spec fn keys_of(bits: Seq<u64>) -> Seq<u64> {
    Seq::new(bits.len(), |i: int| score_key_spec(bits[i]))
}

/// Position `a` ranks ahead of position `b`: a higher key, or an equal key
/// and an earlier position.
pub open spec fn ranks_before(keys: Seq<u64>, a: int, b: int) -> bool {
    keys[a] > keys[b] || (keys[a] == keys[b] && a < b)
}

/// The smaller of two naturals.
pub open spec fn min_nat(a: nat, b: nat) -> nat {
    if a <= b {
        a
    } else {
        b
    }
}

/// `order` lists the `k` best positions of `keys` (all of them when there are
/// fewer than `k`), best first.
pub open spec fn is_top_k(keys: Seq<u64>, k: nat, order: Seq<usize>) -> bool {
    &&& order.len() == min_nat(k, keys.len())
    &&& forall|i: int| 0 <= i < order.len() ==> #[trigger] order[i] < keys.len()
    &&& forall|i: int, j: int|
        0 <= i < j < order.len() ==> ranks_before(keys, #[trigger] order[i] as int, #[trigger] order[j] as int)
    &&& forall|i: int, x: usize|
        #![trigger ranks_before(keys, order[i] as int, x as int)]
        0 <= i < order.len() && x < keys.len() && !order.contains(x) ==> ranks_before(
            keys,
            order[i] as int,
            x as int,
        )
}

/// Whether position `a` ranks ahead of position `b`.
fn ranks_before_exec(keys: &Vec<u64>, a: usize, b: usize) -> (r: bool)
    requires
        a < keys.len(),
        b < keys.len(),
    ensures
        r == ranks_before(keys@, a as int, b as int),
{
    keys[a] > keys[b] || (keys[a] == keys[b] && a < b)
}

/// The positions `0..n` in order.
fn positions(n: usize) -> (v: Vec<usize>)
    ensures
        v@.len() == n,
        forall|i: int| 0 <= i < n ==> #[trigger] v@[i] == i,
{
    let mut v: Vec<usize> = Vec::new();
    let mut i: usize = 0;
    while i < n
        invariant
            i <= n,
            v@.len() == i,
            forall|j: int| 0 <= j < i ==> #[trigger] v@[j] == j,
        decreases n - i,
    {
        v.push(i);
        i = i + 1;
    }
    v
}

/// The `k` best positions of `keys`, best first; ties keep their original
/// order.
pub fn top_k_indices(keys: &Vec<u64>, k: usize) -> (order: Vec<usize>)
    ensures
        is_top_k(keys@, k as nat, order@),
        order@.len() == if k <= keys@.len() {
            k as int
        } else {
            keys@.len() as int
        },
        forall|i: int, j: int|
            0 <= i < j < order@.len() ==> keys@[order@[i] as int] > keys@[order@[j] as int] || (
            keys@[order@[i] as int] == keys@[order@[j] as int] && order@[i] < order@[j]),
{
    let n = keys.len();
    let limit = if k < n {
        k
    } else {
        n
    };
    let mut remaining = positions(n);
    let mut order: Vec<usize> = Vec::new();
    assert forall|x: usize| x < n implies #[trigger] remaining@.contains(x) by {
        assert(remaining@[x as int] == x);
    }
    while order.len() < limit
        invariant
            n == keys.len(),
            limit <= n,
            limit == min_nat(k as nat, n as nat),
            order.len() <= limit,
            order.len() + remaining.len() == n,
            forall|i: int| 0 <= i < order.len() ==> #[trigger] order@[i] < n,
            forall|i: int| 0 <= i < remaining.len() ==> #[trigger] remaining@[i] < n,
            forall|i: int, j: int|
                0 <= i < j < remaining.len() ==> #[trigger] remaining@[i] != #[trigger] remaining@[j],
            forall|x: usize| x < n ==> order@.contains(x) || #[trigger] remaining@.contains(x),
            forall|i: int, j: int|
                0 <= i < j < order.len() ==> ranks_before(
                    keys@,
                    #[trigger] order@[i] as int,
                    #[trigger] order@[j] as int,
                ),
            forall|i: int, r: int|
                0 <= i < order.len() && 0 <= r < remaining.len() ==> ranks_before(
                    keys@,
                    #[trigger] order@[i] as int,
                    #[trigger] remaining@[r] as int,
                ),
        decreases limit - order.len(),
    {
        let m = remaining.len();
        let mut p: usize = 0;
        let mut j: usize = 1;
        while j < m
            invariant
                m == remaining.len(),
                0 < m,
                n == keys.len(),
                p < j <= m,
                forall|i: int| 0 <= i < remaining.len() ==> #[trigger] remaining@[i] < n,
                forall|a: int, b: int|
                    0 <= a < b < remaining.len() ==> #[trigger] remaining@[a] != #[trigger] remaining@[b],
                forall|q: int|
                    0 <= q < j && q != p ==> ranks_before(
                        keys@,
                        remaining@[p as int] as int,
                        #[trigger] remaining@[q] as int,
                    ),
            decreases m - j,
        {
            if ranks_before_exec(keys, remaining[j], remaining[p]) {
                p = j;
            }
            j = j + 1;
        }
        let ghost old_remaining = remaining@;
        let ghost old_order = order@;
        let best = remaining.remove(p);
        order.push(best);
        proof {
            old_remaining.remove_ensures(p as int);
            assert forall|x: usize|
                x < n implies order@.contains(x) || #[trigger] remaining@.contains(x) by {
                if old_order.contains(x) {
                    let w = choose|w: int| 0 <= w < old_order.len() && old_order[w] == x;
                    assert(order@[w] == x);
                } else {
                    assert(old_remaining.contains(x));
                    let w = choose|w: int| 0 <= w < old_remaining.len() && old_remaining[w] == x;
                    if w == p {
                        assert(order@[order.len() - 1] == x);
                    } else if w < p {
                        assert(remaining@[w] == x);
                    } else {
                        assert(remaining@[w - 1] == x);
                    }
                }
            }
            assert forall|a: int, b: int|
                0 <= a < b < remaining.len() implies #[trigger] remaining@[a]
                != #[trigger] remaining@[b] by {
                let a0 = if a < p {
                    a
                } else {
                    a + 1
                };
                let b0 = if b < p {
                    b
                } else {
                    b + 1
                };
                assert(remaining@[a] == old_remaining[a0]);
                assert(remaining@[b] == old_remaining[b0]);
            }
            assert forall|i: int, r: int|
                0 <= i < order.len() && 0 <= r < remaining.len() implies ranks_before(
                keys@,
                #[trigger] order@[i] as int,
                #[trigger] remaining@[r] as int,
            ) by {
                let r0 = if r < p {
                    r
                } else {
                    r + 1
                };
                assert(remaining@[r] == old_remaining[r0]);
                if i < old_order.len() {
                    assert(order@[i] == old_order[i]);
                } else {
                    assert(order@[i] == old_remaining[p as int]);
                    assert(r0 != p);
                }
            }
            assert forall|i: int, j: int|
                0 <= i < j < order.len() implies ranks_before(
                keys@,
                #[trigger] order@[i] as int,
                #[trigger] order@[j] as int,
            ) by {
                if j < old_order.len() {
                    assert(order@[i] == old_order[i]);
                    assert(order@[j] == old_order[j]);
                } else {
                    assert(order@[i] == old_order[i]);
                    assert(order@[j] == old_remaining[p as int]);
                }
            }
        }
    }
    proof {
        assert forall|i: int, x: usize|
            0 <= i < order.len() && x < keys@.len() && !order@.contains(
                x,
            ) implies #[trigger] ranks_before(keys@, order@[i] as int, x as int) by {
            assert(remaining@.contains(x));
            let w = choose|w: int| 0 <= w < remaining.len() && remaining@[w] == x;
            assert(ranks_before(keys@, order@[i] as int, remaining@[w] as int));
        }
        law_top_k_length(keys@, k as nat, order@);
        law_top_k_order(keys@, k as nat, order@);
    }
    order
}

/// The `k` best positions for a list of scores given as bit patterns, best
/// first; equal scores keep their original order.
pub fn rank_scores(score_bits: &Vec<u64>, k: usize) -> (order: Vec<usize>)
    ensures
        is_top_k(keys_of(score_bits@), k as nat, order@),
        order@.len() == if k <= score_bits@.len() {
            k as int
        } else {
            score_bits@.len() as int
        },
        forall|i: int, j: int|
            0 <= i < j < order@.len() ==> !bits_less(
                score_bits@[order@[i] as int],
                score_bits@[order@[j] as int],
            ) && (!bits_less(score_bits@[order@[j] as int], score_bits@[order@[i] as int])
                ==> order@[i] < order@[j]),
{
    let keys = score_keys(score_bits);
    assert(keys@ =~= keys_of(score_bits@));
    let order = top_k_indices(&keys, k);
    proof {
        law_rank_scores_value_order(score_bits@, k as nat, order@);
    }
    order
}

/// `ranks_before` orders distinct positions totally: exactly one of two
/// distinct positions ranks ahead of the other.
pub proof fn lemma_ranks_before_total(keys: Seq<u64>, a: int, b: int)
    requires
        a != b,
    ensures
        ranks_before(keys, a, b) != ranks_before(keys, b, a),
{
}

/// The ranking is determined by the keys: two rankings of the same keys and
/// the same `k` are equal.
pub proof fn lemma_top_k_unique(keys: Seq<u64>, k: nat, o1: Seq<usize>, o2: Seq<usize>)
    requires
        is_top_k(keys, k, o1),
        is_top_k(keys, k, o2),
    ensures
        o1 == o2,
{
    assert forall|p: int| 0 <= p < o1.len() implies o1[p] == o2[p] by {
        lemma_top_k_agree_at(keys, k, o1, o2, p);
    }
    assert(o1 =~= o2);
}

proof fn lemma_top_k_agree_at(keys: Seq<u64>, k: nat, o1: Seq<usize>, o2: Seq<usize>, p: int)
    requires
        is_top_k(keys, k, o1),
        is_top_k(keys, k, o2),
        0 <= p < o1.len(),
    ensures
        o1[p] == o2[p],
    decreases p,
{
    if p > 0 {
        lemma_top_k_agree_at(keys, k, o1, o2, p - 1);
    }
    assert forall|q: int| 0 <= q < p implies o1[q] == o2[q] by {
        lemma_top_k_agree_at(keys, k, o1, o2, q);
    }
    let a = o1[p];
    let b = o2[p];
    if a != b {
        if ranks_before(keys, a as int, b as int) {
            // where does `a` stand in `o2`?
            if o2.contains(a) {
                let q = choose|q: int| 0 <= q < o2.len() && o2[q] == a;
                if q < p {
                    assert(o1[q] == a);
                    assert(ranks_before(keys, o1[q] as int, o1[p] as int));
                } else {
                    assert(q != p);
                    assert(ranks_before(keys, o2[p] as int, o2[q] as int));
                }
            } else {
                assert(ranks_before(keys, o2[p] as int, a as int));
            }
        } else {
            lemma_ranks_before_total(keys, a as int, b as int);
            if o1.contains(b) {
                let q = choose|q: int| 0 <= q < o1.len() && o1[q] == b;
                if q < p {
                    assert(o2[q] == b);
                    assert(ranks_before(keys, o2[q] as int, o2[p] as int));
                } else {
                    assert(q != p);
                    assert(ranks_before(keys, o1[p] as int, o1[q] as int));
                }
            } else {
                assert(ranks_before(keys, o1[p] as int, b as int));
            }
        }
    }
}

/// Asking for fewer entries gives a prefix of the longer ranking.
pub proof fn lemma_top_k_prefix(keys: Seq<u64>, k: nat, k2: nat, order: Seq<usize>)
    requires
        is_top_k(keys, k, order),
        k2 <= k,
    ensures
        is_top_k(keys, k2, order.take(min_nat(k2, keys.len()) as int)),
{
    let m = min_nat(k2, keys.len()) as int;
    let short = order.take(m);
    assert forall|i: int, x: usize|
        #![trigger ranks_before(keys, short[i] as int, x as int)]
        0 <= i < short.len() && x < keys.len() && !short.contains(x) implies ranks_before(
        keys,
        short[i] as int,
        x as int,
    ) by {
        assert(short[i] == order[i]);
        if order.contains(x) {
            let q = choose|q: int| 0 <= q < order.len() && order[q] == x;
            if q < m {
                assert(short[q] == x);
            } else {
                assert(ranks_before(keys, order[i] as int, order[q] as int));
            }
        } else {
            assert(ranks_before(keys, order[i] as int, x as int));
        }
    }
}

/// The first entry of a non-empty ranking carries the highest key.
pub proof fn lemma_top_k_first_is_max(keys: Seq<u64>, k: nat, order: Seq<usize>)
    requires
        is_top_k(keys, k, order),
        order.len() > 0,
    ensures
        forall|x: usize| x < keys.len() ==> keys[order[0] as int] >= #[trigger] keys[x as int],
{
    assert forall|x: usize| x < keys.len() implies keys[order[0] as int] >= #[trigger] keys[x as int] by {
        if x != order[0] {
            if order.contains(x) {
                let q = choose|q: int| 0 <= q < order.len() && order[q] == x;
                assert(q != 0);
                assert(ranks_before(keys, order[0] as int, order[q] as int));
            } else {
                assert(ranks_before(keys, order[0] as int, x as int));
            }
        }
    }
}

/// No score ranks above the first one returned: in value order, no entry's
/// score is greater than the score of the best-ranked entry.
pub proof fn lemma_rank_first_is_best(score_bits: Seq<u64>, k: nat, order: Seq<usize>)
    requires
        is_top_k(keys_of(score_bits), k, order),
        order.len() > 0,
    ensures
        forall|x: usize|
            x < score_bits.len() ==> !bits_less(score_bits[order[0] as int], #[trigger] score_bits[x as int]),
{
    lemma_top_k_first_is_max(keys_of(score_bits), k, order);
    assert forall|x: usize| x < score_bits.len() implies !bits_less(
        score_bits[order[0] as int],
        #[trigger] score_bits[x as int],
    ) by {
        lemma_score_key_order(score_bits[order[0] as int], score_bits[x as int]);
        assert(keys_of(score_bits)[x as int] == score_key_spec(score_bits[x as int]));
    }
}

/// `min_nat` is the smaller of its arguments.
pub proof fn law_min_nat(a: nat, b: nat)
    ensures
        min_nat(a, b) <= a,
        min_nat(a, b) <= b,
        min_nat(a, b) == a || min_nat(a, b) == b,
{
}

/// A ranking has `k` entries, or every entry when there are fewer than `k`.
pub proof fn law_top_k_length(keys: Seq<u64>, k: nat, order: Seq<usize>)
    requires
        is_top_k(keys, k, order),
    ensures
        order.len() == if k <= keys.len() {
            k as int
        } else {
            keys.len() as int
        },
{
    law_min_nat(k, keys.len());
}

/// A ranking lists distinct positions of `keys`, keys never increase along
/// it, and positions with equal keys appear in their original order.
pub proof fn law_top_k_order(keys: Seq<u64>, k: nat, order: Seq<usize>)
    requires
        is_top_k(keys, k, order),
    ensures
        forall|i: int| 0 <= i < order.len() ==> 0 <= #[trigger] order[i] < keys.len(),
        forall|i: int, j: int|
            0 <= i < j < order.len() ==> order[i] != order[j] && keys[order[i] as int]
                >= keys[order[j] as int],
        forall|i: int, j: int|
            0 <= i < j < order.len() && keys[order[i] as int] == keys[order[j] as int] ==> order[i]
                < order[j],
{
    assert forall|i: int, j: int| 0 <= i < j < order.len() implies order[i] != order[j]
        && keys[order[i] as int] >= keys[order[j] as int] && (keys[order[i] as int]
        == keys[order[j] as int] ==> order[i] < order[j]) by {
        assert(ranks_before(keys, order[i] as int, order[j] as int));
    }
}

/// No position left out of a ranking beats one kept in it: its key is no
/// higher, and when the keys are equal it comes later.
pub proof fn law_top_k_left_out(keys: Seq<u64>, k: nat, order: Seq<usize>, i: int, x: usize)
    requires
        is_top_k(keys, k, order),
        0 <= i < order.len(),
        x < keys.len(),
        !order.contains(x),
    ensures
        keys[order[i] as int] >= keys[x as int],
        keys[order[i] as int] == keys[x as int] ==> order[i] < x,
{
    assert(ranks_before(keys, order[i] as int, x as int));
}

/// The key list of a score list holds the key of each score at its place.
pub proof fn law_keys_of(bits: Seq<u64>)
    ensures
        keys_of(bits).len() == bits.len(),
        forall|i: int| 0 <= i < bits.len() ==> #[trigger] keys_of(bits)[i] == score_key_spec(bits[i]),
{
}

/// A ranking of scores follows value order at every position: no later
/// score is greater than an earlier one.
pub proof fn law_rank_scores_value_order(score_bits: Seq<u64>, k: nat, order: Seq<usize>)
    requires
        is_top_k(keys_of(score_bits), k, order),
    ensures
        forall|i: int, j: int|
            0 <= i < j < order.len() ==> !bits_less(
                score_bits[order[i] as int],
                score_bits[order[j] as int],
            ) && (!bits_less(score_bits[order[j] as int], score_bits[order[i] as int]) ==> order[i]
                < order[j]),
{
    law_keys_of(score_bits);
    law_top_k_order(keys_of(score_bits), k, order);
    assert forall|i: int, j: int| 0 <= i < j < order.len() implies !bits_less(
        score_bits[order[i] as int],
        score_bits[order[j] as int],
    ) && (!bits_less(score_bits[order[j] as int], score_bits[order[i] as int]) ==> order[i]
        < order[j]) by {
        let a = score_bits[order[i] as int];
        let b = score_bits[order[j] as int];
        lemma_score_key_order(a, b);
        lemma_score_key_order(b, a);
        assert(keys_of(score_bits)[order[i] as int] >= keys_of(score_bits)[order[j] as int]);
    }
}

} // verus!
