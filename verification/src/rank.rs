//! Stable descending ranking of scored entries.
//!
//! Every entry the aggregator collects is decorated with its match or
//! frequency score and its discovery position. The list is then sorted by
//! descending score, with the discovery position breaking ties, which makes
//! the order a total function of the scored input: the specification
//! `spec_sort` pins the output exactly.

use vstd::prelude::*;

use crate::entry::Entry;

verus! {

/// One scored entry: the entry itself, its ranking score, and the position at
/// which it was discovered (used as the stable tie-break).
pub struct RankedEntry {
    pub entry: Entry,
    pub score: u32,
    pub rank: usize,
}

/// Strict order: `a` must come before `b` — a higher score, or an equal score
/// and an earlier discovery position.
pub open spec fn precedes(a: RankedEntry, b: RankedEntry) -> bool {
    a.score > b.score || (a.score == b.score && a.rank < b.rank)
}

/// Non-strict order between ranking keys.
pub open spec fn key_le(a: RankedEntry, b: RankedEntry) -> bool {
    a.score > b.score || (a.score == b.score && a.rank <= b.rank)
}

/// Sorted by descending score, ties by ascending discovery position.
pub open spec fn sorted(s: Seq<RankedEntry>) -> bool {
    forall|i: int, j: int| 0 <= i < j < s.len() ==> key_le(#[trigger] s[i], #[trigger] s[j])
}

/// Insert `x` into the sorted sequence `s`, after every element it does not
/// strictly precede: a stable insertion.
pub open spec fn spec_insert(s: Seq<RankedEntry>, x: RankedEntry) -> Seq<RankedEntry>
    decreases s.len(),
{
    if s.len() == 0 {
        seq![x]
    } else if precedes(x, s[0]) {
        seq![x] + s
    } else {
        seq![s[0]] + spec_insert(s.drop_first(), x)
    }
}

/// Stable insertion sort, processing the input left to right.
pub open spec fn spec_sort(s: Seq<RankedEntry>) -> Seq<RankedEntry>
    decreases s.len(),
{
    if s.len() == 0 {
        Seq::empty()
    } else {
        spec_insert(spec_sort(s.drop_last()), s.last())
    }
}

/// Insertion keeps the length and adds exactly the inserted element.
proof fn lemma_insert_len(s: Seq<RankedEntry>, x: RankedEntry)
    ensures
        spec_insert(s, x).len() == s.len() + 1,
    decreases s.len(),
{
    if s.len() != 0 && !precedes(x, s[0]) {
        lemma_insert_len(s.drop_first(), x);
    }
}

/// The sorted output has the input's length.
pub proof fn lemma_sort_len(s: Seq<RankedEntry>)
    ensures
        spec_sort(s).len() == s.len(),
    decreases s.len(),
{
    if s.len() != 0 {
        lemma_sort_len(s.drop_last());
        lemma_insert_len(spec_sort(s.drop_last()), s.last());
    }
}

/// Inserting into a sorted sequence keeps it sorted.
proof fn lemma_insert_sorted(s: Seq<RankedEntry>, x: RankedEntry)
    requires
        sorted(s),
    ensures
        sorted(spec_insert(s, x)),
    decreases s.len(),
{
    lemma_insert_len(s, x);
    if s.len() == 0 {
    } else if precedes(x, s[0]) {
        let out = seq![x] + s;
        assert forall|i: int, j: int| 0 <= i < j < out.len() implies key_le(out[i], out[j]) by {
            if i == 0 {
                assert(out[j] == s[j - 1]);
                if j > 1 {
                    assert(key_le(s[0], s[j - 1]));
                }
            } else {
                assert(out[i] == s[i - 1] && out[j] == s[j - 1]);
            }
        }
    } else {
        assert(forall|i: int, j: int|
            0 <= i < j < s.drop_first().len() ==> key_le(
                #[trigger] s.drop_first()[i],
                #[trigger] s.drop_first()[j],
            ));
        lemma_insert_sorted(s.drop_first(), x);
        lemma_insert_len(s.drop_first(), x);
        let rest = spec_insert(s.drop_first(), x);
        let out = seq![s[0]] + rest;
        lemma_insert_members(s.drop_first(), x);
        assert forall|i: int, j: int| 0 <= i < j < out.len() implies key_le(out[i], out[j]) by {
            if i == 0 {
                assert(out[j] == rest[j - 1]);
                if !precedes(x, s[0]) {
                    assert(key_le(s[0], x));
                }
            } else {
                assert(out[i] == rest[i - 1] && out[j] == rest[j - 1]);
            }
        }
    }
}

/// Every element of an insertion result is the inserted element or one of the
/// original elements.
proof fn lemma_insert_members(s: Seq<RankedEntry>, x: RankedEntry)
    ensures
        forall|k: int|
            0 <= k < spec_insert(s, x).len() ==> #[trigger] spec_insert(s, x)[k] == x || exists|m: int|
                0 <= m < s.len() && s[m] == spec_insert(s, x)[k],
    decreases s.len(),
{
    lemma_insert_len(s, x);
    if s.len() == 0 {
    } else if precedes(x, s[0]) {
        assert forall|k: int| 0 <= k < spec_insert(s, x).len() implies #[trigger] spec_insert(s, x)[k]
            == x || exists|m: int| 0 <= m < s.len() && s[m] == spec_insert(s, x)[k] by {
            if k > 0 {
                assert(s[k - 1] == spec_insert(s, x)[k]);
            }
        }
    } else {
        lemma_insert_members(s.drop_first(), x);
        lemma_insert_len(s.drop_first(), x);
        let rest = spec_insert(s.drop_first(), x);
        assert forall|k: int| 0 <= k < spec_insert(s, x).len() implies #[trigger] spec_insert(s, x)[k]
            == x || exists|m: int| 0 <= m < s.len() && s[m] == spec_insert(s, x)[k] by {
            if k == 0 {
                assert(s[0] == spec_insert(s, x)[0]);
            } else {
                assert(spec_insert(s, x)[k] == rest[k - 1]);
                let y = rest[k - 1];
                if y != x {
                    let m = choose|m: int| 0 <= m < s.drop_first().len() && s.drop_first()[m] == y;
                    assert(s[m + 1] == y);
                }
            }
        }
    }
}

/// The sorted output is sorted.
pub proof fn lemma_sort_sorted(s: Seq<RankedEntry>)
    ensures
        sorted(spec_sort(s)),
    decreases s.len(),
{
    if s.len() != 0 {
        lemma_sort_sorted(s.drop_last());
        lemma_insert_sorted(spec_sort(s.drop_last()), s.last());
    }
}

/// Insertion adds exactly the inserted element to the multiset of elements.
proof fn lemma_insert_multiset(s: Seq<RankedEntry>, x: RankedEntry)
    ensures
        spec_insert(s, x).to_multiset() =~= s.to_multiset().insert(x),
    decreases s.len(),
{
    broadcast use vstd::seq_lib::group_to_multiset_ensures;

    if s.len() == 0 {
        assert(seq![x] =~= Seq::<RankedEntry>::empty().push(x));
    } else if precedes(x, s[0]) {
        vstd::seq_lib::lemma_multiset_commutative(seq![x], s);
        assert(seq![x].to_multiset() =~= Seq::<RankedEntry>::empty().push(x).to_multiset());
    } else {
        lemma_insert_multiset(s.drop_first(), x);
        vstd::seq_lib::lemma_multiset_commutative(seq![s[0]], spec_insert(s.drop_first(), x));
        vstd::seq_lib::lemma_multiset_commutative(seq![s[0]], s.drop_first());
        assert(seq![s[0]] + s.drop_first() =~= s);
        assert(seq![s[0]].to_multiset() =~= Seq::<RankedEntry>::empty().push(s[0]).to_multiset());
    }
}

/// The sorted output is a permutation of the input: the same entries with the
/// same scores and positions, nothing lost and nothing added.
pub proof fn lemma_sort_multiset(s: Seq<RankedEntry>)
    ensures
        spec_sort(s).to_multiset() =~= s.to_multiset(),
    decreases s.len(),
{
    broadcast use vstd::seq_lib::group_to_multiset_ensures;

    if s.len() != 0 {
        lemma_sort_multiset(s.drop_last());
        lemma_insert_multiset(spec_sort(s.drop_last()), s.last());
        assert(s.drop_last().push(s.last()) =~= s);
    }
}

/// Two scored lists agree position by position on score and discovery
/// position.
pub open spec fn same_keys(a: Seq<RankedEntry>, b: Seq<RankedEntry>) -> bool {
    &&& a.len() == b.len()
    &&& forall|i: int|
        0 <= i < a.len() ==> (#[trigger] a[i]).score == (#[trigger] b[i]).score && a[i].rank
            == b[i].rank
}

/// Insertion decisions depend only on the keys.
proof fn lemma_insert_same_keys(a: Seq<RankedEntry>, b: Seq<RankedEntry>, x: RankedEntry, y: RankedEntry)
    requires
        same_keys(a, b),
        x.score == y.score,
        x.rank == y.rank,
    ensures
        same_keys(spec_insert(a, x), spec_insert(b, y)),
    decreases a.len(),
{
    lemma_insert_len(a, x);
    lemma_insert_len(b, y);
    if a.len() == 0 {
    } else if precedes(x, a[0]) {
        assert(precedes(y, b[0]));
    } else {
        assert(!precedes(y, b[0]));
        assert(same_keys(a.drop_first(), b.drop_first()));
        lemma_insert_same_keys(a.drop_first(), b.drop_first(), x, y);
        assert forall|i: int|
            0 <= i < spec_insert(a, x).len() implies (#[trigger] spec_insert(a, x)[i]).score
            == (#[trigger] spec_insert(b, y)[i]).score && spec_insert(a, x)[i].rank == spec_insert(
            b,
            y,
        )[i].rank by {
            if i > 0 {
                assert(spec_insert(a, x)[i] == spec_insert(a.drop_first(), x)[i - 1]);
                assert(spec_insert(b, y)[i] == spec_insert(b.drop_first(), y)[i - 1]);
            }
        }
    }
}

/// Ranking stability: the order is a function of the ranking keys alone.
/// Two default-list computations over unchanged scores arrange the items —
/// identified by their discovery positions — identically: position for
/// position, the same item with the same score.
pub proof fn lemma_ranking_stable(a: Seq<RankedEntry>, b: Seq<RankedEntry>)
    requires
        same_keys(a, b),
    ensures
        same_keys(spec_sort(a), spec_sort(b)),
    decreases a.len(),
{
    if a.len() != 0 {
        assert(same_keys(a.drop_last(), b.drop_last()));
        lemma_ranking_stable(a.drop_last(), b.drop_last());
        lemma_insert_same_keys(spec_sort(a.drop_last()), spec_sort(b.drop_last()), a.last(), b.last());
    }
}

/// How many elements of `c` strictly precede `z` in the ranking order.
pub open spec fn count_preceding(c: Seq<RankedEntry>, z: RankedEntry) -> int
    decreases c.len(),
{
    if c.len() == 0 {
        0
    } else {
        count_preceding(c.drop_last(), z) + if precedes(c.last(), z) {
            1int
        } else {
            0int
        }
    }
}

proof fn lemma_count_concat(a: Seq<RankedEntry>, b: Seq<RankedEntry>, z: RankedEntry)
    ensures
        count_preceding(a + b, z) == count_preceding(a, z) + count_preceding(b, z),
    decreases b.len(),
{
    if b.len() == 0 {
        assert(a + b =~= a);
    } else {
        assert((a + b).drop_last() =~= a + b.drop_last());
        assert((a + b).last() == b.last());
        lemma_count_concat(a, b.drop_last(), z);
    }
}

proof fn lemma_insert_count(s: Seq<RankedEntry>, x: RankedEntry, z: RankedEntry)
    ensures
        count_preceding(spec_insert(s, x), z) == count_preceding(s, z) + if precedes(x, z) {
            1int
        } else {
            0int
        },
    decreases s.len(),
{
    if s.len() == 0 {
        assert(seq![x].drop_last() =~= Seq::<RankedEntry>::empty());
        assert(seq![x].last() == x);
        assert(count_preceding(Seq::<RankedEntry>::empty(), z) == 0);
        assert(count_preceding(seq![x], z) == if precedes(x, z) {
            1int
        } else {
            0int
        });
    } else if precedes(x, s[0]) {
        lemma_count_concat(seq![x], s, z);
        assert(seq![x].drop_last() =~= Seq::<RankedEntry>::empty());
        assert(seq![x].last() == x);
        assert(count_preceding(Seq::<RankedEntry>::empty(), z) == 0);
        assert(count_preceding(seq![x], z) == if precedes(x, z) {
            1int
        } else {
            0int
        });
    } else {
        lemma_insert_count(s.drop_first(), x, z);
        lemma_count_concat(seq![s[0]], spec_insert(s.drop_first(), x), z);
        assert(seq![s[0]] + s.drop_first() =~= s);
        lemma_count_concat(seq![s[0]], s.drop_first(), z);
        assert(seq![s[0]].drop_last() =~= Seq::<RankedEntry>::empty());
        assert(seq![s[0]].last() == s[0]);
        assert(count_preceding(Seq::<RankedEntry>::empty(), z) == 0);
        assert(count_preceding(seq![s[0]], z) == if precedes(s[0], z) {
            1int
        } else {
            0int
        });
    }
}

/// Sorting does not change how many elements precede a given key.
proof fn lemma_sort_count(c: Seq<RankedEntry>, z: RankedEntry)
    ensures
        count_preceding(spec_sort(c), z) == count_preceding(c, z),
    decreases c.len(),
{
    if c.len() > 0 {
        lemma_sort_count(c.drop_last(), z);
        lemma_insert_count(spec_sort(c.drop_last()), c.last(), z);
    }
}

/// No two elements share a discovery position.
pub open spec fn distinct_ranks(s: Seq<RankedEntry>) -> bool {
    forall|i: int, j: int| 0 <= i < j < s.len() ==> (#[trigger] s[i]).rank != (#[trigger] s[j]).rank
}

/// Some element carries this discovery position.
pub open spec fn rank_in(s: Seq<RankedEntry>, rk: usize) -> bool {
    exists|i: int| 0 <= i < s.len() && (#[trigger] s[i]).rank == rk
}

proof fn lemma_insert_distinct(s: Seq<RankedEntry>, x: RankedEntry)
    requires
        distinct_ranks(s),
        !rank_in(s, x.rank),
    ensures
        distinct_ranks(spec_insert(s, x)),
        forall|rk: usize|
            #[trigger] rank_in(spec_insert(s, x), rk) == (rank_in(s, rk) || rk == x.rank),
    decreases s.len(),
{
    lemma_insert_len(s, x);
    if s.len() == 0 {
        assert forall|rk: usize|
            #[trigger] rank_in(spec_insert(s, x), rk) == (rank_in(s, rk) || rk == x.rank) by {
            if rank_in(spec_insert(s, x), rk) {
                assert(spec_insert(s, x)[0].rank == x.rank);
            }
            if rk == x.rank {
                assert(spec_insert(s, x)[0].rank == rk);
            }
        }
    } else if precedes(x, s[0]) {
        let out = seq![x] + s;
        assert forall|i: int, j: int|
            0 <= i < j < out.len() implies (#[trigger] out[i]).rank != (#[trigger] out[j]).rank by {
            if i == 0 {
                assert(out[j] == s[j - 1]);
                if x.rank == s[j - 1].rank {
                    assert(rank_in(s, x.rank));
                }
            } else {
                assert(out[i] == s[i - 1] && out[j] == s[j - 1]);
            }
        }
        assert forall|rk: usize|
            #[trigger] rank_in(out, rk) == (rank_in(s, rk) || rk == x.rank) by {
            if rank_in(out, rk) {
                let w = choose|w: int| 0 <= w < out.len() && out[w].rank == rk;
                if w > 0 {
                    assert(s[w - 1].rank == rk);
                }
            }
            if rank_in(s, rk) {
                let w = choose|w: int| 0 <= w < s.len() && s[w].rank == rk;
                assert(out[w + 1].rank == rk);
            }
            if rk == x.rank {
                assert(out[0].rank == rk);
            }
        }
    } else {
        assert(distinct_ranks(s.drop_first()));
        assert forall|rk: usize| rank_in(s.drop_first(), rk) implies rank_in(s, rk) by {
            let w = choose|w: int| 0 <= w < s.drop_first().len() && s.drop_first()[w].rank == rk;
            assert(s[w + 1].rank == rk);
        }
        lemma_insert_distinct(s.drop_first(), x);
        let rest = spec_insert(s.drop_first(), x);
        let out = seq![s[0]] + rest;
        assert forall|i: int, j: int|
            0 <= i < j < out.len() implies (#[trigger] out[i]).rank != (#[trigger] out[j]).rank by {
            if i == 0 {
                assert(out[j] == rest[j - 1]);
                assert(rank_in(rest, rest[j - 1].rank));
                if s[0].rank == rest[j - 1].rank {
                    if rank_in(s.drop_first(), s[0].rank) {
                        let w = choose|w: int|
                            0 <= w < s.drop_first().len() && s.drop_first()[w].rank == s[0].rank;
                        assert(s[w + 1].rank == s[0].rank);
                    }
                }
            } else {
                assert(out[i] == rest[i - 1] && out[j] == rest[j - 1]);
            }
        }
        assert forall|rk: usize|
            #[trigger] rank_in(out, rk) == (rank_in(s, rk) || rk == x.rank) by {
            if rank_in(out, rk) {
                let w = choose|w: int| 0 <= w < out.len() && out[w].rank == rk;
                if w == 0 {
                    assert(s[0].rank == rk);
                } else {
                    assert(rank_in(rest, rk));
                    if rank_in(s.drop_first(), rk) {
                        let u = choose|u: int|
                            0 <= u < s.drop_first().len() && s.drop_first()[u].rank == rk;
                        assert(s[u + 1].rank == rk);
                    }
                }
            }
            if rank_in(s, rk) {
                let w = choose|w: int| 0 <= w < s.len() && s[w].rank == rk;
                if w == 0 {
                    assert(out[0].rank == rk);
                } else {
                    assert(s.drop_first()[w - 1].rank == rk);
                    assert(rank_in(rest, rk));
                    let u = choose|u: int| 0 <= u < rest.len() && rest[u].rank == rk;
                    assert(out[u + 1].rank == rk);
                }
            }
            if rk == x.rank {
                assert(rank_in(rest, rk));
                let u = choose|u: int| 0 <= u < rest.len() && rest[u].rank == rk;
                assert(out[u + 1].rank == rk);
            }
        }
    }
}

/// Sorting keeps discovery positions distinct.
proof fn lemma_sort_distinct(c: Seq<RankedEntry>)
    requires
        distinct_ranks(c),
    ensures
        distinct_ranks(spec_sort(c)),
        forall|rk: usize| #[trigger] rank_in(spec_sort(c), rk) == rank_in(c, rk),
    decreases c.len(),
{
    if c.len() == 0 {
        assert forall|rk: usize| #[trigger] rank_in(spec_sort(c), rk) == rank_in(c, rk) by {}
    } else {
        let p = c.drop_last();
        assert(distinct_ranks(p));
        lemma_sort_distinct(p);
        assert(!rank_in(p, c.last().rank)) by {
            if rank_in(p, c.last().rank) {
                let w = choose|w: int| 0 <= w < p.len() && p[w].rank == c.last().rank;
                assert(c[w].rank == c[c.len() - 1].rank);
            }
        }
        lemma_insert_distinct(spec_sort(p), c.last());
        assert forall|rk: usize| #[trigger] rank_in(spec_sort(c), rk) == rank_in(c, rk) by {
            assert(rank_in(spec_sort(c), rk) == (rank_in(spec_sort(p), rk) || rk == c.last().rank));
            if rank_in(p, rk) {
                let w = choose|w: int| 0 <= w < p.len() && p[w].rank == rk;
                assert(c[w].rank == rk);
            }
            if rank_in(c, rk) && rk != c.last().rank {
                let w = choose|w: int| 0 <= w < c.len() && c[w].rank == rk;
                assert(w < c.len() - 1);
                assert(p[w].rank == rk);
            }
        }
    }
}

/// In a sequence where exactly the first `m` elements precede `z`, the count
/// is `m`.
proof fn lemma_count_prefix(s: Seq<RankedEntry>, z: RankedEntry, m: int)
    requires
        0 <= m <= s.len(),
        forall|k: int| 0 <= k < m ==> precedes(#[trigger] s[k], z),
        forall|k: int| m <= k < s.len() ==> !precedes(#[trigger] s[k], z),
    ensures
        count_preceding(s, z) == m,
    decreases s.len(),
{
    if s.len() > 0 {
        if m == s.len() {
            assert(precedes(s.last(), z));
            assert(forall|k: int| 0 <= k < m - 1 ==> precedes(#[trigger] s.drop_last()[k], z));
            lemma_count_prefix(s.drop_last(), z, m - 1);
        } else {
            assert(!precedes(s.last(), z));
            assert(forall|k: int| 0 <= k < m ==> precedes(#[trigger] s.drop_last()[k], z));
            assert(forall|k: int|
                m <= k < s.drop_last().len() ==> !precedes(#[trigger] s.drop_last()[k], z));
            lemma_count_prefix(s.drop_last(), z, m);
        }
    }
}

/// In a sorted output with distinct discovery positions, an element's index
/// equals the number of elements that strictly precede it.
proof fn lemma_index_is_count(s: Seq<RankedEntry>, i: int)
    requires
        sorted(s),
        distinct_ranks(s),
        0 <= i < s.len(),
    ensures
        count_preceding(s, s[i]) == i,
{
    assert forall|k: int| 0 <= k < i implies precedes(#[trigger] s[k], s[i]) by {
        assert(key_le(s[k], s[i]));
    }
    assert forall|k: int| i <= k < s.len() implies !precedes(#[trigger] s[k], s[i]) by {
        if k > i {
            assert(key_le(s[i], s[k]));
        }
    }
    lemma_count_prefix(s, s[i], i);
}

/// Pointwise implication between two lists gives an inequality of counts.
proof fn lemma_count_pointwise_le(
    a: Seq<RankedEntry>,
    b: Seq<RankedEntry>,
    za: RankedEntry,
    zb: RankedEntry,
)
    requires
        a.len() == b.len(),
        forall|k: int|
            0 <= k < a.len() ==> (precedes(#[trigger] b[k], zb) ==> precedes(#[trigger] a[k], za)),
    ensures
        count_preceding(b, zb) <= count_preceding(a, za),
    decreases a.len(),
{
    if a.len() > 0 {
        assert(forall|k: int|
            0 <= k < a.drop_last().len() ==> (precedes(#[trigger] b.drop_last()[k], zb) ==> precedes(
                #[trigger] a.drop_last()[k],
                za,
            )));
        lemma_count_pointwise_le(a.drop_last(), b.drop_last(), za, zb);
        assert(a.last() == a[a.len() - 1] && b.last() == b[b.len() - 1]);
    }
}

/// When discovery positions index the input, the sorted element bearing
/// position `t` is the input's element at `t`.
pub proof fn lemma_sorted_element_by_rank(c: Seq<RankedEntry>, i: int, t: int)
    requires
        forall|k: int| 0 <= k < c.len() ==> (#[trigger] c[k]).rank == k,
        0 <= i < spec_sort(c).len(),
        spec_sort(c)[i].rank == t,
    ensures
        0 <= t < c.len(),
        spec_sort(c)[i] == c[t],
{
    broadcast use vstd::seq_lib::group_to_multiset_ensures;

    lemma_sort_multiset(c);
    lemma_sort_len(c);
    let x = spec_sort(c)[i];
    assert(spec_sort(c).contains(x));
    assert(spec_sort(c).to_multiset().count(x) > 0);
    assert(c.to_multiset().count(x) > 0);
    assert(c.contains(x));
    let k = choose|k: int| 0 <= k < c.len() && c[k] == x;
    assert(c[k].rank == k);
}

/// An element that strictly precedes every other element of the input comes
/// out first: with discovery positions indexing the input, if the element at
/// position 0 precedes all the rest, sorting puts it at the head.
pub proof fn lemma_top_element(c: Seq<RankedEntry>)
    requires
        c.len() > 0,
        forall|k: int| 0 <= k < c.len() ==> (#[trigger] c[k]).rank == k,
        forall|k: int| 1 <= k < c.len() ==> precedes(c[0], #[trigger] c[k]),
    ensures
        spec_sort(c).len() == c.len(),
        spec_sort(c)[0] == c[0],
{
    broadcast use vstd::seq_lib::group_to_multiset_ensures;

    assert forall|p: int, q: int|
        0 <= p < q < c.len() implies (#[trigger] c[p]).rank != (#[trigger] c[q]).rank by {
        assert(c[p].rank == p && c[q].rank == q);
    }
    lemma_sort_len(c);
    lemma_sort_sorted(c);
    lemma_sort_distinct(c);
    lemma_sort_multiset(c);
    assert(c.contains(c[0]));
    assert(c.to_multiset().count(c[0]) > 0);
    assert(spec_sort(c).to_multiset().count(c[0]) > 0);
    assert(spec_sort(c).contains(c[0]));
    let i = choose|i: int| 0 <= i < spec_sort(c).len() && spec_sort(c)[i] == c[0];
    lemma_index_is_count(spec_sort(c), i);
    lemma_sort_count(c, c[0]);
    assert forall|k: int| 0 <= k < c.len() implies !precedes(#[trigger] c[k], c[0]) by {
        if k > 0 {
            assert(precedes(c[0], c[k]));
        }
    }
    lemma_count_prefix(c, c[0], 0);
    assert(i == 0);
}

/// Frequency and rank: raising one item's score while every other score is
/// unchanged never moves that item lower in the ranking. The item is
/// identified by its discovery position `t`; `i` and `j` are its places in
/// the two rankings.
pub proof fn lemma_raised_score_rank_no_lower(
    a: Seq<RankedEntry>,
    b: Seq<RankedEntry>,
    t: int,
    i: int,
    j: int,
)
    requires
        a.len() == b.len(),
        0 <= t < a.len(),
        forall|k: int| 0 <= k < a.len() ==> (#[trigger] a[k]).rank == k,
        forall|k: int| 0 <= k < b.len() ==> (#[trigger] b[k]).rank == k,
        forall|k: int| 0 <= k < a.len() && k != t ==> (#[trigger] a[k]).score == (#[trigger] b[k]).score,
        a[t].score <= b[t].score,
        0 <= i < spec_sort(a).len(),
        spec_sort(a)[i] == a[t],
        0 <= j < spec_sort(b).len(),
        spec_sort(b)[j] == b[t],
    ensures
        j <= i,
{
    assert forall|p: int, q: int|
        0 <= p < q < a.len() implies (#[trigger] a[p]).rank != (#[trigger] a[q]).rank by {
        assert(a[p].rank == p && a[q].rank == q);
    }
    assert forall|p: int, q: int|
        0 <= p < q < b.len() implies (#[trigger] b[p]).rank != (#[trigger] b[q]).rank by {
        assert(b[p].rank == p && b[q].rank == q);
    }
    assert(distinct_ranks(a));
    assert(distinct_ranks(b));
    lemma_sort_sorted(a);
    lemma_sort_sorted(b);
    lemma_sort_distinct(a);
    lemma_sort_distinct(b);
    lemma_index_is_count(spec_sort(a), i);
    lemma_index_is_count(spec_sort(b), j);
    lemma_sort_count(a, a[t]);
    lemma_sort_count(b, b[t]);
    assert forall|k: int|
        0 <= k < a.len() && precedes(#[trigger] b[k], b[t]) implies precedes(
        #[trigger] a[k],
        a[t],
    ) by {
        assert(k != t);
    }
    lemma_count_pointwise_le(a, b, a[t], b[t]);
}

/// Splitting `spec_insert` at the found position: if `x` strictly follows
/// everything before `p` and strictly precedes the element at `p`, the
/// insertion puts `x` exactly at `p`.
proof fn lemma_insert_at(s: Seq<RankedEntry>, x: RankedEntry, p: int)
    requires
        0 <= p <= s.len(),
        forall|k: int| 0 <= k < p ==> !precedes(x, #[trigger] s[k]),
        p < s.len() ==> precedes(x, s[p as int]),
    ensures
        spec_insert(s, x) =~= s.take(p).push(x) + s.skip(p),
    decreases s.len(),
{
    if s.len() == 0 {
        assert(s.take(0).push(x) + s.skip(0) =~= seq![x]);
    } else if p == 0 {
        assert(precedes(x, s[0]));
        assert(s.take(0).push(x) + s.skip(0) =~= seq![x] + s);
    } else {
        assert(!precedes(x, s[0]));
        assert(forall|k: int| 0 <= k < p - 1 ==> s.drop_first()[k] == s[k + 1]);
        lemma_insert_at(s.drop_first(), x, p - 1);
        assert(spec_insert(s, x) == seq![s[0]] + spec_insert(s.drop_first(), x));
        assert(seq![s[0]] + (s.drop_first().take(p - 1).push(x) + s.drop_first().skip(p - 1)) =~= s
            .take(p).push(x) + s.skip(p));
    }
}

/// Sort a scored list: the result is exactly `spec_sort` of the input —
/// descending by score, stable by discovery position.
pub fn sort_ranked(input: Vec<RankedEntry>) -> (r: Vec<RankedEntry>)
    ensures
        r@ == spec_sort(input@),
{
    let ghost orig = input@;
    let total = input.len();
    let mut v = input;
    let mut out: Vec<RankedEntry> = Vec::new();
    let mut taken: usize = 0;
    while v.len() > 0
        invariant
            taken + v@.len() == total,
            total == orig.len(),
            orig.take(taken as int) + v@ =~= orig,
            out@ == spec_sort(orig.take(taken as int)),
        decreases v@.len(),
    {
        let x = v.remove(0);
        assert(x == orig[taken as int]);
        let ghost prefix = orig.take(taken as int);
        proof {
            lemma_sort_len(prefix);
        }
        // find the stable insertion position for x
        let mut p: usize = 0;
        while p < out.len() && !precedes_exec(&x, &out[p])
            invariant
                p <= out@.len(),
                forall|k: int| 0 <= k < p ==> !precedes(x, #[trigger] out@[k]),
            decreases out@.len() - p,
        {
            p += 1;
        }
        out.insert(p, x);
        proof {
            lemma_insert_at(spec_sort(prefix), x, p as int);
            assert(out@ =~= spec_sort(prefix).take(p as int).push(x) + spec_sort(prefix).skip(
                p as int,
            ));
            assert(orig.take(taken + 1).drop_last() =~= prefix);
            assert(orig.take(taken + 1).last() == x);
            assert(out@ == spec_sort(orig.take(taken + 1)));
        }
        taken += 1;
        assert(orig.take(taken as int) + v@ =~= orig);
    }
    assert(orig.take(taken as int) =~= orig);
    out
}

/// The strict ranking order, as executable code.
fn precedes_exec(a: &RankedEntry, b: &RankedEntry) -> (r: bool)
    ensures
        r == precedes(*a, *b),
{
    a.score > b.score || (a.score == b.score && a.rank < b.rank)
}

} // verus!
