//! The mathematical model of identity densification: raw customer
//! identifiers are assigned dense virtual indices in first-seen order.
//!
//! [`dmap`] is the map an ordered identifier sequence induces: the
//! first occurrence of each distinct identifier receives the next free
//! index, starting at `0`. [`dcount`] counts the distinct identifiers,
//! so `dmap` is a bijection between the identifiers seen and the
//! indices `0 .. dcount` ([`lemma_identity_map_bijective`]).

use vstd::prelude::*;

verus! {

/// The number of distinct identifiers in `ids`.
pub open spec fn dcount(ids: Seq<usize>) -> int
    decreases ids.len(),
{
    if ids.len() == 0 {
        0
    } else {
        dcount(ids.drop_last()) + if ids.drop_last().contains(ids.last()) {
            0int
        } else {
            1int
        }
    }
}

/// The identity map induced by `ids`: each distinct identifier, at its
/// first occurrence, is assigned the next free virtual index.
pub open spec fn dmap(ids: Seq<usize>) -> Map<usize, usize>
    decreases ids.len(),
{
    if ids.len() == 0 {
        Map::empty()
    } else {
        let prev = dmap(ids.drop_last());
        if ids.drop_last().contains(ids.last()) {
            prev
        } else {
            prev.insert(ids.last(), dcount(ids.drop_last()) as usize)
        }
    }
}

/// How many times `x` occurs in `ids`.
pub open spec fn count_occ(ids: Seq<usize>, x: usize) -> int
    decreases ids.len(),
{
    if ids.len() == 0 {
        0
    } else {
        count_occ(ids.drop_last(), x) + if ids.last() == x {
            1int
        } else {
            0int
        }
    }
}

/// The identifiers first seen in the test phase: those of `eids`, in
/// first-occurrence order, that never occur in `tids`, each listed
/// once.
pub open spec fn stragglers(tids: Seq<usize>, eids: Seq<usize>) -> Seq<usize>
    decreases eids.len(),
{
    if eids.len() == 0 {
        Seq::empty()
    } else {
        let prev = stragglers(tids, eids.drop_last());
        let x = eids.last();
        if !tids.contains(x) && !eids.drop_last().contains(x) {
            prev.push(x)
        } else {
            prev
        }
    }
}

/// Whether some identifier of `ids` is assigned the virtual index `v`.
pub open spec fn index_assigned(ids: Seq<usize>, v: usize) -> bool {
    exists|x: usize| ids.contains(x) && #[trigger] dmap(ids)[x] == v
}

/// Sum of a sequence of counters.
pub open spec fn sum_u32(s: Seq<u32>) -> int
    decreases s.len(),
{
    if s.len() == 0 {
        0
    } else {
        sum_u32(s.drop_last()) + s.last()
    }
}

/// Unfolding `dcount` and `dmap` over one appended identifier.
pub proof fn lemma_dmap_push(ids: Seq<usize>, x: usize)
    ensures
        dcount(ids.push(x)) == dcount(ids) + (if ids.contains(x) {
            0int
        } else {
            1int
        }),
        dmap(ids.push(x)) == (if ids.contains(x) {
            dmap(ids)
        } else {
            dmap(ids).insert(x, dcount(ids) as usize)
        }),
        count_occ(ids.push(x), x) == count_occ(ids, x) + 1,
        forall|y: usize| y != x ==> count_occ(ids.push(x), y) == count_occ(ids, y),
        forall|y: usize| ids.push(x).contains(y) <==> ids.contains(y) || y == x,
{
    assert(ids.push(x).drop_last() =~= ids);
    assert forall|y: usize| ids.push(x).contains(y) <==> ids.contains(y) || y == x by {
        if ids.push(x).contains(y) {
            let k = choose|k: int| 0 <= k < ids.push(x).len() && ids.push(x)[k] == y;
            if k < ids.len() {
                assert(ids[k] == y);
            }
        }
        if ids.contains(y) {
            let k = choose|k: int| 0 <= k < ids.len() && ids[k] == y;
            assert(ids.push(x)[k] == y);
        }
        if y == x {
            assert(ids.push(x)[ids.len() as int] == y);
        }
    }
}

/// Appending one identifier extends the contents by exactly it.
pub proof fn lemma_contains_push(ids: Seq<usize>, x: usize)
    ensures
        forall|y: usize| ids.push(x).contains(y) <==> ids.contains(y) || y == x,
{
    assert forall|y: usize| ids.push(x).contains(y) <==> ids.contains(y) || y == x by {
        if ids.push(x).contains(y) {
            let k = choose|k: int| 0 <= k < ids.push(x).len() && ids.push(x)[k] == y;
            if k < ids.len() {
                assert(ids[k] == y);
            }
        }
        if ids.contains(y) {
            let k = choose|k: int| 0 <= k < ids.len() && ids[k] == y;
            assert(ids.push(x)[k] == y);
        }
        if y == x {
            assert(ids.push(x)[ids.len() as int] == y);
        }
    }
}

/// An identifier that never occurs has a zero occurrence count.
pub proof fn lemma_count_occ_zero(ids: Seq<usize>, x: usize)
    requires
        !ids.contains(x),
    ensures
        count_occ(ids, x) == 0,
    decreases ids.len(),
{
    if ids.len() > 0 {
        assert(!ids.drop_last().contains(x)) by {
            if ids.drop_last().contains(x) {
                let k = choose|k: int| 0 <= k < ids.drop_last().len() && ids.drop_last()[k] == x;
                assert(ids[k] == x);
            }
        }
        assert(ids.last() != x) by {
            if ids.last() == x {
                assert(ids[ids.len() - 1] == x);
            }
        }
        lemma_count_occ_zero(ids.drop_last(), x);
    }
}

/// Occurrence counts never exceed the sequence length.
pub proof fn lemma_count_occ_le_len(ids: Seq<usize>, x: usize)
    ensures
        0 <= count_occ(ids, x) <= ids.len(),
    decreases ids.len(),
{
    if ids.len() > 0 {
        lemma_count_occ_le_len(ids.drop_last(), x);
    }
}

/// The identity map is a bijection between the identifiers of `ids`
/// and the dense index range `0 .. dcount(ids)`: every identifier in
/// `ids` is assigned exactly one index below `dcount(ids)`, distinct
/// identifiers receive distinct indices, every index below
/// `dcount(ids)` is assigned, and nothing else is in the map. In
/// particular the number of distinct identifiers equals the size of
/// the virtual index space.
pub proof fn lemma_identity_map_bijective(ids: Seq<usize>)
    requires
        ids.len() <= usize::MAX,
    ensures
        0 <= dcount(ids) <= ids.len(),
        forall|x: usize| #[trigger] dmap(ids).dom().contains(x) <==> ids.contains(x),
        forall|x: usize| #[trigger] ids.contains(x) ==> dmap(ids)[x] < dcount(ids),
        forall|x: usize, y: usize|
            ids.contains(x) && ids.contains(y) && x != y ==> dmap(ids)[x] != dmap(ids)[y],
        forall|v: usize| v < dcount(ids) ==> #[trigger] index_assigned(ids, v),
    decreases ids.len(),
{
    if ids.len() > 0 {
        let prefix = ids.drop_last();
        let x = ids.last();
        lemma_identity_map_bijective(prefix);
        assert(prefix.push(x) =~= ids);
        lemma_dmap_push(prefix, x);
        assert forall|a: usize| #[trigger] ids.contains(a) implies dmap(ids)[a] < dcount(ids) by {
            if prefix.contains(a) {
                assert(dmap(prefix)[a] < dcount(prefix));
                if !prefix.contains(x) {
                    assert(a != x);
                    assert(dmap(ids) == dmap(prefix).insert(x, dcount(prefix) as usize));
                }
            } else {
                assert(a == x);
                assert(!prefix.contains(x));
                assert(dmap(ids)[a] == dcount(prefix) as usize);
            }
        }
        assert forall|a: usize, b: usize|
            ids.contains(a) && ids.contains(b) && a != b implies dmap(ids)[a] != dmap(ids)[b] by {
            if prefix.contains(x) {
                assert(prefix.contains(a) && prefix.contains(b));
            } else {
                assert(dmap(ids) == dmap(prefix).insert(x, dcount(prefix) as usize));
                if a != x && b != x {
                    assert(prefix.contains(a) && prefix.contains(b));
                } else if a == x {
                    assert(prefix.contains(b));
                    assert(dmap(ids)[b] == dmap(prefix)[b]);
                    assert(dmap(prefix)[b] < dcount(prefix));
                    assert(dmap(ids)[a] == dcount(prefix) as usize);
                } else {
                    assert(prefix.contains(a));
                    assert(dmap(ids)[a] == dmap(prefix)[a]);
                    assert(dmap(prefix)[a] < dcount(prefix));
                    assert(dmap(ids)[b] == dcount(prefix) as usize);
                }
            }
        }
        assert forall|v: usize| v < dcount(ids) implies #[trigger] index_assigned(ids, v) by {
            if v < dcount(prefix) {
                assert(index_assigned(prefix, v));
                let y = choose|y: usize| prefix.contains(y) && #[trigger] dmap(prefix)[y] == v;
                assert(ids.contains(y) && dmap(ids)[y] == v);
            } else {
                assert(!prefix.contains(x));
                assert(ids.contains(x) && dmap(ids)[x] == v);
            }
        }
    }
}

/// A concatenation contains exactly the identifiers of its two parts.
pub proof fn lemma_contains_concat(s: Seq<usize>, t: Seq<usize>)
    ensures
        forall|y: usize| #[trigger] (s + t).contains(y) <==> s.contains(y) || t.contains(y),
{
    assert forall|y: usize| #[trigger] (s + t).contains(y) <==> s.contains(y) || t.contains(
        y,
    ) by {
        if (s + t).contains(y) {
            let k = choose|k: int| 0 <= k < (s + t).len() && (s + t)[k] == y;
            if k < s.len() {
                assert(s[k] == y);
            } else {
                assert(t[k - s.len()] == y);
            }
        }
        if s.contains(y) {
            let k = choose|k: int| 0 <= k < s.len() && s[k] == y;
            assert((s + t)[k] == y);
        }
        if t.contains(y) {
            let k = choose|k: int| 0 <= k < t.len() && t[k] == y;
            assert((s + t)[s.len() + k] == y);
        }
    }
}

/// Extending the identifier sequence never disturbs an assignment that
/// was already made: the map is append-only.
pub proof fn lemma_dmap_extend_one(s: Seq<usize>, t: Seq<usize>, x: usize)
    requires
        s.contains(x),
    ensures
        dmap(s + t).dom().contains(x),
        dmap(s + t)[x] == dmap(s)[x],
    decreases t.len(),
{
    lemma_identity_map_bijective_unbounded(s);
    if t.len() == 0 {
        assert(s + t =~= s);
    } else {
        let t0 = t.drop_last();
        let y = t.last();
        lemma_dmap_extend_one(s, t0, x);
        assert(s + t =~= (s + t0).push(y));
        lemma_dmap_push(s + t0, y);
        lemma_identity_map_bijective_unbounded(s + t0);
        if (s + t0).contains(y) {
            assert(dmap(s + t) == dmap(s + t0));
        } else {
            assert(x != y);
            assert(dmap(s + t) == dmap(s + t0).insert(y, dcount(s + t0) as usize));
        }
    }
}

/// The domain of the identity map is exactly the set of identifiers
/// seen, with no bound needed on the sequence length.
proof fn lemma_identity_map_bijective_unbounded(ids: Seq<usize>)
    ensures
        forall|x: usize| #[trigger] dmap(ids).dom().contains(x) <==> ids.contains(x),
    decreases ids.len(),
{
    if ids.len() > 0 {
        lemma_identity_map_bijective_unbounded(ids.drop_last());
        lemma_dmap_push(ids.drop_last(), ids.last());
        assert(ids.drop_last().push(ids.last()) =~= ids);
    }
}

/// Appending a counter extends the sum by its value.
pub proof fn lemma_sum_u32_push(s: Seq<u32>, v: u32)
    ensures
        sum_u32(s.push(v)) == sum_u32(s) + v,
{
    assert(s.push(v).drop_last() =~= s);
}

/// Overwriting one counter changes the sum by the difference.
pub proof fn lemma_sum_u32_update(s: Seq<u32>, i: int, v: u32)
    requires
        0 <= i < s.len(),
    ensures
        sum_u32(s.update(i, v)) == sum_u32(s) - s[i] + v,
    decreases s.len(),
{
    let su = s.update(i, v);
    if i == s.len() - 1 {
        assert(su.drop_last() =~= s.drop_last());
    } else {
        assert(su.drop_last() =~= s.drop_last().update(i, v));
        lemma_sum_u32_update(s.drop_last(), i, v);
    }
}

/// A sequence of zero counters sums to zero.
pub proof fn lemma_sum_u32_zeros(s: Seq<u32>)
    requires
        forall|k: int| 0 <= k < s.len() ==> s[k] == 0,
    ensures
        sum_u32(s) == 0,
    decreases s.len(),
{
    if s.len() > 0 {
        lemma_sum_u32_zeros(s.drop_last());
    }
}

} // verus!
