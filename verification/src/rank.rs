//! The ranker: a stable ordering of scored entries by descending relevance,
//! and the display numbering of the selected top results.  Selection is
//! always by relevance; the display order only changes how the selected
//! entries are numbered and listed, never which entries are selected.
use vstd::prelude::*;
use crate::template::Template;

verus! {

/// The relevance values of a sequence of entries.
pub open spec fn distances(ts: Seq<Template>) -> Seq<int> {
    ts.map_values(|t: Template| t@.distance)
}

/// Entry index `x` ranks strictly before entry index `y`: higher relevance
/// first, ties broken by catalog position.
pub open spec fn ranked_before(ds: Seq<int>, x: int, y: int) -> bool {
    ds[x] > ds[y] || (ds[x] == ds[y] && x < y)
}

/// `ord` is the ranking of a catalog with relevance values `ds`: a
/// permutation of all catalog indices, strictly sorted by descending
/// relevance with ties in catalog order.
pub open spec fn is_rank_order(ds: Seq<int>, ord: Seq<int>) -> bool {
    &&& ord.len() == ds.len()
    &&& forall|k: int| 0 <= k < ord.len() ==> 0 <= #[trigger] ord[k] < ds.len()
    &&& forall|i: int, j: int|
        0 <= i < j < ord.len() ==> ranked_before(ds, #[trigger] ord[i], #[trigger] ord[j])
    &&& forall|k: int| 0 <= k < ds.len() ==> ord.contains(k)
}

/// Rank a catalog of scored entries: the returned vector lists all catalog
/// indices, highest relevance first, entries of equal relevance keeping
/// their catalog order.
pub fn rank_order(templates: &Vec<Template>) -> (order: Vec<usize>)
    ensures
        is_rank_order(distances(templates@), order@.map_values(|u: usize| u as int)),
        order@.len() == templates@.len(),
        forall|k: int| 0 <= k < order@.len() ==> #[trigger] order@[k] < templates@.len(),
{
    let ghost ds = distances(templates@);
    let n = templates.len();
    let mut order: Vec<usize> = Vec::new();
    let mut idx: usize = 0;
    while idx < n
        invariant
            idx <= n,
            n == templates@.len(),
            ds == distances(templates@),
            order@.len() == idx,
            forall|k: int| 0 <= k < idx ==> #[trigger] order@[k] < idx,
            forall|i: int, j: int|
                0 <= i < j < idx ==> ranked_before(
                    ds,
                    #[trigger] order@[i] as int,
                    #[trigger] order@[j] as int,
                ),
            forall|k: int| 0 <= k < idx ==> order@.contains(#[trigger] (k as usize)),
        decreases n - idx,
    {
        let d = templates[idx].distance();
        proof {
            assert(ds[idx as int] == d);
        }
        let mut p: usize = 0;
        while p < idx && templates[order[p]].distance() >= d
            invariant
                p <= idx,
                idx < n == templates@.len(),
                ds == distances(templates@),
                order@.len() == idx,
                forall|k: int| 0 <= k < idx ==> #[trigger] order@[k] < idx,
                d == ds[idx as int],
                forall|k: int| 0 <= k < p ==> ds[#[trigger] order@[k] as int] >= d,
            decreases idx - p,
        {
            p += 1;
        }
        proof {
            if p < idx {
                assert(ds[order@[p as int] as int] < d);
            }
        }
        let ghost old_order = order@;
        order.insert(p, idx);
        proof {
            let no = order@;
            assert(no == old_order.insert(p as int, idx));
            assert forall|i: int, j: int| 0 <= i < j < no.len() implies ranked_before(
                ds,
                no[i] as int,
                no[j] as int,
            ) by {
                if j < p {
                    assert(no[i] == old_order[i] && no[j] == old_order[j]);
                } else if i > p {
                    assert(no[i] == old_order[i - 1] && no[j] == old_order[j - 1]);
                } else if i < p && j == p {
                    assert(no[i] == old_order[i] && no[j] == idx);
                    assert(ds[old_order[i] as int] >= d);
                } else if i == p && j > p {
                    assert(no[i] == idx && no[j] == old_order[j - 1]);
                    assert(ds[old_order[p as int] as int] < d);
                    if j - 1 > p {
                        assert(ranked_before(ds, old_order[p as int] as int, old_order[j
                            - 1] as int));
                    }
                    assert(ds[old_order[j - 1] as int] < d);
                } else if i < p && j > p {
                    assert(no[i] == old_order[i] && no[j] == old_order[j - 1]);
                }
            };
            assert forall|k: int| 0 <= k < idx + 1 implies no.contains(#[trigger] (k as usize)) by {
                if k == idx {
                    assert(no[p as int] == idx);
                } else {
                    let m = choose|m: int| 0 <= m < old_order.len() && old_order[m] == k as usize;
                    if m < p {
                        assert(no[m] == k as usize);
                    } else {
                        assert(no[m + 1] == k as usize);
                    }
                }
            };
        }
        idx += 1;
    }
    proof {
        let ov = order@.map_values(|u: usize| u as int);
        assert forall|k: int| 0 <= k < ds.len() implies ov.contains(k) by {
            assert(order@.contains(k as usize));
            let m = choose|m: int| 0 <= m < order@.len() && order@[m] == k as usize;
            assert(ov[m] == k);
        };
        assert(is_rank_order(ds, ov));
    }
    order
}

proof fn lemma_rank_agree_at(ds: Seq<int>, o1: Seq<int>, o2: Seq<int>, k: int)
    requires
        is_rank_order(ds, o1),
        is_rank_order(ds, o2),
        0 <= k < o1.len(),
        forall|m: int| 0 <= m < k ==> o1[m] == o2[m],
    ensures
        o1[k] == o2[k],
{
    if o1[k] != o2[k] {
        let x = o1[k];
        let y = o2[k];
        // x occurs in o2, necessarily after position k
        assert(o2.contains(x));
        let j = choose|j: int| 0 <= j < o2.len() && o2[j] == x;
        if j < k {
            assert(o1[j] == x);
            assert(ranked_before(ds, o1[j], o1[k]));
            assert(false);
        }
        assert(ranked_before(ds, y, x));
        // y occurs in o1, necessarily after position k
        assert(o1.contains(y));
        let m = choose|m: int| 0 <= m < o1.len() && o1[m] == y;
        if m < k {
            assert(o2[m] == y);
            assert(ranked_before(ds, o2[m], o2[k]));
            assert(false);
        }
        assert(ranked_before(ds, x, y));
        assert(false);
    }
}

proof fn lemma_rank_agree_upto(ds: Seq<int>, o1: Seq<int>, o2: Seq<int>, k: int)
    requires
        is_rank_order(ds, o1),
        is_rank_order(ds, o2),
        0 <= k <= o1.len(),
    ensures
        forall|m: int| 0 <= m < k ==> o1[m] == o2[m],
    decreases k,
{
    if k > 0 {
        lemma_rank_agree_upto(ds, o1, o2, k - 1);
        lemma_rank_agree_at(ds, o1, o2, k - 1);
    }
}

/// Law: the ranking of a catalog is unique — any two index sequences that
/// both rank the same relevance values are equal, so the contract of
/// `rank_order` pins its result completely.
pub proof fn lemma_rank_order_unique(ds: Seq<int>, o1: Seq<int>, o2: Seq<int>)
    requires
        is_rank_order(ds, o1),
        is_rank_order(ds, o2),
    ensures
        o1 == o2,
{
    lemma_rank_agree_upto(ds, o1, o2, o1.len() as int);
    assert(o1 =~= o2);
}

/// Number the selected top entries for display.  The first `min(limit,
/// order.len())` positions of `order` are the selection.  Ascending display
/// lists them best first, numbered upward from one; descending display lists
/// them in reverse, numbering downward so that the best entry is printed
/// last with number one.
pub fn display_pairs(order: &Vec<usize>, limit: usize, descending: bool) -> (r: Vec<
    (usize, usize),
>)
    ensures
        r@.len() == if limit <= order@.len() {
            limit as int
        } else {
            order@.len() as int
        },
        descending ==> forall|k: int|
            0 <= k < r@.len() ==> (#[trigger] r@[k]).0 == r@.len() - k && r@[k].1 == order@[r@.len()
                - 1 - k],
        !descending ==> forall|k: int|
            0 <= k < r@.len() ==> (#[trigger] r@[k]).0 == k + 1 && r@[k].1 == order@[k],
{
    let m = if limit <= order.len() {
        limit
    } else {
        order.len()
    };
    let mut r: Vec<(usize, usize)> = Vec::new();
    let mut k: usize = 0;
    while k < m
        invariant
            k <= m,
            m <= order@.len(),
            r@.len() == k,
            descending ==> forall|i: int|
                0 <= i < k ==> (#[trigger] r@[i]).0 == m - i && r@[i].1 == order@[m - 1 - i],
            !descending ==> forall|i: int|
                0 <= i < k ==> (#[trigger] r@[i]).0 == i + 1 && r@[i].1 == order@[i],
        decreases m - k,
    {
        if descending {
            r.push((m - k, order[m - 1 - k]));
        } else {
            r.push((k + 1, order[k]));
        }
        k += 1;
    }
    r
}

} // verus!
