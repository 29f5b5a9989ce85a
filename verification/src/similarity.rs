//! The fused similarity measures: a weighted blend of token-set and
//! edit-distance similarity for single values, and an all-pairs average of
//! bigram similarities for string lists.
use vstd::prelude::*;
use vstd::seq_lib::group_to_multiset_ensures;
use crate::score::{SCALE, MAX_LEN, MAX_LIST};
use crate::tokens::{spec_token_similarity, token_similarity};
use crate::edit::{spec_edit_similarity, edit_similarity};
use crate::bigram::{spec_bigram_similarity, bigram_similarity, lemma_bigram_similarity_bounds};

verus! {

/// Fused single-value similarity: seventy percent token-set similarity and
/// thirty percent edit-distance similarity.
pub open spec fn spec_fused_similarity(a: Seq<char>, b: Seq<char>) -> int {
    (7 * spec_token_similarity(a, b) + 3 * spec_edit_similarity(a, b)) / 10
}

/// Fused similarity of two scalar field values.
pub fn fused_similarity(value: &str, query: &str) -> (r: u64)
    requires
        value@.len() <= MAX_LEN,
        query@.len() <= MAX_LEN,
    ensures
        r == spec_fused_similarity(value@, query@),
        r <= SCALE,
{
    let t = token_similarity(value, query);
    let e = edit_similarity(value, query);
    (7 * t + 3 * e) / 10
}

/// Sum of the bigram similarities of `v` against every element of `qs`.
pub open spec fn row_sum(v: Seq<char>, qs: Seq<Seq<char>>) -> int
    decreases qs.len(),
{
    if qs.len() == 0 {
        0
    } else {
        row_sum(v, qs.drop_last()) + spec_bigram_similarity(v, qs.last())
    }
}

/// Sum of the bigram similarities over the full cross product `vs x qs`.
pub open spec fn grid_sum(vs: Seq<Seq<char>>, qs: Seq<Seq<char>>) -> int
    decreases vs.len(),
{
    if vs.len() == 0 {
        0
    } else {
        grid_sum(vs.drop_last(), qs) + row_sum(vs.last(), qs)
    }
}

pub proof fn lemma_row_sum_bounds(v: Seq<char>, qs: Seq<Seq<char>>)
    ensures
        0 <= row_sum(v, qs) <= qs.len() * SCALE,
    decreases qs.len(),
{
    if qs.len() == 0 {
    } else {
        lemma_row_sum_bounds(v, qs.drop_last());
        lemma_bigram_similarity_bounds(v, qs.last());
        assert(qs.len() * SCALE == (qs.len() - 1) * SCALE + SCALE) by (nonlinear_arith);
    }
}

pub proof fn lemma_grid_sum_bounds(vs: Seq<Seq<char>>, qs: Seq<Seq<char>>)
    ensures
        0 <= grid_sum(vs, qs) <= vs.len() * (qs.len() * SCALE),
    decreases vs.len(),
{
    if vs.len() == 0 {
    } else {
        lemma_grid_sum_bounds(vs.drop_last(), qs);
        lemma_row_sum_bounds(vs.last(), qs);
        assert(vs.len() * (qs.len() * SCALE) == (vs.len() - 1) * (qs.len() * SCALE) + qs.len()
            * SCALE) by (nonlinear_arith);
    }
}

/// All-pairs list similarity: the average bigram similarity over every pair
/// from the cross product of the two lists.  Two empty lists are fully
/// similar; exactly one empty list is fully dissimilar.
pub open spec fn spec_fused_list_similarity(vs: Seq<Seq<char>>, qs: Seq<Seq<char>>) -> int {
    if vs.len() == 0 && qs.len() == 0 {
        SCALE as int
    } else if vs.len() == 0 || qs.len() == 0 {
        0
    } else {
        grid_sum(vs, qs) / (vs.len() as int * qs.len() as int)
    }
}

proof fn lemma_avg_le_scale(x: int, y: int, s: int)
    by (nonlinear_arith)
    requires
        1 <= y,
        0 <= s,
        0 <= x <= y * s,
    ensures
        0 <= x / y <= s,
{
}

/// All-pairs list similarity of two string lists.
pub fn fused_list_similarity(values: &Vec<String>, queries: &Vec<String>) -> (r: u64)
    requires
        values@.len() <= MAX_LIST,
        queries@.len() <= MAX_LIST,
        forall|i: int| 0 <= i < values@.len() ==> values.deep_view()[i].len() <= MAX_LEN,
        forall|i: int| 0 <= i < queries@.len() ==> queries.deep_view()[i].len() <= MAX_LEN,
    ensures
        r == spec_fused_list_similarity(values.deep_view(), queries.deep_view()),
        r <= SCALE,
{
    let ghost vs = values.deep_view();
    let ghost qs = queries.deep_view();
    if values.len() == 0 && queries.len() == 0 {
        return SCALE;
    }
    if values.len() == 0 || queries.len() == 0 {
        return 0;
    }
    let mut sum: u64 = 0;
    let mut i: usize = 0;
    while i < values.len()
        invariant
            i <= values@.len(),
            vs == values.deep_view(),
            qs == queries.deep_view(),
            1 <= values@.len() <= MAX_LIST,
            1 <= queries@.len() <= MAX_LIST,
            forall|k: int| 0 <= k < values@.len() ==> vs[k].len() <= MAX_LEN,
            forall|k: int| 0 <= k < queries@.len() ==> qs[k].len() <= MAX_LEN,
            sum as int == grid_sum(vs.take(i as int), qs),
            sum as int <= i * (qs.len() * SCALE),
        decreases values@.len() - i,
    {
        let ghost row_v = vs[i as int];
        let mut j: usize = 0;
        let mut row: u64 = 0;
        while j < queries.len()
            invariant
                j <= queries@.len(),
                i < values@.len(),
                vs == values.deep_view(),
                qs == queries.deep_view(),
                1 <= queries@.len() <= MAX_LIST,
                row_v == vs[i as int],
                row_v.len() <= MAX_LEN,
                forall|k: int| 0 <= k < queries@.len() ==> qs[k].len() <= MAX_LEN,
                row as int == row_sum(row_v, qs.take(j as int)),
                row as int <= j * SCALE,
            decreases queries@.len() - j,
        {
            proof {
                assert(values@[i as int]@ == vs[i as int]);
                assert(queries@[j as int]@ == qs[j as int]);
            }
            let s = bigram_similarity(values[i].as_str(), queries[j].as_str());
            proof {
                assert(qs.take(j + 1).drop_last() =~= qs.take(j as int));
                assert(qs.take(j + 1).last() == qs[j as int]);
            }
            row += s;
            j += 1;
        }
        proof {
            assert(qs.take(qs.len() as int) =~= qs);
            assert(vs.take(i + 1).drop_last() =~= vs.take(i as int));
            assert(vs.take(i + 1).last() == vs[i as int]);
            assert((i + 1) * (qs.len() * SCALE) == i * (qs.len() * SCALE) + qs.len() * SCALE)
                by (nonlinear_arith);
            assert(i * (qs.len() * SCALE) <= MAX_LIST * (MAX_LIST * (SCALE as int)))
                by (nonlinear_arith)
                requires
                    0 <= i <= MAX_LIST,
                    1 <= qs.len() <= MAX_LIST,
            ;
            assert(j as int * SCALE <= MAX_LIST * (SCALE as int)) by (nonlinear_arith)
                requires
                    0 <= j as int <= MAX_LIST,
            ;
        }
        sum += row;
        i += 1;
    }
    proof {
        assert(vs.take(vs.len() as int) =~= vs);
    }
    proof {
        assert(1 <= vs.len() * qs.len() <= MAX_LIST * MAX_LIST) by (nonlinear_arith)
            requires
                1 <= vs.len() <= MAX_LIST,
                1 <= qs.len() <= MAX_LIST,
        ;
    }
    let cnt: u64 = (values.len() as u64) * (queries.len() as u64);
    proof {
        assert(cnt as int == vs.len() * qs.len());
        assert(cnt as int * SCALE == vs.len() * (qs.len() * SCALE)) by (nonlinear_arith)
            requires
                cnt as int == vs.len() * qs.len(),
        ;
        lemma_avg_le_scale(sum as int, cnt as int, SCALE as int);
    }
    sum / cnt
}

proof fn lemma_row_sum_remove(v: Seq<char>, qs: Seq<Seq<char>>, k: int)
    requires
        0 <= k < qs.len(),
    ensures
        row_sum(v, qs) == row_sum(v, qs.remove(k)) + spec_bigram_similarity(v, qs[k]),
    decreases qs.len(),
{
    if k == qs.len() - 1 {
        assert(qs.remove(k) =~= qs.drop_last());
    } else {
        lemma_row_sum_remove(v, qs.drop_last(), k);
        assert(qs.remove(k).drop_last() =~= qs.drop_last().remove(k));
        assert(qs.remove(k).last() == qs.last());
    }
}

proof fn lemma_row_sum_permutation(v: Seq<char>, qs1: Seq<Seq<char>>, qs2: Seq<Seq<char>>)
    requires
        qs1.to_multiset() == qs2.to_multiset(),
    ensures
        row_sum(v, qs1) == row_sum(v, qs2),
    decreases qs1.len(),
{
    broadcast use group_to_multiset_ensures;

    assert(qs1.to_multiset().len() == qs1.len());
    assert(qs2.to_multiset().len() == qs2.len());
    if qs1.len() == 0 {
        assert(qs2.len() == 0);
    } else {
        let x = qs1.last();
        assert(qs1.contains(x));
        assert(qs1.to_multiset().count(x) > 0);
        assert(qs2.to_multiset().count(x) > 0);
        assert(qs2.contains(x));
        let k = choose|k: int| 0 <= k < qs2.len() && qs2[k] == x;
        assert(qs1.drop_last() =~= qs1.remove(qs1.len() - 1));
        assert(qs1.drop_last().to_multiset() == qs2.remove(k).to_multiset());
        lemma_row_sum_permutation(v, qs1.drop_last(), qs2.remove(k));
        lemma_row_sum_remove(v, qs2, k);
    }
}

proof fn lemma_grid_sum_rows_permutation(
    vs: Seq<Seq<char>>,
    qs1: Seq<Seq<char>>,
    qs2: Seq<Seq<char>>,
)
    requires
        qs1.to_multiset() == qs2.to_multiset(),
    ensures
        grid_sum(vs, qs1) == grid_sum(vs, qs2),
    decreases vs.len(),
{
    if vs.len() > 0 {
        lemma_grid_sum_rows_permutation(vs.drop_last(), qs1, qs2);
        lemma_row_sum_permutation(vs.last(), qs1, qs2);
    }
}

proof fn lemma_grid_sum_remove(vs: Seq<Seq<char>>, qs: Seq<Seq<char>>, k: int)
    requires
        0 <= k < vs.len(),
    ensures
        grid_sum(vs, qs) == grid_sum(vs.remove(k), qs) + row_sum(vs[k], qs),
    decreases vs.len(),
{
    if k == vs.len() - 1 {
        assert(vs.remove(k) =~= vs.drop_last());
    } else {
        lemma_grid_sum_remove(vs.drop_last(), qs, k);
        assert(vs.remove(k).drop_last() =~= vs.drop_last().remove(k));
        assert(vs.remove(k).last() == vs.last());
    }
}

proof fn lemma_grid_sum_values_permutation(
    vs1: Seq<Seq<char>>,
    vs2: Seq<Seq<char>>,
    qs: Seq<Seq<char>>,
)
    requires
        vs1.to_multiset() == vs2.to_multiset(),
    ensures
        grid_sum(vs1, qs) == grid_sum(vs2, qs),
    decreases vs1.len(),
{
    broadcast use group_to_multiset_ensures;

    assert(vs1.to_multiset().len() == vs1.len());
    assert(vs2.to_multiset().len() == vs2.len());
    if vs1.len() == 0 {
        assert(vs2.len() == 0);
    } else {
        let x = vs1.last();
        assert(vs1.contains(x));
        assert(vs1.to_multiset().count(x) > 0);
        assert(vs2.to_multiset().count(x) > 0);
        assert(vs2.contains(x));
        let k = choose|k: int| 0 <= k < vs2.len() && vs2[k] == x;
        assert(vs1.drop_last() =~= vs1.remove(vs1.len() - 1));
        assert(vs1.drop_last().to_multiset() == vs2.remove(k).to_multiset());
        lemma_grid_sum_values_permutation(vs1.drop_last(), vs2.remove(k), qs);
        lemma_grid_sum_remove(vs2, qs, k);
    }
}

/// Law: all-pairs list similarity is invariant under permuting either input
/// list — it depends only on which strings appear, with multiplicity, not on
/// their order.
pub proof fn lemma_fused_list_similarity_permutation(
    vs1: Seq<Seq<char>>,
    qs1: Seq<Seq<char>>,
    vs2: Seq<Seq<char>>,
    qs2: Seq<Seq<char>>,
)
    requires
        vs1.to_multiset() == vs2.to_multiset(),
        qs1.to_multiset() == qs2.to_multiset(),
    ensures
        spec_fused_list_similarity(vs1, qs1) == spec_fused_list_similarity(vs2, qs2),
{
    broadcast use group_to_multiset_ensures;

    assert(vs1.to_multiset().len() == vs1.len());
    assert(vs2.to_multiset().len() == vs2.len());
    assert(qs1.to_multiset().len() == qs1.len());
    assert(qs2.to_multiset().len() == qs2.len());
    assert(vs1.len() == vs2.len());
    assert(qs1.len() == qs2.len());
    lemma_grid_sum_values_permutation(vs1, vs2, qs1);
    lemma_grid_sum_rows_permutation(vs2, qs1, qs2);
}

} // verus!
