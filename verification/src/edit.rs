//! Edit-distance similarity: the Levenshtein distance between the two
//! lowercased strings, normalized by the longer raw character length and
//! mapped into fixed-point.
use vstd::prelude::*;
use crate::score::{SCALE, MAX_LEN};
use crate::text::{chars_of, lower_char, spec_lower_char};

verus! {

pub open spec fn min3(a: nat, b: nat, c: nat) -> nat {
    if a <= b && a <= c {
        a
    } else if b <= c {
        b
    } else {
        c
    }
}

/// Levenshtein distance with unit-cost insertion, deletion and substitution.
pub open spec fn lev(a: Seq<char>, b: Seq<char>) -> nat
    decreases a.len(), b.len(),
{
    if a.len() == 0 {
        b.len()
    } else if b.len() == 0 {
        a.len()
    } else {
        let tail_cost: nat = if a.last() == b.last() {
            0
        } else {
            1
        };
        min3(
            lev(a.drop_last(), b.drop_last()) + tail_cost,
            lev(a.drop_last(), b) + 1,
            lev(a, b.drop_last()) + 1,
        )
    }
}

/// The distance never exceeds the longer input.
pub proof fn lemma_lev_le_max(a: Seq<char>, b: Seq<char>)
    ensures
        lev(a, b) <= if a.len() >= b.len() {
            a.len()
        } else {
            b.len()
        },
    decreases a.len(), b.len(),
{
    if a.len() == 0 || b.len() == 0 {
    } else {
        lemma_lev_le_max(a.drop_last(), b.drop_last());
    }
}

/// Identical strings are at distance zero.
pub proof fn lemma_lev_self(a: Seq<char>)
    ensures
        lev(a, a) == 0,
    decreases a.len(),
{
    if a.len() > 0 {
        lemma_lev_self(a.drop_last());
    }
}

/// All characters of `s`, ASCII-lowercased.
pub open spec fn lower_seq(s: Seq<char>) -> Seq<char> {
    s.map_values(|c: char| spec_lower_char(c))
}

/// ASCII-lowercase every character of `s`.
pub fn lower_chars(s: &Vec<char>) -> (r: Vec<char>)
    ensures
        r@ == lower_seq(s@),
{
    let mut r: Vec<char> = Vec::new();
    let mut i: usize = 0;
    while i < s.len()
        invariant
            i <= s@.len(),
            r@ == lower_seq(s@.take(i as int)),
        decreases s@.len() - i,
    {
        r.push(lower_char(s[i]));
        proof {
            assert(s@.take(i + 1) =~= s@.take(i as int).push(s@[i as int]));
            assert(lower_seq(s@.take(i + 1)) =~= lower_seq(s@.take(i as int)).push(
                spec_lower_char(s@[i as int]),
            ));
        }
        i += 1;
    }
    proof {
        assert(s@.take(s@.len() as int) =~= s@);
    }
    r
}

/// Levenshtein distance between two character vectors, by dynamic
/// programming over prefixes.
fn lev_dist(a: &Vec<char>, b: &Vec<char>) -> (d: usize)
    requires
        a@.len() <= MAX_LEN,
        b@.len() <= MAX_LEN,
    ensures
        d == lev(a@, b@),
{
    let n = a.len();
    let m = b.len();
    // row[k] holds the distance between the first `i` characters of `a`
    // and the first `k` characters of `b`.
    let mut row: Vec<usize> = Vec::new();
    let mut j: usize = 0;
    while j <= m
        invariant
            j <= m + 1,
            m == b@.len() <= MAX_LEN,
            row@.len() == j,
            forall|k: int| 0 <= k < j ==> row@[k] == lev(Seq::<char>::empty(), b@.take(k)),
        decreases m + 1 - j,
    {
        proof {
            assert(b@.take(j as int).len() == j);
        }
        row.push(j);
        j += 1;
    }
    let mut i: usize = 1;
    while i <= n
        invariant
            1 <= i <= n + 1,
            n == a@.len() <= MAX_LEN,
            m == b@.len() <= MAX_LEN,
            row@.len() == m + 1,
            forall|k: int| 0 <= k <= m ==> row@[k] == lev(a@.take(i - 1), b@.take(k)),
        decreases n + 1 - i,
    {
        let mut nr: Vec<usize> = Vec::new();
        proof {
            assert(a@.take(i as int).len() == i);
            assert(b@.take(0).len() == 0);
        }
        nr.push(i);
        let mut j: usize = 1;
        while j <= m
            invariant
                1 <= j <= m + 1,
                1 <= i <= n,
                n == a@.len() <= MAX_LEN,
                m == b@.len() <= MAX_LEN,
                row@.len() == m + 1,
                forall|k: int| 0 <= k <= m ==> row@[k] == lev(a@.take(i - 1), b@.take(k)),
                nr@.len() == j,
                forall|k: int| 0 <= k < j ==> nr@[k] == lev(a@.take(i as int), b@.take(k)),
            decreases m + 1 - j,
        {
            let ghost ai = a@.take(i as int);
            let ghost bj = b@.take(j as int);
            proof {
                lemma_lev_le_max(a@.take(i - 1), b@.take(j as int));
                lemma_lev_le_max(ai, b@.take(j - 1));
                lemma_lev_le_max(a@.take(i - 1), b@.take(j - 1));
            }
            let del = row[j] + 1;
            let ins = nr[j - 1] + 1;
            let eq = a[i - 1] == b[j - 1];
            let sub = row[j - 1] + if eq {
                0
            } else {
                1
            };
            let mut c = sub;
            if del < c {
                c = del;
            }
            if ins < c {
                c = ins;
            }
            proof {
                assert(ai.len() == i);
                assert(bj.len() == j);
                assert(ai.drop_last() =~= a@.take(i - 1));
                assert(bj.drop_last() =~= b@.take(j - 1));
                assert(ai.last() == a@[i - 1]);
                assert(bj.last() == b@[j - 1]);
                assert(c == lev(ai, bj));
            }
            nr.push(c);
            j += 1;
        }
        row = nr;
        i += 1;
    }
    proof {
        assert(a@.take(n as int) =~= a@);
        assert(b@.take(m as int) =~= b@);
    }
    row[m]
}

/// Edit-distance similarity, in fixed-point: one minus the Levenshtein
/// distance of the lowercased strings over the longer raw character length.
/// Two empty strings are fully similar; exactly one empty string is fully
/// dissimilar.
pub open spec fn spec_edit_similarity(a: Seq<char>, b: Seq<char>) -> int {
    if a.len() == 0 && b.len() == 0 {
        SCALE as int
    } else if a.len() == 0 || b.len() == 0 {
        0
    } else {
        let ml = if a.len() >= b.len() {
            a.len()
        } else {
            b.len()
        };
        (ml - lev(lower_seq(a), lower_seq(b))) * SCALE / ml as int
    }
}

proof fn lemma_div_le_scale(x: int, y: int, s: int)
    by (nonlinear_arith)
    requires
        0 <= x <= y,
        1 <= y,
        0 <= s,
    ensures
        0 <= x * s / y <= s,
        x == y ==> x * s / y == s,
{
}

/// Edit-distance similarity of two strings.
pub fn edit_similarity(value: &str, query: &str) -> (r: u64)
    requires
        value@.len() <= MAX_LEN,
        query@.len() <= MAX_LEN,
    ensures
        r == spec_edit_similarity(value@, query@),
        r <= SCALE,
{
    if value.is_empty() && query.is_empty() {
        return SCALE;
    }
    if value.is_empty() || query.is_empty() {
        return 0;
    }
    let ca = lower_chars(&chars_of(value));
    let cb = lower_chars(&chars_of(query));
    let d = lev_dist(&ca, &cb);
    let ml = if ca.len() >= cb.len() {
        ca.len()
    } else {
        cb.len()
    };
    proof {
        lemma_lev_le_max(ca@, cb@);
        lemma_div_le_scale(ml - d, ml as int, SCALE as int);
    }
    ((ml - d) as u64 * SCALE) / (ml as u64)
}

/// A non-empty string is always fully edit-similar to itself.
pub proof fn lemma_edit_similarity_self(a: Seq<char>)
    requires
        a.len() > 0,
    ensures
        spec_edit_similarity(a, a) == SCALE,
{
    lemma_lev_self(lower_seq(a));
    lemma_div_le_scale(a.len() as int, a.len() as int, SCALE as int);
}

} // verus!
