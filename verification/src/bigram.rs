//! Bigram cosine similarity: each string is viewed as a vector of bigram
//! counts (adjacent character pairs), and the two count vectors are compared
//! by cosine similarity.  Counts are used instead of relative frequencies:
//! cosine similarity is invariant under scaling either vector, so the value
//! is the same, and all intermediate arithmetic stays in integers.
use vstd::prelude::*;
use vstd::arithmetic::div_mod::{lemma_div_is_ordered, lemma_div_multiples_vanish};
use crate::score::{SCALE, MAX_LEN};
use crate::text::chars_of;

verus! {

/// The adjacent character pair starting at position `i`.
pub open spec fn pair_at(s: Seq<char>, i: int) -> (char, char) {
    (s[i], s[i + 1])
}

/// How many of the first `n` bigram positions of `s` hold exactly `g`.
pub open spec fn occ_upto(s: Seq<char>, g: (char, char), n: int) -> int
    decreases n,
{
    if n <= 0 {
        0
    } else {
        occ_upto(s, g, n - 1) + if pair_at(s, n - 1) == g {
            1int
        } else {
            0int
        }
    }
}

/// How often the bigram `g` occurs in `s`.
pub open spec fn occ(s: Seq<char>, g: (char, char)) -> int {
    occ_upto(s, g, s.len() - 1)
}

/// Partial dot product: the first `n` bigram positions of `a`, each weighted
/// by how often its bigram occurs in `b`.
pub open spec fn dot_upto(a: Seq<char>, b: Seq<char>, n: int) -> int
    decreases n,
{
    if n <= 0 {
        0
    } else {
        dot_upto(a, b, n - 1) + occ(b, pair_at(a, n - 1))
    }
}

/// The dot product of the two strings' bigram count vectors: summing the
/// occurrence count in `b` over every bigram position of `a` counts each
/// common bigram once per pairing, exactly as the count-vector dot product
/// does.
pub open spec fn bigram_dot(a: Seq<char>, b: Seq<char>) -> int {
    dot_upto(a, b, a.len() - 1)
}

proof fn lemma_occ_upto_bounds(s: Seq<char>, g: (char, char), n: int)
    ensures
        0 <= occ_upto(s, g, n),
        n >= 0 ==> occ_upto(s, g, n) <= n,
    decreases n,
{
    if n > 0 {
        lemma_occ_upto_bounds(s, g, n - 1);
    }
}

proof fn lemma_occ_upto_mono(s: Seq<char>, g: (char, char), n1: int, n2: int)
    requires
        n1 <= n2,
    ensures
        occ_upto(s, g, n1) <= occ_upto(s, g, n2),
    decreases n2,
{
    if n1 < n2 && n2 > 0 {
        lemma_occ_upto_mono(s, g, n1, n2 - 1);
    }
}

proof fn lemma_dot_upto_bounds(a: Seq<char>, b: Seq<char>, n: int)
    requires
        b.len() >= 1,
    ensures
        0 <= dot_upto(a, b, n),
        n >= 0 ==> dot_upto(a, b, n) <= n * (b.len() - 1),
    decreases n,
{
    if n <= 0 {
        assert(0 * (b.len() - 1) == 0);
    } else {
        lemma_dot_upto_bounds(a, b, n - 1);
        lemma_occ_upto_bounds(b, pair_at(a, n - 1), b.len() - 1);
        assert(n * (b.len() - 1) == (n - 1) * (b.len() - 1) + (b.len() - 1)) by (nonlinear_arith);
    }
}

proof fn lemma_dot_upto_mono(a: Seq<char>, b: Seq<char>, n1: int, n2: int)
    requires
        n1 <= n2,
    ensures
        dot_upto(a, b, n1) <= dot_upto(a, b, n2),
    decreases n2,
{
    if n1 < n2 && n2 > 0 {
        lemma_dot_upto_mono(a, b, n1, n2 - 1);
        lemma_occ_upto_bounds(b, pair_at(a, n2 - 1), b.len() - 1);
    }
}

/// A string with at least one bigram has a strictly positive self dot
/// product.
proof fn lemma_dot_self_pos(a: Seq<char>)
    requires
        a.len() >= 2,
    ensures
        bigram_dot(a, a) >= 1,
{
    lemma_occ_upto_bounds(a, pair_at(a, 0), 0);
    lemma_occ_upto_mono(a, pair_at(a, 0), 1, a.len() - 1);
    assert(occ(a, pair_at(a, 0)) >= 1);
    assert(dot_upto(a, a, 0) == 0);
    assert(dot_upto(a, a, 1) >= 1);
    lemma_dot_upto_mono(a, a, 1, a.len() - 1);
}

/// The dot product of two character vectors' bigram counts.
fn bigram_dot_exec(a: &Vec<char>, b: &Vec<char>) -> (d: u64)
    requires
        2 <= a@.len() <= MAX_LEN,
        2 <= b@.len() <= MAX_LEN,
    ensures
        d as int == bigram_dot(a@, b@),
        d as int <= (a@.len() - 1) * (b@.len() - 1),
{
    let la = a.len();
    let lb = b.len();
    let mut d: u64 = 0;
    let mut i: usize = 0;
    proof {
        lemma_dot_upto_bounds(a@, b@, 0);
    }
    while i < la - 1
        invariant
            2 <= la == a@.len() <= MAX_LEN,
            2 <= lb == b@.len() <= MAX_LEN,
            i <= la - 1,
            d as int == dot_upto(a@, b@, i as int),
            d as int <= i * (lb - 1),
        decreases la - 1 - i,
    {
        let ghost g = pair_at(a@, i as int);
        let mut c: u64 = 0;
        let mut j: usize = 0;
        while j < lb - 1
            invariant
                2 <= lb == b@.len() <= MAX_LEN,
                j <= lb - 1,
                i + 1 < la == a@.len(),
                c as int == occ_upto(b@, g, j as int),
                c <= j,
                g == pair_at(a@, i as int),
            decreases lb - 1 - j,
        {
            if b[j] == a[i] && b[j + 1] == a[i + 1] {
                assert(pair_at(b@, j as int) == g);
                c += 1;
            } else {
                assert(pair_at(b@, j as int) != g);
            }
            j += 1;
        }
        proof {
            assert(c as int == occ(b@, g));
            assert((i + 1) * (lb - 1) == i * (lb - 1) + (lb - 1)) by (nonlinear_arith);
            assert((i + 1) * (lb - 1) <= (MAX_LEN - 1) * (MAX_LEN - 1)) by (nonlinear_arith)
                requires
                    1 <= i + 1 <= MAX_LEN - 1,
                    1 <= lb - 1 <= MAX_LEN - 1,
            ;
        }
        d += c;
        i += 1;
    }
    d
}

/// `r` is the integer square root of `x`: the greatest integer whose square
/// does not exceed `x`.
pub open spec fn is_sqrt_floor(x: int, r: int) -> bool {
    0 <= r && r * r <= x && x < (r + 1) * (r + 1)
}

/// The integer square root of a non-negative integer.
pub closed spec fn sqrt_floor(x: int) -> int {
    choose|r: int| is_sqrt_floor(x, r)
}

pub proof fn lemma_sqrt_floor_exists(x: int)
    requires
        x >= 0,
    ensures
        is_sqrt_floor(x, sqrt_floor(x)),
    decreases x,
{
    if x == 0 {
        assert(is_sqrt_floor(0, 0));
    } else {
        lemma_sqrt_floor_exists(x - 1);
        let r = sqrt_floor(x - 1);
        if (r + 1) * (r + 1) <= x {
            assert(x == (r + 1) * (r + 1));
            assert(is_sqrt_floor(x, r + 1)) by (nonlinear_arith)
                requires
                    r >= 0,
                    x == (r + 1) * (r + 1),
            ;
        } else {
            assert(is_sqrt_floor(x, r));
        }
    }
}

pub proof fn lemma_sqrt_floor_unique(x: int, r: int)
    requires
        x >= 0,
        is_sqrt_floor(x, r),
    ensures
        r == sqrt_floor(x),
{
    lemma_sqrt_floor_exists(x);
    let s = sqrt_floor(x);
    if r < s {
        assert((r + 1) * (r + 1) <= s * s) by (nonlinear_arith)
            requires
                0 <= r,
                r < s,
        ;
    } else if s < r {
        assert((s + 1) * (s + 1) <= r * r) by (nonlinear_arith)
            requires
                0 <= s,
                s < r,
        ;
    }
}

/// Integer square root by binary search.
fn isqrt(x: u128) -> (r: u64)
    requires
        x < 0x4000_0000_0000_0000_0000_0000_0000_0000u128,
    ensures
        is_sqrt_floor(x as int, r as int),
{
    let mut lo: u64 = 0;
    let mut hi: u64 = 0x7fff_ffff_ffff_ffffu64;
    proof {
        assert((hi as int + 1) * (hi as int + 1) == 0x4000_0000_0000_0000_0000_0000_0000_0000);
    }
    while lo < hi
        invariant
            lo <= hi,
            hi <= 0x7fff_ffff_ffff_ffffu64,
            (lo as int) * (lo as int) <= x as int,
            (x as int) < (hi as int + 1) * (hi as int + 1),
        decreases hi - lo,
    {
        let mid = lo + (hi - lo + 1) / 2;
        proof {
            assert((mid as u128) * (mid as u128) < 0x1_0000_0000_0000_0000_0000_0000_0000_0000)
                by (nonlinear_arith)
                requires
                    mid <= 0x7fff_ffff_ffff_ffffu64,
            ;
        }
        let sq = (mid as u128) * (mid as u128);
        if sq <= x {
            lo = mid;
        } else {
            hi = mid - 1;
        }
    }
    lo
}

/// Sum of the products of corresponding entries of two integer sequences,
/// over the first `n` positions.
spec fn sum_uv(us: Seq<int>, vs: Seq<int>, n: int) -> int
    decreases n,
{
    if n <= 0 {
        0
    } else {
        sum_uv(us, vs, n - 1) + us[n - 1] * vs[n - 1]
    }
}

proof fn lemma_contains_push<A>(s: Seq<A>, x: A, e: A)
    ensures
        s.push(x).contains(e) <==> (s.contains(e) || e == x),
{
    if s.push(x).contains(e) {
        let k = choose|k: int| 0 <= k < s.push(x).len() && s.push(x)[k] == e;
        if k < s.len() {
            assert(s[k] == e);
        }
    }
    if s.contains(e) {
        let k = choose|k: int| 0 <= k < s.len() && s[k] == e;
        assert(s.push(x)[k] == e);
    }
    if e == x {
        assert(s.push(x)[s.len() as int] == e);
    }
}

/// The distinct elements of a bigram list, keeping first occurrences.
spec fn dedup_pairs(s: Seq<(char, char)>) -> Seq<(char, char)>
    decreases s.len(),
{
    if s.len() == 0 {
        s
    } else {
        let d = dedup_pairs(s.drop_last());
        if d.contains(s.last()) {
            d
        } else {
            d.push(s.last())
        }
    }
}

proof fn lemma_dedup_pairs_props(s: Seq<(char, char)>)
    ensures
        dedup_pairs(s).no_duplicates(),
        forall|e: (char, char)| #[trigger] dedup_pairs(s).contains(e) <==> s.contains(e),
    decreases s.len(),
{
    if s.len() > 0 {
        lemma_dedup_pairs_props(s.drop_last());
        let d = dedup_pairs(s.drop_last());
        let x = s.last();
        assert(s.drop_last().push(x) =~= s);
        if !d.contains(x) {
            assert(!s.drop_last().contains(x));
            crate::tokens::lemma_no_dup_push(d, x);
        }
        assert forall|e: (char, char)| #[trigger] dedup_pairs(s).contains(e) <==> s.contains(
            e,
        ) by {
            lemma_contains_push(s.drop_last(), x, e);
            if !d.contains(x) {
                lemma_contains_push(d, x, e);
            }
        };
    }
}

/// The bigrams of `s`, one per position.
spec fn pair_list(s: Seq<char>) -> Seq<(char, char)> {
    Seq::new(
        if s.len() >= 1 {
            (s.len() - 1) as nat
        } else {
            0
        },
        |i: int| pair_at(s, i),
    )
}

proof fn lemma_sum_uv_zero(us: Seq<int>, vs: Seq<int>, n: int)
    requires
        forall|k: int| 0 <= k < n ==> #[trigger] us[k] == 0,
    ensures
        sum_uv(us, vs, n) == 0,
    decreases n,
{
    if n > 0 {
        lemma_sum_uv_zero(us, vs, n - 1);
    }
}

/// Raising one entry of `us` by one raises the dot product by the matching
/// entry of `vs`.
proof fn lemma_sum_uv_bump(us1: Seq<int>, us2: Seq<int>, vs: Seq<int>, n: int, k0: int)
    requires
        0 <= k0,
        forall|k: int| 0 <= k < n && k != k0 ==> #[trigger] us2[k] == us1[k],
        k0 < n ==> us2[k0] == us1[k0] + 1,
    ensures
        sum_uv(us2, vs, n) == sum_uv(us1, vs, n) + if k0 < n {
            vs[k0]
        } else {
            0
        },
    decreases n,
{
    if n > 0 {
        lemma_sum_uv_bump(us1, us2, vs, n - 1, k0);
        if k0 == n - 1 {
            assert(us2[n - 1] * vs[n - 1] == us1[n - 1] * vs[n - 1] + vs[n - 1])
                by (nonlinear_arith)
                requires
                    us2[n - 1] == us1[n - 1] + 1,
            ;
        }
    }
}

/// Regrouping: the positional dot product equals the sum, over any
/// duplicate-free list `gs` covering all bigrams of `a`, of the occurrence
/// products.
proof fn lemma_dot_regroup(a: Seq<char>, b: Seq<char>, gs: Seq<(char, char)>, n: int)
    requires
        gs.no_duplicates(),
        a.len() >= 1,
        0 <= n <= a.len() - 1,
        forall|i: int| 0 <= i < a.len() - 1 ==> gs.contains(#[trigger] pair_at(a, i)),
    ensures
        dot_upto(a, b, n) == sum_uv(
            gs.map_values(|g: (char, char)| occ_upto(a, g, n)),
            gs.map_values(|g: (char, char)| occ(b, g)),
            gs.len() as int,
        ),
    decreases n,
{
    let vs = gs.map_values(|g: (char, char)| occ(b, g));
    if n == 0 {
        let us0 = gs.map_values(|g: (char, char)| occ_upto(a, g, 0));
        assert(forall|k: int| 0 <= k < gs.len() ==> #[trigger] us0[k] == 0);
        lemma_sum_uv_zero(us0, vs, gs.len() as int);
    } else {
        lemma_dot_regroup(a, b, gs, n - 1);
        let us1 = gs.map_values(|g: (char, char)| occ_upto(a, g, n - 1));
        let us2 = gs.map_values(|g: (char, char)| occ_upto(a, g, n));
        let g = pair_at(a, n - 1);
        assert(gs.contains(g));
        let k0 = choose|k: int| 0 <= k < gs.len() && gs[k] == g;
        assert forall|k: int| 0 <= k < gs.len() && k != k0 implies #[trigger] us2[k] == us1[k] by {
            assert(gs[k] != g);
        };
        assert(us2[k0] == us1[k0] + 1);
        lemma_sum_uv_bump(us1, us2, vs, gs.len() as int, k0);
        assert(vs[k0] == occ(b, g));
    }
}

/// Summed arithmetic-geometric mean step used by the Cauchy-Schwarz
/// induction.
proof fn lemma_sum_cross(us: Seq<int>, vs: Seq<int>, n: int, u: int, v: int)
    ensures
        2 * u * v * sum_uv(us, vs, n) <= v * v * sum_uv(us, us, n) + u * u * sum_uv(vs, vs, n),
    decreases n,
{
    if n > 0 {
        lemma_sum_cross(us, vs, n - 1, u, v);
        let x = us[n - 1];
        let y = vs[n - 1];
        let c1 = sum_uv(us, vs, n - 1);
        let uu = sum_uv(us, us, n - 1);
        let vv = sum_uv(vs, vs, n - 1);
        assert(2 * u * v * (x * y) <= v * v * (x * x) + u * u * (y * y)) by (nonlinear_arith);
        assert(2 * u * v * (c1 + x * y) == 2 * u * v * c1 + 2 * u * v * (x * y))
            by (nonlinear_arith);
        assert(v * v * (uu + x * x) == v * v * uu + v * v * (x * x)) by (nonlinear_arith);
        assert(u * u * (vv + y * y) == u * u * vv + u * u * (y * y)) by (nonlinear_arith);
    }
}

/// Cauchy-Schwarz for finite integer sums.
proof fn lemma_sum_cauchy_schwarz(us: Seq<int>, vs: Seq<int>, n: int)
    ensures
        sum_uv(us, vs, n) * sum_uv(us, vs, n) <= sum_uv(us, us, n) * sum_uv(vs, vs, n),
    decreases n,
{
    if n > 0 {
        lemma_sum_cauchy_schwarz(us, vs, n - 1);
        let u = us[n - 1];
        let v = vs[n - 1];
        lemma_sum_cross(us, vs, n - 1, u, v);
        let c = sum_uv(us, vs, n - 1);
        let uu = sum_uv(us, us, n - 1);
        let vv = sum_uv(vs, vs, n - 1);
        assert((c + u * v) * (c + u * v) == c * c + 2 * u * v * c + (u * u) * (v * v))
            by (nonlinear_arith);
        assert((uu + u * u) * (vv + v * v) == uu * vv + v * v * uu + u * u * vv + (u * u) * (v
            * v)) by (nonlinear_arith);
        assert((c + u * v) * (c + u * v) <= (uu + u * u) * (vv + v * v));
    }
}

/// Cauchy-Schwarz for the bigram count vectors of two strings: the squared
/// dot product never exceeds the product of the self dot products, so the
/// cosine of the two count vectors never exceeds one.
pub proof fn lemma_bigram_dot_cauchy_schwarz(a: Seq<char>, b: Seq<char>)
    requires
        a.len() >= 1,
        b.len() >= 1,
    ensures
        bigram_dot(a, b) * bigram_dot(a, b) <= bigram_dot(a, a) * bigram_dot(b, b),
{
    let all = pair_list(a) + pair_list(b);
    let gs = dedup_pairs(all);
    lemma_dedup_pairs_props(all);
    assert forall|i: int| 0 <= i < a.len() - 1 implies gs.contains(#[trigger] pair_at(a, i)) by {
        assert(all[i] == pair_at(a, i));
        assert(all.contains(pair_at(a, i)));
    };
    assert forall|j: int| 0 <= j < b.len() - 1 implies gs.contains(#[trigger] pair_at(b, j)) by {
        assert(all[a.len() - 1 + j] == pair_at(b, j));
        assert(all.contains(pair_at(b, j)));
    };
    let m = gs.len() as int;
    let us = gs.map_values(|g: (char, char)| occ(a, g));
    let vs = gs.map_values(|g: (char, char)| occ(b, g));
    lemma_dot_regroup(a, b, gs, a.len() - 1);
    lemma_dot_regroup(a, a, gs, a.len() - 1);
    lemma_dot_regroup(b, b, gs, b.len() - 1);
    assert(gs.map_values(|g: (char, char)| occ_upto(a, g, a.len() - 1)) =~= us);
    assert(gs.map_values(|g: (char, char)| occ_upto(b, g, b.len() - 1)) =~= vs);
    lemma_sum_cauchy_schwarz(us, vs, m);
}

/// Bigram cosine similarity, in fixed-point.  Two empty strings are fully
/// similar; exactly one empty string is fully dissimilar; a string of fewer
/// than two characters has no bigrams, so any comparison involving it scores
/// zero — even between two identical one-character strings.  Otherwise the
/// value is the integer square root of `SCALE^2 * dot(a,b)^2 / (dot(a,a) *
/// dot(b,b))`, which is the cosine of the two count vectors scaled by
/// `SCALE` and rounded down; by Cauchy-Schwarz it never exceeds `SCALE`.
pub open spec fn spec_bigram_similarity(a: Seq<char>, b: Seq<char>) -> int {
    if a.len() == 0 && b.len() == 0 {
        SCALE as int
    } else if a.len() == 0 || b.len() == 0 {
        0
    } else if a.len() < 2 || b.len() < 2 {
        0
    } else {
        let d = bigram_dot(a, b);
        sqrt_floor(SCALE * SCALE * d * d / (bigram_dot(a, a) * bigram_dot(b, b)))
    }
}

proof fn lemma_mul_le(u: int, v: int, cap_u: int, cap_v: int)
    by (nonlinear_arith)
    requires
        0 <= u <= cap_u,
        0 <= v <= cap_v,
    ensures
        u * v <= cap_u * cap_v,
{
}

/// Bigram cosine similarity of two strings.
pub fn bigram_similarity(value: &str, query: &str) -> (r: u64)
    requires
        value@.len() <= MAX_LEN,
        query@.len() <= MAX_LEN,
    ensures
        r == spec_bigram_similarity(value@, query@),
        r <= SCALE,
{
    if value.is_empty() && query.is_empty() {
        return SCALE;
    }
    if value.is_empty() || query.is_empty() {
        return 0;
    }
    let ca = chars_of(value);
    let cb = chars_of(query);
    if ca.len() < 2 || cb.len() < 2 {
        return 0;
    }
    let d = bigram_dot_exec(&ca, &cb);
    let na = bigram_dot_exec(&ca, &ca);
    let nb = bigram_dot_exec(&cb, &cb);
    proof {
        lemma_dot_self_pos(ca@);
        lemma_dot_self_pos(cb@);
        // d, na and nb are each at most (MAX_LEN - 1)^2 < 2^42
        lemma_mul_le(ca@.len() - 1, cb@.len() - 1, MAX_LEN - 1, MAX_LEN - 1);
        lemma_mul_le(ca@.len() - 1, ca@.len() - 1, MAX_LEN - 1, MAX_LEN - 1);
        lemma_mul_le(cb@.len() - 1, cb@.len() - 1, MAX_LEN - 1, MAX_LEN - 1);
        lemma_mul_le(d as int, d as int, 0x400_0000_0000, 0x400_0000_0000);
        lemma_mul_le(na as int, nb as int, 0x400_0000_0000, 0x400_0000_0000);
    }
    let dd: u128 = (d as u128) * (d as u128);
    proof {
        lemma_mul_le(
            (SCALE as int) * (SCALE as int),
            dd as int,
            1_000_000_000_000,
            0x10_0000_0000_0000_0000_0000,
        );
    }
    let num: u128 = (SCALE as u128) * (SCALE as u128) * dd;
    let den: u128 = (na as u128) * (nb as u128);
    proof {
        assert(den as int >= 1) by (nonlinear_arith)
            requires
                den as int == (na as int) * (nb as int),
                na as int >= 1,
                nb as int >= 1,
        ;
    }
    let q = num / den;
    proof {
        assert(q as int <= num as int) by (nonlinear_arith)
            requires
                den as int >= 1,
                num as int >= 0,
                q as int == (num as int) / (den as int),
        ;
        assert(num as int == SCALE * SCALE * (d as int) * (d as int)) by (nonlinear_arith)
            requires
                num as int == ((SCALE as int) * (SCALE as int)) * (dd as int),
                dd as int == (d as int) * (d as int),
        ;
    }
    let r0 = isqrt(q);
    proof {
        lemma_sqrt_floor_unique(q as int, r0 as int);
        lemma_bigram_similarity_bounds(value@, query@);
    }
    r0
}

/// Bigram similarity always lies between zero and the fixed-point unit; the
/// upper bound is the Cauchy-Schwarz inequality.
pub proof fn lemma_bigram_similarity_bounds(a: Seq<char>, b: Seq<char>)
    ensures
        0 <= spec_bigram_similarity(a, b) <= SCALE,
{
    if a.len() >= 2 && b.len() >= 2 {
        let d = bigram_dot(a, b);
        let na = bigram_dot(a, a);
        let nb = bigram_dot(b, b);
        lemma_dot_upto_bounds(a, b, a.len() - 1);
        lemma_dot_self_pos(a);
        lemma_dot_self_pos(b);
        lemma_bigram_dot_cauchy_schwarz(a, b);
        let q = SCALE * SCALE * d * d / (na * nb);
        assert(q >= 0) by (nonlinear_arith)
            requires
                d >= 0,
                na >= 1,
                nb >= 1,
                q == SCALE * SCALE * d * d / (na * nb),
        ;
        // The numerator is at most SCALE^2 times the denominator
        assert(SCALE * SCALE * d * d == (SCALE as int) * (SCALE as int) * (d * d))
            by (nonlinear_arith);
        assert((SCALE as int) * (SCALE as int) * (d * d) <= (SCALE as int) * (SCALE as int) * (na
            * nb)) by (nonlinear_arith)
            requires
                d * d <= na * nb,
        ;
        assert(na * nb >= 1) by (nonlinear_arith)
            requires
                na >= 1,
                nb >= 1,
        ;
        lemma_div_is_ordered(
            (SCALE as int) * (SCALE as int) * (d * d),
            (SCALE as int) * (SCALE as int) * (na * nb),
            na * nb,
        );
        assert((SCALE as int) * (SCALE as int) * (na * nb) == (na * nb) * ((SCALE as int) * (
        SCALE as int))) by (nonlinear_arith);
        lemma_div_multiples_vanish((SCALE as int) * (SCALE as int), na * nb);
        assert(q <= (SCALE as int) * (SCALE as int));
        lemma_sqrt_floor_exists(q);
        let r = sqrt_floor(q);
        if r > SCALE {
            assert(r * r >= (SCALE as int + 1) * (SCALE as int + 1)) by (nonlinear_arith)
                requires
                    r >= SCALE as int + 1,
                    r >= 0,
            ;
            assert((SCALE as int + 1) * (SCALE as int + 1) > (SCALE as int) * (SCALE as int))
                by (nonlinear_arith);
            assert(false);
        }
    }
}

/// A string with at least two characters is always fully bigram-similar to
/// itself.
pub proof fn lemma_bigram_similarity_self(a: Seq<char>)
    requires
        a.len() >= 2,
    ensures
        spec_bigram_similarity(a, a) == SCALE,
{
    lemma_dot_self_pos(a);
    let d = bigram_dot(a, a);
    assert(d * d >= 1) by (nonlinear_arith)
        requires
            d >= 1,
    ;
    assert(SCALE * SCALE * d * d == (d * d) * ((SCALE as int) * (SCALE as int)))
        by (nonlinear_arith);
    lemma_div_multiples_vanish((SCALE as int) * (SCALE as int), d * d);
    assert(SCALE * SCALE * d * d / (d * d) == (SCALE as int) * (SCALE as int));
    assert((SCALE as int) * (SCALE as int) < ((SCALE as int) + 1) * ((SCALE as int) + 1))
        by (nonlinear_arith);
    assert(is_sqrt_floor((SCALE as int) * (SCALE as int), SCALE as int));
    lemma_sqrt_floor_unique((SCALE as int) * (SCALE as int), SCALE as int);
}

} // verus!
