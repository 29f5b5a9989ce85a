//! Word-boundary tokenization: a token is a maximal run of word characters
//! (ASCII alphanumerics or underscore).  Token-set similarity compares two
//! strings by the Jaccard index of their token sets.
use vstd::prelude::*;
use vstd::set_lib::{lemma_len_subset, lemma_set_disjoint_lens};
use crate::score::{SCALE, MAX_LEN};
use crate::text::{is_ascii_alnum, char_is_ascii_alnum, chars_of, push_char};

verus! {

/// A word character: ASCII alphanumeric or underscore.
pub open spec fn is_word_char(c: char) -> bool {
    is_ascii_alnum(c) || c == '_'
}

pub fn char_is_word(c: char) -> (r: bool)
    ensures
        r == is_word_char(c),
{
    char_is_ascii_alnum(c) || c == '_'
}

/// Left-to-right scan from position `i`: `cur` is the word run in progress,
/// `acc` the completed runs so far.
pub open spec fn tok_scan(s: Seq<char>, i: int, cur: Seq<char>, acc: Seq<Seq<char>>) -> Seq<
    Seq<char>,
>
    decreases s.len() - i,
{
    if i < 0 || i >= s.len() {
        if cur.len() > 0 {
            acc.push(cur)
        } else {
            acc
        }
    } else if is_word_char(s[i]) {
        tok_scan(s, i + 1, cur.push(s[i]), acc)
    } else if cur.len() > 0 {
        tok_scan(s, i + 1, Seq::empty(), acc.push(cur))
    } else {
        tok_scan(s, i + 1, Seq::empty(), acc)
    }
}

/// The maximal word-character runs of `s`, in order of appearance.
pub open spec fn token_list(s: Seq<char>) -> Seq<Seq<char>> {
    tok_scan(s, 0, Seq::empty(), Seq::empty())
}

/// The set of distinct tokens of `s`.
pub open spec fn token_set(s: Seq<char>) -> Set<Seq<char>> {
    token_list(s).to_set()
}

/// The tokens of `s` in order of appearance, possibly with repeats.
pub fn tokens_of(s: &Vec<char>) -> (r: Vec<String>)
    ensures
        r.deep_view() == token_list(s@),
        r@.len() <= s@.len() + 1,
{
    let mut acc: Vec<String> = Vec::new();
    let mut cur: String = String::new();
    let mut i: usize = 0;
    proof {
        assert(acc.deep_view() =~~= Seq::<Seq<char>>::empty());
        assert(cur@ =~= Seq::<char>::empty());
    }
    while i < s.len()
        invariant
            i <= s@.len(),
            acc@.len() + cur@.len() <= i,
            token_list(s@) == tok_scan(s@, i as int, cur@, acc.deep_view()),
        decreases s@.len() - i,
    {
        let c = s[i];
        let ghost old_cur = cur@;
        let ghost old_acc = acc.deep_view();
        if char_is_word(c) {
            push_char(&mut cur, c);
            assert(tok_scan(s@, i as int, old_cur, old_acc) == tok_scan(
                s@,
                i + 1,
                cur@,
                acc.deep_view(),
            ));
        } else if !cur.as_str().is_empty() {
            acc.push(cur);
            assert(acc.deep_view() =~~= old_acc.push(old_cur));
            cur = String::new();
            assert(cur@ =~= Seq::<char>::empty());
            assert(tok_scan(s@, i as int, old_cur, old_acc) == tok_scan(
                s@,
                i + 1,
                cur@,
                acc.deep_view(),
            ));
        } else {
            assert(old_cur =~= Seq::<char>::empty());
            assert(tok_scan(s@, i as int, old_cur, old_acc) == tok_scan(
                s@,
                i + 1,
                cur@,
                acc.deep_view(),
            ));
        }
        i += 1;
    }
    let ghost end_cur = cur@;
    let ghost end_acc = acc.deep_view();
    if !cur.as_str().is_empty() {
        acc.push(cur);
        assert(acc.deep_view() =~~= end_acc.push(end_cur));
        assert(tok_scan(s@, s@.len() as int, end_cur, end_acc) == acc.deep_view());
    } else {
        assert(tok_scan(s@, s@.len() as int, end_cur, end_acc) == acc.deep_view());
    }
    acc
}

/// Whether some element of `v` has the same characters as `t`.
fn contains_string(v: &Vec<String>, t: &String) -> (r: bool)
    ensures
        r == v.deep_view().contains(t@),
{
    let mut i: usize = 0;
    while i < v.len()
        invariant
            i <= v@.len(),
            forall|k: int| 0 <= k < i ==> v.deep_view()[k] != t@,
        decreases v@.len() - i,
    {
        let x = &v[i];
        if x.eq(t) {
            assert(v.deep_view()[i as int] == t@);
            return true;
        }
        i += 1;
    }
    assert(!v.deep_view().contains(t@)) by {
        if v.deep_view().contains(t@) {
            let k = choose|k: int| 0 <= k < v.deep_view().len() && v.deep_view()[k] == t@;
        }
    }
    false
}

proof fn lemma_to_set_push<A>(s: Seq<A>, x: A)
    ensures
        s.push(x).to_set() =~= s.to_set().insert(x),
{
    assert forall|e: A| #[trigger] s.push(x).to_set().contains(e) implies s.to_set().insert(
        x,
    ).contains(e) by {
        let k = choose|k: int| 0 <= k < s.push(x).len() && s.push(x)[k] == e;
        if k < s.len() {
            assert(s[k] == e);
            assert(s.contains(e));
        }
    };
    assert forall|e: A| s.to_set().insert(x).contains(e) implies #[trigger] s.push(
        x,
    ).to_set().contains(e) by {
        if e == x {
            assert(s.push(x)[s.len() as int] == e);
        } else {
            let k = choose|k: int| 0 <= k < s.len() && s[k] == e;
            assert(s.push(x)[k] == e);
        }
        assert(s.push(x).contains(e));
    };
}

pub(crate) proof fn lemma_no_dup_push<A>(s: Seq<A>, x: A)
    requires
        s.no_duplicates(),
        !s.contains(x),
    ensures
        s.push(x).no_duplicates(),
{
    assert forall|i: int, j: int|
        0 <= i < s.push(x).len() && 0 <= j < s.push(x).len() && i != j implies s.push(x)[i] != s.push(
        x,
    )[j] by {
        if i < s.len() && j < s.len() {
        } else if i < s.len() {
            if s[i] == x {
                assert(s.contains(x));
            }
        } else if j < s.len() {
            if s[j] == x {
                assert(s.contains(x));
            }
        }
    };
}

/// The distinct elements of `v`, keeping first occurrences.
pub fn dedup_strings(v: Vec<String>) -> (r: Vec<String>)
    ensures
        r.deep_view().no_duplicates(),
        r.deep_view().to_set() == v.deep_view().to_set(),
        r@.len() <= v@.len(),
{
    let mut r: Vec<String> = Vec::new();
    let mut i: usize = 0;
    proof {
        assert(r.deep_view() =~~= Seq::<Seq<char>>::empty());
        assert(v.deep_view().take(0).to_set() =~= Seq::<Seq<char>>::empty().to_set());
    }
    while i < v.len()
        invariant
            i <= v@.len(),
            r@.len() <= i,
            r.deep_view().no_duplicates(),
            r.deep_view().to_set() == v.deep_view().take(i as int).to_set(),
        decreases v@.len() - i,
    {
        let ghost old_r = r.deep_view();
        let ghost taken = v.deep_view().take(i as int);
        let x = &v[i];
        proof {
            assert(v.deep_view().take(i + 1) =~= taken.push(v.deep_view()[i as int]));
            lemma_to_set_push(taken, v.deep_view()[i as int]);
        }
        if !contains_string(&r, x) {
            r.push(x.clone());
            proof {
                assert(r.deep_view() =~~= old_r.push(x@));
                lemma_to_set_push(old_r, x@);
                lemma_no_dup_push(old_r, x@);
                assert(r.deep_view().to_set() =~= v.deep_view().take(i + 1).to_set());
            }
        } else {
            proof {
                assert(taken.to_set().contains(x@));
                assert(taken.to_set().insert(x@) =~= taken.to_set());
                assert(r.deep_view().to_set() =~= v.deep_view().take(i + 1).to_set());
            }
        }
        i += 1;
    }
    proof {
        assert(v.deep_view().take(v@.len() as int) =~~= v.deep_view());
    }
    r
}

/// How many of the first `n` elements of `d` lie in the set `b`.
spec fn count_matches(d: Seq<Seq<char>>, b: Set<Seq<char>>, n: int) -> int
    decreases n,
{
    if n <= 0 {
        0
    } else {
        count_matches(d, b, n - 1) + if b.contains(d[n - 1]) {
            1int
        } else {
            0int
        }
    }
}

fn count_matching(d: &Vec<String>, b: &Vec<String>) -> (r: usize)
    ensures
        r == count_matches(d.deep_view(), b.deep_view().to_set(), d@.len() as int),
        r <= d@.len(),
{
    let mut i: usize = 0;
    let mut c: usize = 0;
    while i < d.len()
        invariant
            i <= d@.len(),
            c <= i,
            c == count_matches(d.deep_view(), b.deep_view().to_set(), i as int),
        decreases d@.len() - i,
    {
        if contains_string(b, &d[i]) {
            assert(b.deep_view().to_set().contains(d.deep_view()[i as int]));
            c += 1;
        } else {
            assert(!b.deep_view().to_set().contains(d.deep_view()[i as int]));
        }
        i += 1;
    }
    c
}

/// On a duplicate-free sequence, `count_matches` is the cardinality of the
/// intersection with `b`.
proof fn lemma_count_inter_card(d: Seq<Seq<char>>, b: Set<Seq<char>>, n: int)
    requires
        0 <= n <= d.len(),
        d.no_duplicates(),
        b.finite(),
    ensures
        count_matches(d, b, n) == d.take(n).to_set().intersect(b).len(),
        d.take(n).to_set().intersect(b).finite(),
    decreases n,
{
    broadcast use vstd::seq_lib::seq_to_set_is_finite;

    if n == 0 {
        assert(d.take(0).to_set() =~= Set::<Seq<char>>::empty());
        assert(d.take(0).to_set().intersect(b) =~= Set::<Seq<char>>::empty());
    } else {
        lemma_count_inter_card(d, b, n - 1);
        let x = d[n - 1];
        let prev = d.take(n - 1);
        let s = prev.to_set();
        assert(d.take(n) =~= prev.push(x));
        lemma_to_set_push(prev, x);
        assert(!s.contains(x)) by {
            if s.contains(x) {
                let k = choose|k: int| 0 <= k < prev.len() && prev[k] == x;
                assert(d[k] == d[n - 1]);
            }
        };
        if b.contains(x) {
            assert(s.insert(x).intersect(b) =~= s.intersect(b).insert(x));
            assert(!s.intersect(b).contains(x));
        } else {
            assert(s.insert(x).intersect(b) =~= s.intersect(b));
        }
    }
}

/// On a duplicate-free sequence, the elements not matched by `count_matches`
/// are exactly the set difference with `b`.
proof fn lemma_count_diff_card(d: Seq<Seq<char>>, b: Set<Seq<char>>, n: int)
    requires
        0 <= n <= d.len(),
        d.no_duplicates(),
        b.finite(),
    ensures
        n - count_matches(d, b, n) == d.take(n).to_set().difference(b).len(),
        d.take(n).to_set().difference(b).finite(),
        0 <= count_matches(d, b, n) <= n,
    decreases n,
{
    broadcast use vstd::seq_lib::seq_to_set_is_finite;

    if n == 0 {
        assert(d.take(0).to_set() =~= Set::<Seq<char>>::empty());
        assert(d.take(0).to_set().difference(b) =~= Set::<Seq<char>>::empty());
    } else {
        lemma_count_diff_card(d, b, n - 1);
        let x = d[n - 1];
        let prev = d.take(n - 1);
        let s = prev.to_set();
        assert(d.take(n) =~= prev.push(x));
        lemma_to_set_push(prev, x);
        assert(!s.contains(x)) by {
            if s.contains(x) {
                let k = choose|k: int| 0 <= k < prev.len() && prev[k] == x;
                assert(d[k] == d[n - 1]);
            }
        };
        if b.contains(x) {
            assert(s.insert(x).difference(b) =~= s.difference(b));
        } else {
            assert(s.insert(x).difference(b) =~= s.difference(b).insert(x));
            assert(!s.difference(b).contains(x));
        }
    }
}

/// The cardinality of a union, written as `|a|` plus the part of `b` that
/// lies outside `a`.
proof fn lemma_union_card<A>(a: Set<A>, b: Set<A>)
    requires
        a.finite(),
        b.finite(),
    ensures
        a.union(b).len() == a.len() + b.difference(a).len(),
{
    broadcast use lemma_set_disjoint_lens;

    assert(a.union(b) =~= a + b.difference(a));
    assert(a.disjoint(b.difference(a)));
}

/// Token-set similarity, in fixed-point: the Jaccard index of the two
/// strings' token sets.  Two empty strings are fully similar; exactly one
/// empty string is fully dissimilar; two non-empty strings with no tokens at
/// all (punctuation only) score zero.
pub open spec fn spec_token_similarity(a: Seq<char>, b: Seq<char>) -> int {
    if a.len() == 0 && b.len() == 0 {
        SCALE as int
    } else if a.len() == 0 || b.len() == 0 {
        0
    } else {
        let inter = token_set(a).intersect(token_set(b)).len();
        let uni = token_set(a).union(token_set(b)).len();
        if uni == 0 {
            0
        } else {
            SCALE * inter / uni as int
        }
    }
}

proof fn lemma_div_le_scale(x: int, y: int, s: int)
    by (nonlinear_arith)
    requires
        0 <= x <= y,
        1 <= y,
        0 <= s,
    ensures
        0 <= x * s / y <= s,
{
}

/// Token-set similarity of two strings.
pub fn token_similarity(value: &str, query: &str) -> (r: u64)
    requires
        value@.len() <= MAX_LEN,
        query@.len() <= MAX_LEN,
    ensures
        r == spec_token_similarity(value@, query@),
        r <= SCALE,
{
    broadcast use vstd::seq_lib::seq_to_set_is_finite;

    if value.is_empty() && query.is_empty() {
        return SCALE;
    }
    if value.is_empty() || query.is_empty() {
        return 0;
    }
    let ca = chars_of(value);
    let cb = chars_of(query);
    let ta = dedup_strings(tokens_of(&ca));
    let tb = dedup_strings(tokens_of(&cb));
    let ghost ass = token_set(value@);
    let ghost bss = token_set(query@);
    proof {
        assert(ta.deep_view().to_set() == ass);
        assert(tb.deep_view().to_set() == bss);
    }
    let inter = count_matching(&ta, &tb);
    let within = count_matching(&tb, &ta);
    let uni = ta.len() + (tb.len() - within);
    proof {
        assert(ta.deep_view().take(ta@.len() as int) =~~= ta.deep_view());
        assert(tb.deep_view().take(tb@.len() as int) =~~= tb.deep_view());
        lemma_count_inter_card(ta.deep_view(), bss, ta@.len() as int);
        lemma_count_diff_card(tb.deep_view(), ass, tb@.len() as int);
        ta.deep_view().unique_seq_to_set();
        tb.deep_view().unique_seq_to_set();
        lemma_union_card(ass, bss);
        assert(inter == ass.intersect(bss).len());
        assert(uni == ass.union(bss).len());
    }
    if uni == 0 {
        0
    } else {
        proof {
            lemma_len_subset(ass.intersect(bss), ass.union(bss));
            lemma_div_le_scale(inter as int, uni as int, SCALE as int);
        }
        let r = (inter as u64 * SCALE) / (uni as u64);
        r
    }
}

/// A string that yields at least one token is fully similar to itself.
pub proof fn lemma_token_similarity_self(a: Seq<char>)
    requires
        a.len() > 0,
        token_list(a).len() > 0,
    ensures
        spec_token_similarity(a, a) == SCALE,
{
    broadcast use vstd::seq_lib::seq_to_set_is_finite;

    let ts = token_set(a);
    assert(ts.intersect(ts) =~= ts);
    assert(ts.union(ts) =~= ts);
    assert(ts.contains(token_list(a)[0]));
    if ts.len() == 0 {
        ts.lemma_len0_is_empty();
    }
    assert(SCALE * ts.len() as int / ts.len() as int == SCALE) by (nonlinear_arith)
        requires
            ts.len() >= 1,
    ;
}

} // verus!
