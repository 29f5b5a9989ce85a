//! Small string utilities shared by the display layer.
use vstd::prelude::*;
use vstd::string::StrSliceExecFns;
use crate::text::{chars_of, push_char};

verus! {

/// Truncate a string to at most `max_length` characters; a shorter string is
/// returned unchanged.
pub fn cut_of_string(input: &str, max_length: usize) -> (r: String)
    ensures
        input@.len() <= max_length ==> r@ == input@,
        input@.len() > max_length ==> r@ == input@.take(max_length as int),
{
    let n = input.unicode_len();
    if n <= max_length {
        return input.to_owned();
    }
    let cs = chars_of(input);
    let mut r = String::new();
    let mut i: usize = 0;
    while i < max_length
        invariant
            i <= max_length,
            max_length < cs@.len(),
            cs@ == input@,
            r@ == input@.take(i as int),
        decreases max_length - i,
    {
        push_char(&mut r, cs[i]);
        proof {
            assert(input@.take(i + 1) =~= input@.take(i as int).push(input@[i as int]));
        }
        i += 1;
    }
    r
}

/// Character-wise string equality.
pub fn str_eq(a: &str, b: &str) -> (r: bool)
    ensures
        r == (a@ == b@),
{
    let na = a.unicode_len();
    let nb = b.unicode_len();
    if na != nb {
        proof {
            assert(a@ != b@);
        }
        return false;
    }
    let ca = chars_of(a);
    let cb = chars_of(b);
    let mut i: usize = 0;
    while i < na
        invariant
            i <= na,
            na == a@.len() == b@.len(),
            ca@ == a@,
            cb@ == b@,
            forall|k: int| 0 <= k < i ==> a@[k] == b@[k],
        decreases na - i,
    {
        if ca[i] != cb[i] {
            return false;
        }
        i += 1;
    }
    proof {
        assert(a@ =~= b@);
    }
    true
}

} // verus!
