//! Small verified text helpers shared across the crate.

use vstd::prelude::*;

verus! {

/// Append all bytes of `p` to `v`, in order.
pub fn push_bytes(v: &mut Vec<u8>, p: &[u8])
    ensures
        final(v)@ == old(v)@ + p@,
{
    let len = p.len();
    let mut k: usize = 0;
    while k < len
        invariant
            k <= len,
            len == p@.len(),
            v@ == old(v)@ + p@.subrange(0, k as int),
        decreases len - k,
    {
        let b = p[k];
        v.push(b);
        proof {
            assert(old(v)@ + p@.subrange(0, k as int) + seq![p@[k as int]] =~= old(v)@
                + p@.subrange(0, k + 1));
        }
        k = k + 1;
    }
    proof {
        assert(p@.subrange(0, p@.len() as int) =~= p@);
    }
}

/// Whether two string slices hold the same characters.
pub fn str_eq(a: &str, b: &str) -> (r: bool)
    ensures
        r == (a@ == b@),
{
    let n = a.unicode_len();
    let m = b.unicode_len();
    if n != m {
        return false;
    }
    let mut i: usize = 0;
    while i < n
        invariant
            n == a@.len(),
            n == b@.len(),
            0 <= i <= n,
            forall|k: int| 0 <= k < i ==> a@[k] == b@[k],
        decreases n - i,
    {
        if a.get_char(i) != b.get_char(i) {
            return false;
        }
        i = i + 1;
    }
    proof {
        assert(a@ =~= b@);
    }
    true
}

} // verus!
