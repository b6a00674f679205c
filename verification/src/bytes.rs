//! Trailing-zero padding of byte strings: stripping it off and putting it on.

use vstd::prelude::*;
use vstd::slice::slice_index_get;

verus! {

/// `s` with every trailing zero byte removed.
pub open spec fn strip_zeros(s: Seq<u8>) -> Seq<u8>
    decreases s.len(),
{
    if s.len() > 0 && s[s.len() - 1] == 0 {
        strip_zeros(s.drop_last())
    } else {
        s
    }
}

/// `name` extended on the right with zero bytes to exactly `w` bytes.
pub open spec fn zero_pad(name: Seq<u8>, w: int) -> Seq<u8>
    recommends
        name.len() <= w,
{
    name + Seq::new((w - name.len()) as nat, |i: int| 0u8)
}

/// Stripping the padding recovers a name that does not itself end in a zero
/// byte.
pub proof fn lemma_strip_zeros_of_padded(name: Seq<u8>, w: int)
    requires
        name.len() <= w,
        name.len() == 0 || name[name.len() - 1] != 0,
    ensures
        strip_zeros(zero_pad(name, w)) == name,
    decreases w - name.len(),
{
    if name.len() == w {
        assert(zero_pad(name, w) =~= name);
    } else {
        let p = zero_pad(name, w);
        assert(p[w - 1] == 0);
        assert(p.drop_last() =~= zero_pad(name, w - 1));
        lemma_strip_zeros_of_padded(name, w - 1);
    }
}

/// Number of bytes of `s` that remain once trailing zeros are stripped.
pub fn stripped_len(s: &[u8]) -> (n: usize)
    ensures
        n <= s@.len(),
        strip_zeros(s@) == s@.subrange(0, n as int),
{
    let mut n: usize = s.len();
    proof {
        assert(s@.subrange(0, n as int) =~= s@);
    }
    while n > 0 && *slice_index_get(s, n - 1) == 0
        invariant
            n <= s@.len(),
            strip_zeros(s@) == strip_zeros(s@.subrange(0, n as int)),
        decreases n,
    {
        proof {
            assert(s@.subrange(0, n as int).drop_last() =~= s@.subrange(0, n - 1));
        }
        n = n - 1;
    }
    n
}

/// Whether two byte strings hold the same bytes.
pub fn bytes_eq(a: &[u8], b: &[u8]) -> (r: bool)
    ensures
        r == (a@ == b@),
{
    if a.len() != b.len() {
        return false;
    }
    let mut i: usize = 0;
    while i < a.len()
        invariant
            i <= a@.len(),
            a@.len() == b@.len(),
            forall|k: int| 0 <= k < i ==> a@[k] == b@[k],
        decreases a@.len() - i,
    {
        if *slice_index_get(a, i) != *slice_index_get(b, i) {
            return false;
        }
        i = i + 1;
    }
    proof {
        assert(a@ =~= b@);
    }
    true
}

} // verus!
