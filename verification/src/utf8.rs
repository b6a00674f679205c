//! Byte-level well-formedness of UTF-8, used to decide whether a tag segment
//! can be read as text.

use vstd::prelude::*;
use vstd::slice::slice_index_get;

verus! {

/// A UTF-8 continuation byte (bit pattern `10xxxxxx`).
pub open spec fn is_cont(b: u8) -> bool {
    0x80 <= b < 0xC0
}

/// Byte length of the well-formed UTF-8 scalar value encoded at the start of
/// `s`, or `None` if `s` does not start with one.  Overlong encodings,
/// surrogates and values above U+10FFFF are rejected, as the UTF-8 definition
/// demands.
pub open spec fn first_char_len(s: Seq<u8>) -> Option<int> {
    if s.len() == 0 {
        None
    } else {
        let b0 = s[0];
        if b0 < 0x80 {
            Some(1)
        } else if 0xC2 <= b0 < 0xE0 {
            if s.len() >= 2 && is_cont(s[1]) {
                Some(2)
            } else {
                None
            }
        } else if b0 == 0xE0 {
            if s.len() >= 3 && 0xA0 <= s[1] < 0xC0 && is_cont(s[2]) {
                Some(3)
            } else {
                None
            }
        } else if 0xE1 <= b0 < 0xED || 0xEE <= b0 < 0xF0 {
            if s.len() >= 3 && is_cont(s[1]) && is_cont(s[2]) {
                Some(3)
            } else {
                None
            }
        } else if b0 == 0xED {
            if s.len() >= 3 && 0x80 <= s[1] < 0xA0 && is_cont(s[2]) {
                Some(3)
            } else {
                None
            }
        } else if b0 == 0xF0 {
            if s.len() >= 4 && 0x90 <= s[1] < 0xC0 && is_cont(s[2]) && is_cont(s[3]) {
                Some(4)
            } else {
                None
            }
        } else if 0xF1 <= b0 < 0xF4 {
            if s.len() >= 4 && is_cont(s[1]) && is_cont(s[2]) && is_cont(s[3]) {
                Some(4)
            } else {
                None
            }
        } else if b0 == 0xF4 {
            if s.len() >= 4 && 0x80 <= s[1] < 0x90 && is_cont(s[2]) && is_cont(s[3]) {
                Some(4)
            } else {
                None
            }
        } else {
            None
        }
    }
}

/// Whether `s` is a well-formed UTF-8 byte string.
pub open spec fn is_utf8(s: Seq<u8>) -> bool
    decreases s.len(),
{
    if s.len() == 0 {
        true
    } else {
        match first_char_len(s) {
            None => false,
            Some(k) => is_utf8(s.skip(k)),
        }
    }
}

/// A string of zero bytes is well-formed UTF-8.
pub proof fn lemma_zeros_utf8(n: nat)
    ensures
        is_utf8(Seq::new(n, |i: int| 0u8)),
    decreases n,
{
    if n > 0 {
        let s = Seq::new(n, |i: int| 0u8);
        assert(first_char_len(s) == Some(1int));
        assert(s.skip(1) =~= Seq::new((n - 1) as nat, |i: int| 0u8));
        lemma_zeros_utf8((n - 1) as nat);
    }
}

/// Concatenating two well-formed UTF-8 strings yields a well-formed one.
pub proof fn lemma_utf8_concat(a: Seq<u8>, b: Seq<u8>)
    requires
        is_utf8(a),
        is_utf8(b),
    ensures
        is_utf8(a + b),
    decreases a.len(),
{
    if a.len() == 0 {
        assert(a + b =~= b);
    } else {
        let k = first_char_len(a)->Some_0;
        assert(first_char_len(a + b) == Some(k));
        assert((a + b).skip(k) =~= a.skip(k) + b);
        lemma_utf8_concat(a.skip(k), b);
    }
}

/// Whether `s` is well-formed UTF-8, decided byte by byte.
pub fn check_utf8(s: &[u8]) -> (r: bool)
    ensures
        r == is_utf8(s@),
{
    let len: usize = s.len();
    let mut i: usize = 0;
    proof {
        assert(s@.skip(0) =~= s@);
    }
    while i < len
        invariant
            i <= len,
            len == s@.len(),
            is_utf8(s@) == is_utf8(s@.skip(i as int)),
        decreases len - i,
    {
        let ghost rest = s@.skip(i as int);
        let b0 = *slice_index_get(s, i);
        let k: usize;
        if b0 < 0x80 {
            k = 1;
        } else if 0xC2 <= b0 && b0 < 0xE0 {
            if !(len - i >= 2 && cont_byte(*slice_index_get(s, i + 1))) {
                return false;
            }
            k = 2;
        } else if b0 == 0xE0 {
            if !(len - i >= 3 && 0xA0 <= *slice_index_get(s, i + 1)
                && *slice_index_get(s, i + 1) < 0xC0 && cont_byte(*slice_index_get(s, i + 2))) {
                return false;
            }
            k = 3;
        } else if (0xE1 <= b0 && b0 < 0xED) || (0xEE <= b0 && b0 < 0xF0) {
            if !(len - i >= 3 && cont_byte(*slice_index_get(s, i + 1))
                && cont_byte(*slice_index_get(s, i + 2))) {
                return false;
            }
            k = 3;
        } else if b0 == 0xED {
            if !(len - i >= 3 && 0x80 <= *slice_index_get(s, i + 1)
                && *slice_index_get(s, i + 1) < 0xA0 && cont_byte(*slice_index_get(s, i + 2))) {
                return false;
            }
            k = 3;
        } else if b0 == 0xF0 {
            if !(len - i >= 4 && 0x90 <= *slice_index_get(s, i + 1)
                && *slice_index_get(s, i + 1) < 0xC0 && cont_byte(*slice_index_get(s, i + 2))
                && cont_byte(*slice_index_get(s, i + 3))) {
                return false;
            }
            k = 4;
        } else if 0xF1 <= b0 && b0 < 0xF4 {
            if !(len - i >= 4 && cont_byte(*slice_index_get(s, i + 1))
                && cont_byte(*slice_index_get(s, i + 2)) && cont_byte(*slice_index_get(s, i + 3))) {
                return false;
            }
            k = 4;
        } else if b0 == 0xF4 {
            if !(len - i >= 4 && 0x80 <= *slice_index_get(s, i + 1)
                && *slice_index_get(s, i + 1) < 0x90 && cont_byte(*slice_index_get(s, i + 2))
                && cont_byte(*slice_index_get(s, i + 3))) {
                return false;
            }
            k = 4;
        } else {
            proof {
                assert(first_char_len(rest) is None);
            }
            return false;
        }
        proof {
            assert(first_char_len(rest) == Some(k as int));
            assert(rest.skip(k as int) =~= s@.skip(i + k));
        }
        i = i + k;
    }
    proof {
        assert(s@.skip(i as int) =~= Seq::<u8>::empty());
    }
    true
}

/// Whether `b` is a UTF-8 continuation byte.
fn cont_byte(b: u8) -> (r: bool)
    ensures
        r == is_cont(b),
{
    0x80 <= b && b < 0xC0
}

} // verus!
