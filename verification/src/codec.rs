//! The codec operations: encoding a tagged value to a flat buffer and
//! decoding a buffer back, plus the two introspection helpers.

use vstd::prelude::*;
use vstd::slice::{slice_index_get, slice_subrange};
use crate::bytes::{strip_zeros, stripped_len, zero_pad};
use crate::schema::Schema;
use crate::utf8::{check_utf8, is_utf8};

verus! {

/// A value of a tagged union, reduced to what the wire format carries: the
/// index of its active variant in the schema and the raw bytes of its
/// payload.
#[derive(Debug, PartialEq, Eq)]
pub struct TaggedValue {
    pub variant: usize,
    pub payload: Vec<u8>,
}

impl TaggedValue {
    /// Whether the value fits `s`: a known variant, and a payload of exactly
    /// that variant's size.
    pub open spec fn valid(self, s: Schema) -> bool {
        &&& (self.variant as int) < s.num_variants()
        &&& self.payload@.len() == s.size_of(self.variant as int)
    }
}

/// Why a buffer cannot be decoded.
#[derive(Debug, Clone, Copy, PartialEq, Eq, Structural)]
pub enum CodecError {
    /// The buffer is too short for the tag segment, or for the payload the
    /// tag announces.
    ShortBuffer,
    /// The tag segment is not well-formed UTF-8, so it cannot be read as a
    /// name.
    MalformedTag,
    /// The tag segment, stripped of its padding, names no variant of the
    /// schema.
    UnknownTag,
}

impl Schema {
    /// The encoded buffer of variant `i` with payload bytes `payload`: the
    /// name, zero-padded to the tag width, followed by the payload verbatim.
    pub open spec fn spec_encode(self, i: int, payload: Seq<u8>) -> Seq<u8> {
        zero_pad(self.name_of(i), self.spec_tag_width()) + payload
    }

    /// What decoding `buf` yields: the variant index named by the stripped
    /// tag segment and the payload bytes that follow it, or the error the
    /// buffer deserves.
    pub open spec fn spec_decode(self, buf: Seq<u8>) -> Result<(int, Seq<u8>), CodecError> {
        if buf.len() < self.spec_tag_width() {
            Err(CodecError::ShortBuffer)
        } else {
            let tag = buf.subrange(0, self.spec_tag_width());
            if !is_utf8(tag) {
                Err(CodecError::MalformedTag)
            } else {
                match self.spec_find(strip_zeros(tag)) {
                    None => Err(CodecError::UnknownTag),
                    Some(i) => {
                        if buf.len() < self.spec_tag_width() + self.size_of(i) {
                            Err(CodecError::ShortBuffer)
                        } else {
                            Ok(
                                (
                                    i,
                                    buf.subrange(
                                        self.spec_tag_width(),
                                        self.spec_tag_width() + self.size_of(i),
                                    ),
                                ),
                            )
                        }
                    },
                }
            }
        }
    }

    /// What introspecting a padded tag yields: the payload size of the
    /// variant the stripped tag names, or the error the tag deserves.
    pub open spec fn spec_size_of_data(self, tag: Seq<u8>) -> Result<int, CodecError> {
        if !is_utf8(tag) {
            Err(CodecError::MalformedTag)
        } else {
            match self.spec_find(strip_zeros(tag)) {
                None => Err(CodecError::UnknownTag),
                Some(i) => Ok(self.size_of(i)),
            }
        }
    }

    /// Encodes `v`: the variant name, right-padded with zero bytes to the
    /// tag width, followed by the raw payload bytes.
    pub fn serialize(&self, v: &TaggedValue) -> (r: Vec<u8>)
        requires
            self.wf(),
            v.valid(*self),
        ensures
            r@ == self.spec_encode(v.variant as int, v.payload@),
            r@.len() == self.spec_tag_width() + v.payload@.len(),
    {
        let name: &Vec<u8> = &self.variants[v.variant].name;
        let mut out: Vec<u8> = Vec::new();
        let mut i: usize = 0;
        while i < name.len()
            invariant
                i <= name@.len(),
                out@ == name@.subrange(0, i as int),
            decreases name@.len() - i,
        {
            out.push(name[i]);
            proof {
                assert(out@ =~= name@.subrange(0, i + 1));
            }
            i = i + 1;
        }
        proof {
            assert(self.name_of(v.variant as int).len() <= self.spec_tag_width());
            assert(out@ =~= name@);
            assert(out@ =~= zero_pad(name@, name@.len() as int));
        }
        while out.len() < self.tag_width
            invariant
                name@.len() <= out@.len() <= self.tag_width,
                out@ == zero_pad(name@, out@.len() as int),
            decreases self.tag_width - out@.len(),
        {
            out.push(0);
            proof {
                assert(out@ =~= zero_pad(name@, out@.len() as int));
            }
        }
        let mut k: usize = 0;
        while k < v.payload.len()
            invariant
                k <= v.payload@.len(),
                out@ == zero_pad(name@, self.tag_width as int) + v.payload@.subrange(0, k as int),
                self.tag_width == self.spec_tag_width(),
            decreases v.payload@.len() - k,
        {
            out.push(v.payload[k]);
            proof {
                assert(out@ =~= zero_pad(name@, self.tag_width as int) + v.payload@.subrange(
                    0,
                    k + 1,
                ));
            }
            k = k + 1;
        }
        proof {
            assert(v.payload@.subrange(0, v.payload@.len() as int) =~= v.payload@);
        }
        out
    }

    /// Decodes `buf` into a brand-new value.
    pub fn from_raw(&self, buf: &[u8]) -> (r: Result<TaggedValue, CodecError>)
        requires
            self.wf(),
        ensures
            match r {
                Ok(v) => self.spec_decode(buf@) == Ok::<_, CodecError>(
                    (v.variant as int, v.payload@),
                ) && v.valid(*self),
                Err(e) => self.spec_decode(buf@) == Err::<(int, Seq<u8>), _>(e),
            },
    {
        if buf.len() < self.tag_width {
            return Err(CodecError::ShortBuffer);
        }
        let tag: &[u8] = slice_subrange(buf, 0, self.tag_width);
        if !check_utf8(tag) {
            return Err(CodecError::MalformedTag);
        }
        let n: usize = stripped_len(tag);
        let name: &[u8] = slice_subrange(tag, 0, n);
        proof {
            assert(name@ == strip_zeros(tag@));
        }
        match self.find(name) {
            None => Err(CodecError::UnknownTag),
            Some(i) => {
                let size: usize = self.variants[i].payload_size;
                if buf.len() - self.tag_width < size {
                    return Err(CodecError::ShortBuffer);
                }
                let blen: usize = buf.len();
                let mut payload: Vec<u8> = Vec::new();
                let mut k: usize = 0;
                while k < size
                    invariant
                        k <= size,
                        blen == buf@.len(),
                        self.tag_width + size <= blen,
                        payload@ == buf@.subrange(
                            self.tag_width as int,
                            self.tag_width + k as int,
                        ),
                    decreases size - k,
                {
                    payload.push(*slice_index_get(buf, self.tag_width + k));
                    proof {
                        assert(payload@ =~= buf@.subrange(
                            self.tag_width as int,
                            self.tag_width + k + 1,
                        ));
                    }
                    k = k + 1;
                }
                Ok(TaggedValue { variant: i, payload })
            },
        }
    }

    /// Decodes `buf` over an existing value, replacing it wholesale.  On an
    /// error the value is left as it was.
    pub fn deserialize(&self, dst: &mut TaggedValue, buf: &[u8]) -> (r: Result<(), CodecError>)
        requires
            self.wf(),
        ensures
            match r {
                Ok(()) => self.spec_decode(buf@) == Ok::<_, CodecError>(
                    (final(dst).variant as int, final(dst).payload@),
                ) && final(dst).valid(*self),
                Err(e) => self.spec_decode(buf@) == Err::<(int, Seq<u8>), _>(e) && *final(dst)
                    == *old(dst),
            },
    {
        match self.from_raw(buf) {
            Ok(v) => {
                *dst = v;
                Ok(())
            },
            Err(e) => Err(e),
        }
    }

    /// Payload size of the variant that the (possibly zero-padded) tag in
    /// `tag` names.
    pub fn get_size_of_data(&self, tag: &[u8]) -> (r: Result<usize, CodecError>)
        requires
            self.wf(),
        ensures
            match r {
                Ok(size) => self.spec_size_of_data(tag@) == Ok::<_, CodecError>(size as int),
                Err(e) => self.spec_size_of_data(tag@) == Err::<int, _>(e),
            },
    {
        if !check_utf8(tag) {
            return Err(CodecError::MalformedTag);
        }
        let n: usize = stripped_len(tag);
        let name: &[u8] = slice_subrange(tag, 0, n);
        proof {
            assert(name@ == strip_zeros(tag@));
        }
        match self.find(name) {
            None => Err(CodecError::UnknownTag),
            Some(i) => Ok(self.variants[i].payload_size),
        }
    }

    /// Fixed width, in bytes, of the tag segment that starts every encoded
    /// buffer of this schema.
    pub fn get_size_of_payload(&self) -> (r: usize)
        ensures
            r == self.spec_tag_width(),
    {
        self.tag_width
    }
}

} // verus!
