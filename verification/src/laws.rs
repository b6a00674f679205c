//! The codec's laws, each proved once and for all over the spec functions
//! that the executable operations' contracts are stated with.

use vstd::prelude::*;
use crate::bytes::{lemma_strip_zeros_of_padded, strip_zeros, zero_pad};
use crate::codec::CodecError;
use crate::schema::{lemma_find_own_name, name_ok, Schema};
use crate::utf8::{is_utf8, lemma_utf8_concat, lemma_zeros_utf8};

verus! {

/// A well-formed tag segment is valid UTF-8: padding a name a schema admits
/// with zero bytes keeps it readable as text.
pub proof fn lemma_padded_name_utf8(name: Seq<u8>, w: int)
    requires
        name_ok(name),
        name.len() <= w,
    ensures
        is_utf8(zero_pad(name, w)),
{
    lemma_zeros_utf8((w - name.len()) as nat);
    lemma_utf8_concat(name, Seq::new((w - name.len()) as nat, |i: int| 0u8));
}

/// Round-trip: decoding an encoded buffer yields back the variant and the
/// exact payload bytes that were encoded, for every variant of a well-formed
/// schema and every payload of that variant's size.
pub proof fn lemma_round_trip(s: Schema, i: int, payload: Seq<u8>)
    requires
        s.wf(),
        0 <= i < s.num_variants(),
        payload.len() == s.size_of(i),
    ensures
        s.spec_decode(s.spec_encode(i, payload)) == Ok::<_, CodecError>((i, payload)),
{
    let w = s.spec_tag_width();
    let name = s.name_of(i);
    let enc = s.spec_encode(i, payload);
    assert(name_ok(name));
    assert(name.len() <= w);
    assert(enc.len() == w + payload.len());
    assert(enc.subrange(0, w) =~= zero_pad(name, w));
    lemma_padded_name_utf8(name, w);
    lemma_strip_zeros_of_padded(name, w);
    lemma_find_own_name(s, i);
    assert(enc.subrange(w, w + s.size_of(i)) =~= payload);
}

/// Header width stability: the tag width a schema reports is a pure
/// attribute of the schema — the byte length of its longest variant name —
/// so every call of `get_size_of_payload` on the same schema returns the
/// same number.
pub proof fn lemma_header_width(s: Schema)
    requires
        s.wf(),
    ensures
        forall|i: int| 0 <= i < s.num_variants() ==> #[trigger] s.name_of(i).len()
            <= s.spec_tag_width(),
        exists|i: int|
            0 <= i < s.num_variants() && #[trigger] s.name_of(i).len() == s.spec_tag_width(),
{
}

/// Padding correctness: in an encoded buffer, the bytes of the tag segment
/// past the variant's name are all zero, and those before them are the name
/// itself.
pub proof fn lemma_padding(s: Schema, i: int, payload: Seq<u8>)
    requires
        s.wf(),
        0 <= i < s.num_variants(),
        payload.len() == s.size_of(i),
    ensures
        forall|j: int|
            s.name_of(i).len() <= j < s.spec_tag_width() ==> #[trigger] s.spec_encode(
                i,
                payload,
            )[j] == 0,
        forall|j: int|
            0 <= j < s.name_of(i).len() ==> #[trigger] s.spec_encode(i, payload)[j] == s.name_of(
                i,
            )[j],
{
}

/// Unknown tag is fatal: a buffer whose tag segment reads as text but,
/// stripped of padding, names no variant decodes to the unknown-tag error,
/// never to a value.
pub proof fn lemma_unknown_tag_fatal(s: Schema, buf: Seq<u8>)
    requires
        s.wf(),
        buf.len() >= s.spec_tag_width(),
        is_utf8(buf.subrange(0, s.spec_tag_width())),
        s.spec_find(strip_zeros(buf.subrange(0, s.spec_tag_width()))) is None,
    ensures
        s.spec_decode(buf) == Err::<(int, Seq<u8>), _>(CodecError::UnknownTag),
{
}

/// Idempotent introspection: `get_size_of_data` on the padded tag of a
/// variant returns exactly that variant's payload size, whatever width the
/// padding fills, so in particular on the tag segment of every encoded
/// buffer of that variant.
pub proof fn lemma_introspection(s: Schema, i: int, w: int)
    requires
        s.wf(),
        0 <= i < s.num_variants(),
        s.name_of(i).len() <= w,
    ensures
        s.spec_size_of_data(zero_pad(s.name_of(i), w)) == Ok::<_, CodecError>(s.size_of(i)),
{
    let name = s.name_of(i);
    assert(name_ok(name));
    lemma_padded_name_utf8(name, w);
    lemma_strip_zeros_of_padded(name, w);
    lemma_find_own_name(s, i);
}

} // verus!
