//! The per-type schema of a tagged union: its variant names, their payload
//! sizes, and the fixed tag width derived from them.

use vstd::prelude::*;
use crate::bytes::bytes_eq;
use crate::utf8::{check_utf8, is_utf8};

verus! {

/// One variant of a tagged union: its name as encoded bytes and the size in
/// bytes of its payload type.
#[derive(Debug)]
pub struct Variant {
    pub name: Vec<u8>,
    pub payload_size: usize,
}

/// Why a variant list cannot form a schema.
#[derive(Debug, Clone, Copy, PartialEq, Eq, Structural)]
pub enum SchemaError {
    /// The union has no variant at all.
    EmptyUnion,
    /// A variant name is empty.
    EmptyName,
    /// A variant name contains a zero byte, which would be indistinguishable
    /// from padding.
    ZeroByteInName,
    /// A variant name is not well-formed UTF-8.
    NameNotUtf8,
    /// Two variants carry the same name.
    DuplicateName,
}

/// A name a schema admits: non-empty text without zero bytes.
pub open spec fn name_ok(name: Seq<u8>) -> bool {
    &&& name.len() > 0
    &&& is_utf8(name)
    &&& forall|k: int| 0 <= k < name.len() ==> name[k] != 0
}

/// The defect of the variant at index `i`, if it has one, its checks in a
/// fixed order.  A duplicate is charged to the later of the two indices.
pub open spec fn variant_defect(vs: Seq<Variant>, i: int) -> Option<SchemaError> {
    if vs[i].name@.len() == 0 {
        Some(SchemaError::EmptyName)
    } else if exists|k: int| 0 <= k < vs[i].name@.len() && vs[i].name@[k] == 0 {
        Some(SchemaError::ZeroByteInName)
    } else if !is_utf8(vs[i].name@) {
        Some(SchemaError::NameNotUtf8)
    } else if exists|j: int| 0 <= j < i && vs[j].name@ == vs[i].name@ {
        Some(SchemaError::DuplicateName)
    } else {
        None
    }
}

/// The defect of the first defective variant at or after index `i`.
pub open spec fn first_defect(vs: Seq<Variant>, i: int) -> Option<SchemaError>
    decreases vs.len() - i,
{
    if i < 0 || i >= vs.len() {
        None
    } else if variant_defect(vs, i) is Some {
        variant_defect(vs, i)
    } else {
        first_defect(vs, i + 1)
    }
}

/// Skipping defect-free variants does not change the first defect.
pub proof fn lemma_first_defect_skip(vs: Seq<Variant>, i: int, j: int)
    requires
        0 <= i <= j <= vs.len(),
        forall|k: int| i <= k < j ==> #[trigger] variant_defect(vs, k) is None,
    ensures
        first_defect(vs, i) == first_defect(vs, j),
    decreases j - i,
{
    if i < j {
        lemma_first_defect_skip(vs, i + 1, j);
    }
}

/// The schema of one tagged-union type: its variants and the fixed width of
/// the tag segment, the byte length of the longest variant name.
#[derive(Debug)]
pub struct Schema {
    pub variants: Vec<Variant>,
    pub tag_width: usize,
}

impl Schema {
    /// Number of variants.
    pub open spec fn num_variants(self) -> int {
        self.variants@.len() as int
    }

    /// Name bytes of the variant at index `i`.
    pub open spec fn name_of(self, i: int) -> Seq<u8> {
        self.variants@[i].name@
    }

    /// Payload size of the variant at index `i`.
    pub open spec fn size_of(self, i: int) -> int {
        self.variants@[i].payload_size as int
    }

    /// Fixed width of the tag segment.
    pub open spec fn spec_tag_width(self) -> int {
        self.tag_width as int
    }

    /// Well-formedness: at least one variant, every name admissible, names
    /// pairwise distinct, and the tag width exactly the longest name length.
    pub open spec fn wf(self) -> bool {
        &&& self.num_variants() > 0
        &&& forall|i: int| 0 <= i < self.num_variants() ==> name_ok(#[trigger] self.name_of(i))
        &&& forall|i: int|
            0 <= i < self.num_variants() ==> #[trigger] self.name_of(i).len()
                <= self.spec_tag_width()
        &&& exists|i: int|
            0 <= i < self.num_variants() && #[trigger] self.name_of(i).len()
                == self.spec_tag_width()
        &&& forall|i: int, j: int|
            0 <= i < self.num_variants() && 0 <= j < self.num_variants() && i != j
                ==> self.name_of(i) != self.name_of(j)
    }

    /// Builds the schema of a variant list: checks every name, rejects
    /// duplicates, and records the longest name length as the tag width.
    pub fn new(variants: Vec<Variant>) -> (r: Result<Schema, SchemaError>)
        ensures
            match r {
                Ok(s) => {
                    &&& s.wf()
                    &&& s.variants@ == variants@
                    &&& variants@.len() > 0
                    &&& first_defect(variants@, 0) is None
                },
                Err(e) => {
                    if variants@.len() == 0 {
                        e == SchemaError::EmptyUnion
                    } else {
                        first_defect(variants@, 0) == Some(e)
                    }
                },
            },
    {
        if variants.len() == 0 {
            return Err(SchemaError::EmptyUnion);
        }
        let n: usize = variants.len();
        let mut i: usize = 0;
        while i < n
            invariant
                i <= n,
                n == variants@.len(),
                forall|k: int| 0 <= k < i ==> #[trigger] variant_defect(variants@, k) is None,
            decreases n - i,
        {
            match check_variant(&variants, i) {
                Some(e) => {
                    proof {
                        lemma_first_defect_skip(variants@, 0, i as int);
                    }
                    return Err(e);
                },
                None => {},
            }
            i = i + 1;
        }
        proof {
            lemma_first_defect_skip(variants@, 0, n as int);
        }
        let mut w: usize = variants[0].name.len();
        let mut m: usize = 1;
        while m < n
            invariant
                1 <= m <= n,
                n == variants@.len(),
                forall|k: int| 0 <= k < m ==> #[trigger] variants@[k].name@.len() <= w,
                exists|k: int| 0 <= k < m && #[trigger] variants@[k].name@.len() == w,
            decreases n - m,
        {
            if variants[m].name.len() > w {
                w = variants[m].name.len();
            }
            m = m + 1;
        }
        let s = Schema { variants, tag_width: w };
        proof {
            assert forall|p: int| 0 <= p < s.num_variants() implies name_ok(
                s.name_of(p),
            ) by {
                assert(variant_defect(s.variants@, p) is None);
            }
            assert forall|p: int, q: int|
                0 <= p < s.num_variants() && 0 <= q < s.num_variants() && p != q implies s.name_of(
                p,
            ) != s.name_of(q) by {
                if p < q {
                    assert(variant_defect(s.variants@, q) is None);
                } else {
                    assert(variant_defect(s.variants@, p) is None);
                }
            }
            assert forall|p: int| 0 <= p < s.num_variants() implies #[trigger] s.name_of(p).len()
                <= s.spec_tag_width() by {
                assert(s.variants@[p].name@.len() <= w);
            }
            let k0 = choose|k: int|
                0 <= k < s.variants@.len() && #[trigger] s.variants@[k].name@.len() == w;
            assert(s.name_of(k0).len() == s.spec_tag_width());
        }
        Ok(s)
    }

    /// Index of the variant whose name is exactly `name`, if any.
    pub open spec fn spec_find(self, name: Seq<u8>) -> Option<int> {
        find_from(self, name, 0)
    }

    /// Looks the name up among the variants.
    pub fn find(&self, name: &[u8]) -> (r: Option<usize>)
        ensures
            match r {
                Some(i) => self.spec_find(name@) == Some(i as int) && 0 <= i < self.num_variants(),
                None => self.spec_find(name@) is None,
            },
    {
        let n: usize = self.variants.len();
        let mut i: usize = 0;
        while i < n
            invariant
                i <= n,
                n == self.variants@.len(),
                forall|k: int| 0 <= k < i ==> self.name_of(k) != name@,
            decreases n - i,
        {
            if bytes_eq(self.variants[i].name.as_slice(), name) {
                proof {
                    lemma_find_from_skip(*self, name@, 0, i as int);
                }
                return Some(i);
            }
            i = i + 1;
        }
        proof {
            lemma_find_from_skip(*self, name@, 0, n as int);
        }
        None
    }
}

/// Index of the first variant at or after `i` whose name is `name`.
pub open spec fn find_from(s: Schema, name: Seq<u8>, i: int) -> Option<int>
    decreases s.num_variants() - i,
{
    if i < 0 || i >= s.num_variants() {
        None
    } else if s.name_of(i) == name {
        Some(i)
    } else {
        find_from(s, name, i + 1)
    }
}

/// Skipping variants with other names does not change the index found.
pub proof fn lemma_find_from_skip(s: Schema, name: Seq<u8>, i: int, j: int)
    requires
        0 <= i <= j <= s.num_variants(),
        forall|k: int| i <= k < j ==> s.name_of(k) != name,
    ensures
        find_from(s, name, i) == find_from(s, name, j),
    decreases j - i,
{
    if i < j {
        lemma_find_from_skip(s, name, i + 1, j);
    }
}

/// In a well-formed schema, looking a variant's own name up finds exactly
/// that variant.
pub proof fn lemma_find_own_name(s: Schema, i: int)
    requires
        s.wf(),
        0 <= i < s.num_variants(),
    ensures
        s.spec_find(s.name_of(i)) == Some(i),
{
    lemma_find_from_prefix(s, i, 0);
}

/// Helper for [`lemma_find_own_name`]: the search from any index at or
/// before `i` still lands on `i`.
proof fn lemma_find_from_prefix(s: Schema, i: int, j: int)
    requires
        s.wf(),
        0 <= j <= i < s.num_variants(),
    ensures
        find_from(s, s.name_of(i), j) == Some(i),
    decreases i - j,
{
    if j < i {
        lemma_find_from_prefix(s, i, j + 1);
    }
}

/// The defect of the variant at index `i` of `variants`, if it has one.
fn check_variant(variants: &Vec<Variant>, i: usize) -> (r: Option<SchemaError>)
    requires
        i < variants@.len(),
    ensures
        r == variant_defect(variants@, i as int),
{
    let name: &Vec<u8> = &variants[i].name;
    if name.len() == 0 {
        return Some(SchemaError::EmptyName);
    }
    if has_zero_byte(name.as_slice()) {
        return Some(SchemaError::ZeroByteInName);
    }
    if !check_utf8(name.as_slice()) {
        return Some(SchemaError::NameNotUtf8);
    }
    let mut j: usize = 0;
    while j < i
        invariant
            j <= i < variants@.len(),
            variants@[i as int].name@.len() > 0,
            !(exists|k: int|
                0 <= k < variants@[i as int].name@.len() && variants@[i as int].name@[k] == 0),
            is_utf8(variants@[i as int].name@),
            forall|k: int| 0 <= k < j ==> variants@[k].name@ != variants@[i as int].name@,
        decreases i - j,
    {
        if bytes_eq(variants[j].name.as_slice(), variants[i].name.as_slice()) {
            return Some(SchemaError::DuplicateName);
        }
        j = j + 1;
    }
    None
}

/// Whether some byte of `s` is zero.
fn has_zero_byte(s: &[u8]) -> (r: bool)
    ensures
        r == exists|k: int| 0 <= k < s@.len() && s@[k] == 0,
{
    let mut i: usize = 0;
    while i < s.len()
        invariant
            i <= s@.len(),
            forall|k: int| 0 <= k < i ==> s@[k] != 0,
        decreases s@.len() - i,
    {
        if *vstd::slice::slice_index_get(s, i) == 0 {
            return true;
        }
        i = i + 1;
    }
    false
}

} // verus!
