use crate::catalog::texts;
use cairo_lang_starknet_classes::casm_contract_class::CasmContractClass;
use cairo_lang_starknet_classes::NestedIntList;
use vstd::prelude::*;

verus! {

#[verifier::external_type_specification]
pub struct ExNestedIntList(NestedIntList);

/// The sum of the leaves of a tree of bytecode segment lengths.
pub open spec fn leaf_total(t: NestedIntList) -> int
    decreases t, 0nat,
{
    match t {
        NestedIntList::Leaf(n) => n as int,
        NestedIntList::Node(v) => children_total(v@, v@.len() as int),
    }
}

/// The sum of the leaves of the first `k` trees of `s`.
pub open spec fn children_total(s: Seq<NestedIntList>, k: int) -> int
    decreases s, k,
{
    if k <= 0 || k > s.len() {
        0
    } else {
        children_total(s, k - 1) + leaf_total(s[k - 1])
    }
}

proof fn lemma_totals_nonneg(t: NestedIntList)
    ensures
        leaf_total(t) >= 0,
    decreases t, 0nat,
{
    if let NestedIntList::Node(v) = t {
        lemma_children_nonneg(v@, v@.len() as int);
    }
}

proof fn lemma_children_nonneg(s: Seq<NestedIntList>, k: int)
    ensures
        children_total(s, k) >= 0,
    decreases s, k,
{
    if k > 0 && k <= s.len() {
        lemma_children_nonneg(s, k - 1);
        lemma_totals_nonneg(s[k - 1]);
    }
}

proof fn lemma_child_decreases(t: NestedIntList, v: Vec<NestedIntList>, i: int)
    requires
        t == NestedIntList::Node(v),
        0 <= i < v@.len(),
    ensures
        decreases_to!(t => v@[i]),
{
    vstd::std_specs::vec::axiom_vec_index_decreases(v, i);
    match t {
        NestedIntList::Node(w) => {
            assert(decreases_to!(t => w));
        },
        NestedIntList::Leaf(_) => {},
    }
}

/// The sum of the leaves of a segment tree, or `None` where it exceeds `usize::MAX`.
pub fn segment_total(t: &NestedIntList) -> (r: Option<usize>)
    ensures
        match r {
            Some(n) => n as int == leaf_total(*t),
            None => leaf_total(*t) > usize::MAX,
        },
    decreases *t,
{
    match t {
        NestedIntList::Leaf(n) => Some(*n),
        NestedIntList::Node(v) => {
            let mut sum: usize = 0;
            let mut i: usize = 0;
            while i < v.len()
                invariant
                    i <= v@.len(),
                    sum as int == children_total(v@, i as int),
                    *t == NestedIntList::Node(*v),
                decreases v@.len() - i,
            {
                proof {
                    lemma_child_decreases(*t, *v, i as int);
                }
                let part = segment_total(&v[i]);
                match part {
                    None => {
                        proof {
                            lemma_children_nonneg(v@, i as int);
                            lemma_children_nonneg(v@, v@.len() as int);
                            lemma_children_monotone(v@, i as int + 1, v@.len() as int);
                        }
                        return None;
                    },
                    Some(n) => {
                        if n > usize::MAX - sum {
                            proof {
                                lemma_children_monotone(v@, i as int + 1, v@.len() as int);
                            }
                            return None;
                        }
                        sum = sum + n;
                    },
                }
                i = i + 1;
            }
            Some(sum)
        },
    }
}

proof fn lemma_children_monotone(s: Seq<NestedIntList>, j: int, k: int)
    requires
        0 <= j <= k <= s.len(),
    ensures
        children_total(s, j) <= children_total(s, k),
    decreases k - j,
{
    if j < k {
        lemma_children_monotone(s, j, k - 1);
        lemma_totals_nonneg(s[k - 1]);
    }
}

/// Byte `i` of the field prime 2^251 + 17 * 2^192 + 1, written in 32 big-endian bytes.
pub open spec fn prime_byte(i: int) -> u8 {
    if i == 0 {
        8
    } else if i == 7 {
        0x11
    } else if i == 31 {
        1
    } else {
        0
    }
}

/// Byte `i` of `w` padded with leading zeros to 32 bytes.
pub open spec fn padded_byte(w: Seq<u8>, i: int) -> u8 {
    if i < 32 - w.len() {
        0
    } else {
        w[i - (32 - w.len())]
    }
}

/// Whether the 32-byte padding of `w` is below the prime from byte `i` on, comparing
/// byte by byte from the most significant.
pub open spec fn below_prime_from(w: Seq<u8>, i: int) -> bool
    decreases 32 - i,
{
    if i >= 32 {
        false
    } else if padded_byte(w, i) != prime_byte(i) {
        padded_byte(w, i) < prime_byte(i)
    } else {
        below_prime_from(w, i + 1)
    }
}

/// Whether big-endian bytes denote a field element: at most 32 bytes, with a value below
/// the prime.
pub open spec fn is_field_element(w: Seq<u8>) -> bool {
    w.len() <= 32 && below_prime_from(w, 0)
}

fn prime_byte_at(i: usize) -> (r: u8)
    ensures
        r == prime_byte(i as int),
{
    if i == 0 {
        8
    } else if i == 7 {
        0x11
    } else if i == 31 {
        1
    } else {
        0
    }
}

/// Whether big-endian bytes denote a field element (see `is_field_element`).
pub fn fits_field(w: &Vec<u8>) -> (r: bool)
    ensures
        r == is_field_element(w@),
{
    let n = w.len();
    if n > 32 {
        return false;
    }
    let pad: usize = 32 - n;
    let mut i: usize = 0;
    while i < 32
        invariant
            n == w@.len(),
            n <= 32,
            pad == 32 - n,
            i <= 32,
            below_prime_from(w@, 0) == below_prime_from(w@, i as int),
        decreases 32 - i,
    {
        let a: u8 = if i < pad { 0 } else { w[i - pad] };
        let b = prime_byte_at(i);
        if a != b {
            return a < b;
        }
        i = i + 1;
    }
    false
}

/// Whether every entry of a list denotes a field element.
pub fn all_fit_field(ws: &Vec<Vec<u8>>) -> (r: bool)
    ensures
        r == forall|i: int| 0 <= i < ws@.len() ==> is_field_element(#[trigger] ws@[i]@),
{
    let mut i: usize = 0;
    while i < ws.len()
        invariant
            i <= ws@.len(),
            forall|k: int| 0 <= k < i ==> is_field_element(#[trigger] ws@[k]@),
        decreases ws@.len() - i,
    {
        if !fits_field(&ws[i]) {
            return false;
        }
        i = i + 1;
    }
    true
}

/// What the compiled class hash reads from a class, as plain values.
pub struct ClassParts {
    /// Each bytecode word, big-endian.
    pub bytecode: Vec<Vec<u8>>,
    /// The selector of each entry point of every kind, big-endian.
    pub selectors: Vec<Vec<u8>>,
    /// The bytes of each builtin name of each entry point of every kind.
    pub builtin_bytes: Vec<Vec<u8>>,
    /// The builtin names of each external entry point.
    pub external_builtins: Vec<Vec<String>>,
    /// The bytecode segment lengths, where the class gives them.
    pub segments: Option<NestedIntList>,
}

/// The mathematical content of `ClassParts`.
pub struct ClassPartsView {
    pub bytecode: Seq<Seq<u8>>,
    pub selectors: Seq<Seq<u8>>,
    pub builtin_bytes: Seq<Seq<u8>>,
    pub external_builtins: Seq<Seq<Seq<char>>>,
    pub segments: Option<NestedIntList>,
}

pub open spec fn byte_views(v: Seq<Vec<u8>>) -> Seq<Seq<u8>> {
    v.map_values(|w: Vec<u8>| w@)
}

impl View for ClassParts {
    type V = ClassPartsView;

    open spec fn view(&self) -> ClassPartsView {
        ClassPartsView {
            bytecode: byte_views(self.bytecode@),
            selectors: byte_views(self.selectors@),
            builtin_bytes: byte_views(self.builtin_bytes@),
            external_builtins: self.external_builtins@.map_values(|g: Vec<String>| texts(g@)),
            segments: self.segments,
        }
    }
}

/// Whether the compiled class hash can be computed over these parts: every bytecode word,
/// selector and builtin name is a field element, and the segment lengths, where given, add
/// up to the bytecode's length.
pub open spec fn hashable(p: ClassPartsView) -> bool {
    &&& forall|i: int| 0 <= i < p.bytecode.len() ==> is_field_element(#[trigger] p.bytecode[i])
    &&& forall|i: int| 0 <= i < p.selectors.len() ==> is_field_element(#[trigger] p.selectors[i])
    &&& forall|i: int| 0 <= i < p.builtin_bytes.len() ==> is_field_element(#[trigger] p.builtin_bytes[i])
    &&& match p.segments {
        None => true,
        Some(t) => leaf_total(t) == p.bytecode.len(),
    }
}

/// Whether the compiled class hash can be computed over these parts (see `hashable`).
pub fn parts_hashable(p: &ClassParts) -> (r: bool)
    ensures
        r == hashable(p@),
{
    let ok = all_fit_field(&p.bytecode) && all_fit_field(&p.selectors) && all_fit_field(&p.builtin_bytes);
    proof {
        assert(byte_views(p.bytecode@).len() == p.bytecode@.len());
    }
    if !ok {
        proof {
            if !(forall|i: int| 0 <= i < p.bytecode@.len() ==> is_field_element(#[trigger] p.bytecode@[i]@)) {
                let i = choose|i: int| 0 <= i < p.bytecode@.len() && !is_field_element(#[trigger] p.bytecode@[i]@);
                assert(p@.bytecode[i] == p.bytecode@[i]@);
            } else if !(forall|i: int| 0 <= i < p.selectors@.len() ==> is_field_element(#[trigger] p.selectors@[i]@)) {
                let i = choose|i: int| 0 <= i < p.selectors@.len() && !is_field_element(#[trigger] p.selectors@[i]@);
                assert(p@.selectors[i] == p.selectors@[i]@);
            } else {
                let i = choose|i: int| 0 <= i < p.builtin_bytes@.len() && !is_field_element(#[trigger] p.builtin_bytes@[i]@);
                assert(p@.builtin_bytes[i] == p.builtin_bytes@[i]@);
            }
        }
        return false;
    }
    proof {
        assert forall|i: int| 0 <= i < p@.bytecode.len() implies is_field_element(#[trigger] p@.bytecode[i]) by {
            assert(p@.bytecode[i] == p.bytecode@[i]@);
        }
        assert forall|i: int| 0 <= i < p@.selectors.len() implies is_field_element(#[trigger] p@.selectors[i]) by {
            assert(p@.selectors[i] == p.selectors@[i]@);
        }
        assert forall|i: int| 0 <= i < p@.builtin_bytes.len() implies is_field_element(#[trigger] p@.builtin_bytes[i]) by {
            assert(p@.builtin_bytes[i] == p.builtin_bytes@[i]@);
        }
    }
    assert(p@.bytecode.len() == p.bytecode@.len());
    let blen = p.bytecode.len();
    let seg_ok = match &p.segments {
        None => true,
        Some(t) => {
            let total = segment_total(t);
            match total {
                Some(n) => {
                    n == blen
                },
                None => {
                    false
                },
            }
        },
    };
    seg_ok
}

/// The parts of the class read from `data` that its hash depends on; `None` where `data` is
/// no class.
pub uninterp spec fn class_parts_of(data: Seq<u8>) -> Option<ClassPartsView>;

/// Relies on `serde_json::from_slice` to read a `CasmContractClass`, then on
/// `BigUint::to_bytes_be` for its words and selectors, and on its public fields for the rest.
/// Entry points come external first, then L1 handlers, then constructors.
#[verifier::external_body]
fn read_class_parts(data: &[u8]) -> (r: Option<ClassParts>)
    ensures
        match r {
            Some(p) => class_parts_of(data@) == Some(p@),
            None => class_parts_of(data@).is_none(),
        },
{
    let c: CasmContractClass = serde_json::from_slice(data).ok()?;
    let eps = &c.entry_points_by_type;
    let all = || eps.external.iter().chain(&eps.l1_handler).chain(&eps.constructor);
    Some(ClassParts {
        bytecode: c.bytecode.iter().map(|w| w.value.to_bytes_be()).collect(),
        selectors: all().map(|e| e.selector.to_bytes_be()).collect(),
        builtin_bytes: all().flat_map(|e| e.builtins.iter().map(|b| b.as_bytes().to_vec())).collect(),
        external_builtins: eps.external.iter().map(|e| e.builtins.clone()).collect(),
        segments: c.bytecode_segment_lengths.clone(),
    })
}

/// The 32-byte big-endian compiled class hash of the class read from `data`.
pub uninterp spec fn compiled_class_hash_of(data: Seq<u8>) -> Seq<u8>;

/// Relies on `serde_json::from_slice` to read a `CasmContractClass`, on its
/// `compiled_class_hash` and on `Felt252::to_be_bytes` for the hash's 32 bytes. The hash
/// unwraps each bytecode word, selector and builtin name as a field element and asserts
/// that the segment lengths add up to the bytecode's length; `requires` admits only classes
/// where all of that holds, so the call returns.
#[verifier::external_body]
fn read_class_hash(data: &[u8]) -> (r: Vec<u8>)
    requires
        class_parts_of(data@) matches Some(p) && hashable(p),
    ensures
        r@ == compiled_class_hash_of(data@),
        r@.len() == 32,
{
    serde_json::from_slice::<CasmContractClass>(data)
        .map(|c| c.compiled_class_hash().to_be_bytes().to_vec())
        .unwrap_or_default()
}

/// The outcome of reading a compiled class: its parts, and its hash where it can be computed.
pub enum ClassDigest {
    Unreadable,
    Unhashable,
    Hashed(Vec<u8>, Vec<Vec<String>>),
}

/// Reads a compiled class, checks that its hash can be computed, and computes it.
pub fn class_digest(data: &[u8]) -> (r: ClassDigest)
    ensures
        match r {
            ClassDigest::Unreadable => class_parts_of(data@).is_none(),
            ClassDigest::Unhashable => class_parts_of(data@) matches Some(p) && !hashable(p),
            ClassDigest::Hashed(h, g) => class_parts_of(data@) matches Some(p) && hashable(p)
                && h@ == compiled_class_hash_of(data@) && h@.len() == 32
                && g@.map_values(|x: Vec<String>| texts(x@)) == p.external_builtins,
        },
{
    match read_class_parts(data) {
        None => ClassDigest::Unreadable,
        Some(parts) => {
            if !parts_hashable(&parts) {
                ClassDigest::Unhashable
            } else {
                let h = read_class_hash(data);
                ClassDigest::Hashed(h, parts.external_builtins)
            }
        },
    }
}

} // verus!
