use crate::catalog::{builtin_text, texts};
use crate::error::RegistryError;
use crate::version::{format_from_text, format_of_text, CairoCompilerVersion};
use crate::compiled_class::{class_digest, class_parts_of, compiled_class_hash_of, hashable, ClassDigest};
use cairo_vm::program_hash::compute_program_hash_chain;
use cairo_vm::types::builtin_name::BuiltinName;
use cairo_vm::types::program::Program;
use vstd::prelude::*;

verus! {

/// The text held by the string field `key` of the JSON document in `data`, if the bytes are
/// such a document and the field holds a string.
pub uninterp spec fn json_text_field(data: Seq<u8>, key: Seq<char>) -> Option<Seq<char>>;

/// Relies on `serde_json::from_slice` to read a JSON document, then on `Value::get` and
/// `Value::as_str` for one of its fields: the outcome depends on the bytes and key alone.
#[verifier::external_body]
fn json_string_field(data: &[u8], key: &str) -> (r: Option<String>)
    ensures
        match r {
            Some(t) => json_text_field(data@, key@) == Some(t@),
            None => json_text_field(data@, key@).is_none(),
        },
{
    let doc: serde_json::Value = serde_json::from_slice(data).ok()?;
    doc.get(key).and_then(|v| v.as_str()).map(|t| t.to_string())
}

/// The 32-byte big-endian hash of the stripped program read from `data`, with the builtins
/// that program declares; or why it could not be had.
pub uninterp spec fn stripped_program_digest(data: Seq<u8>, entrypoint: Seq<char>, bootloader_version: nat)
    -> Result<(Seq<u8>, Seq<BuiltinName>), RegistryError>;

/// Relies on cairo-vm's `Program::from_bytes` (a program document with the given entry
/// point), `Program::get_stripped_program` (fails where the program has no main) and
/// `compute_program_hash_chain` (the hash chain over the stripped program), then on
/// `Felt252::to_bytes_be` for its 32 bytes. The outcome depends on the arguments alone.
#[verifier::external_body]
fn stripped_program_hash(data: &[u8], entrypoint: &str, bootloader_version: usize)
    -> (r: Result<(Vec<u8>, Vec<BuiltinName>), RegistryError>)
    ensures
        match r {
            Ok((h, b)) => stripped_program_digest(data@, entrypoint@, bootloader_version as nat)
                == Ok::<(Seq<u8>, Seq<BuiltinName>), RegistryError>((h@, b@)) && h@.len() == 32,
            Err(e) => stripped_program_digest(data@, entrypoint@, bootloader_version as nat)
                == Err::<(Seq<u8>, Seq<BuiltinName>), RegistryError>(e)
                && (e == RegistryError::MalformedArtifact || e == RegistryError::HashComputationFailure),
        },
{
    let program = Program::from_bytes(data, Some(entrypoint)).map_err(|_| RegistryError::MalformedArtifact)?;
    let stripped = program.get_stripped_program().map_err(|_| RegistryError::MalformedArtifact)?;
    let hash = compute_program_hash_chain(&stripped, bootloader_version)
        .map_err(|_| RegistryError::HashComputationFailure)?;
    Ok((hash.to_bytes_be().to_vec(), stripped.builtins))
}

/// Relies on std's `String::from_iter` over characters: the string of those characters.
#[verifier::external_body]
fn string_from_chars(cs: &Vec<char>) -> (r: String)
    ensures
        r@ == cs@,
{
    String::from_iter(cs.iter())
}

/// Nibble `i` of a big-endian byte sequence, most significant first.
pub open spec fn nibble(b: Seq<u8>, i: int) -> int {
    if i % 2 == 0 {
        b[i / 2] as int / 16
    } else {
        b[i / 2] as int % 16
    }
}

/// The first nonzero nibble at or after `i`, or the last nibble where all are zero.
pub open spec fn first_significant(b: Seq<u8>, i: int) -> int
    decreases 2 * b.len() - 1 - i,
{
    if i >= 2 * b.len() - 1 {
        i
    } else if nibble(b, i) != 0 {
        i
    } else {
        first_significant(b, i + 1)
    }
}

/// The lowercase hexadecimal digit of a value below 16.
pub open spec fn hex_digit(n: int) -> char {
    if n == 0 { '0' } else if n == 1 { '1' } else if n == 2 { '2' } else if n == 3 { '3' }
    else if n == 4 { '4' } else if n == 5 { '5' } else if n == 6 { '6' } else if n == 7 { '7' }
    else if n == 8 { '8' } else if n == 9 { '9' } else if n == 10 { 'a' } else if n == 11 { 'b' }
    else if n == 12 { 'c' } else if n == 13 { 'd' } else if n == 14 { 'e' } else { 'f' }
}

/// The canonical text of a big-endian number: "0x", then its lowercase hexadecimal digits
/// without leading zeros (a single "0" for zero, and for no bytes at all).
pub open spec fn hex_text(b: Seq<u8>) -> Seq<char> {
    if b.len() == 0 {
        seq!['0', 'x', '0']
    } else {
        let s = first_significant(b, 0);
        seq!['0', 'x'] + Seq::new((2 * b.len() - s) as nat, |k: int| hex_digit(nibble(b, s + k)))
    }
}

/// The names in order of first occurrence, each once.
pub open spec fn dedup(s: Seq<Seq<char>>) -> Seq<Seq<char>>
    decreases s.len(),
{
    if s.len() == 0 {
        s
    } else {
        let d = dedup(s.drop_last());
        if d.contains(s.last()) {
            d
        } else {
            d.push(s.last())
        }
    }
}

/// The concatenation of a sequence of name lists.
pub open spec fn flatten(g: Seq<Seq<Seq<char>>>) -> Seq<Seq<char>>
    decreases g.len(),
{
    if g.len() == 0 {
        Seq::empty()
    } else {
        flatten(g.drop_last()) + g.last()
    }
}

fn hex_digit_of(n: u8) -> (r: char)
    requires
        n < 16,
    ensures
        r == hex_digit(n as int),
{
    match n {
        0 => '0', 1 => '1', 2 => '2', 3 => '3', 4 => '4', 5 => '5', 6 => '6', 7 => '7',
        8 => '8', 9 => '9', 10 => 'a', 11 => 'b', 12 => 'c', 13 => 'd', 14 => 'e', _ => 'f',
    }
}

fn nibble_of(b: &Vec<u8>, i: usize) -> (r: u8)
    requires
        i < 2 * b@.len(),
    ensures
        r as int == nibble(b@, i as int),
        r < 16,
{
    if i % 2 == 0 {
        b[i / 2] / 16
    } else {
        b[i / 2] % 16
    }
}

/// The canonical hexadecimal text of a big-endian hash (see `hex_text`).
pub fn content_hash(b: &Vec<u8>) -> (r: String)
    requires
        b@.len() <= usize::MAX / 4,
    ensures
        r@ == hex_text(b@),
{
    if b.len() == 0 {
        return string_from_chars(&vec!['0', 'x', '0']);
    }
    let n = 2 * b.len();
    let mut s: usize = 0;
    while s < n - 1 && nibble_of(b, s) == 0
        invariant
            n == 2 * b@.len(),
            s <= n - 1,
            first_significant(b@, 0) == first_significant(b@, s as int),
        decreases n - s,
    {
        s = s + 1;
    }
    let mut cs: Vec<char> = vec!['0', 'x'];
    let mut i: usize = s;
    while i < n
        invariant
            n == 2 * b@.len(),
            s <= i <= n,
            s == first_significant(b@, 0),
            cs@ == seq!['0', 'x'] + Seq::new((i - s) as nat, |k: int| hex_digit(nibble(b@, s + k))),
        decreases n - i,
    {
        let d = hex_digit_of(nibble_of(b, i));
        cs.push(d);
        i = i + 1;
        assert(cs@ =~= seq!['0', 'x'] + Seq::new((i - s) as nat, |k: int| hex_digit(nibble(b@, s + k))));
    }
    string_from_chars(&cs)
}

/// Adds a name to a list unless the list already holds it.
pub fn add_name(out: &mut Vec<String>, name: String)
    ensures
        texts(final(out)@) == (if texts(old(out)@).contains(name@) {
            texts(old(out)@)
        } else {
            texts(old(out)@).push(name@)
        }),
{
    let mut k: usize = 0;
    while k < out.len()
        invariant
            k <= out@.len(),
            forall|j: int| 0 <= j < k ==> out@[j]@ != name@,
        decreases out@.len() - k,
    {
        if out[k] == name {
            assert(texts(out@)[k as int] == name@);
            return;
        }
        k = k + 1;
    }
    assert(!texts(out@).contains(name@)) by {
        if texts(out@).contains(name@) {
            let j = choose|j: int| 0 <= j < texts(out@).len() && texts(out@)[j] == name@;
            assert(out@[j]@ == name@);
        }
    }
    let ghost prev = out@;
    out.push(name);
    assert(texts(out@) =~= texts(prev).push(name@));
}

/// The names of a list of builtins, each once, in order of first occurrence.
pub fn builtin_names(b: &Vec<BuiltinName>) -> (r: Vec<String>)
    ensures
        texts(r@) == dedup(b@.map_values(|x: BuiltinName| builtin_text(x))),
{
    let ghost all = b@.map_values(|x: BuiltinName| builtin_text(x));
    let mut out: Vec<String> = Vec::new();
    let mut i: usize = 0;
    while i < b.len()
        invariant
            i <= b@.len(),
            all == b@.map_values(|x: BuiltinName| builtin_text(x)),
            texts(out@) == dedup(all.subrange(0, i as int)),
        decreases b@.len() - i,
    {
        let name = b[i].to_str().to_owned();
        assert(all.subrange(0, i + 1).drop_last() =~= all.subrange(0, i as int));
        add_name(&mut out, name);
        i = i + 1;
    }
    assert(all.subrange(0, b@.len() as int) =~= all);
    out
}

/// The names of several lists, each once, in order of first occurrence.
pub fn union_of_names(groups: &Vec<Vec<String>>) -> (r: Vec<String>)
    ensures
        texts(r@) == dedup(flatten(groups@.map_values(|g: Vec<String>| texts(g@)))),
{
    let ghost all = groups@.map_values(|g: Vec<String>| texts(g@));
    let mut out: Vec<String> = Vec::new();
    let mut i: usize = 0;
    while i < groups.len()
        invariant
            i <= groups@.len(),
            all == groups@.map_values(|g: Vec<String>| texts(g@)),
            texts(out@) == dedup(flatten(all.subrange(0, i as int))),
        decreases groups@.len() - i,
    {
        let group = &groups[i];
        let ghost before = flatten(all.subrange(0, i as int));
        let mut j: usize = 0;
        while j < group.len()
            invariant
                i < groups@.len(),
                group == &groups@[i as int],
                j <= group@.len(),
                texts(out@) == dedup(before + texts(group@).subrange(0, j as int)),
            decreases group@.len() - j,
        {
            let ghost cur = before + texts(group@).subrange(0, j as int);
            assert((before + texts(group@).subrange(0, j + 1)).drop_last() =~= cur);
            assert((before + texts(group@).subrange(0, j + 1)).last() == group@[j as int]@);
            add_name(&mut out, group[j].clone());
            j = j + 1;
        }
        assert(all.subrange(0, i + 1).drop_last() =~= all.subrange(0, i as int));
        assert(texts(group@).subrange(0, group@.len() as int) =~= all[i as int]);
        i = i + 1;
    }
    assert(all.subrange(0, groups@.len() as int) =~= all);
    out
}

/// The format that the "compiler_version" field of a document declares.
pub open spec fn detected_format(data: Seq<u8>) -> Result<CairoCompilerVersion, RegistryError> {
    match json_text_field(data, "compiler_version"@) {
        None => Err(RegistryError::MalformedArtifact),
        Some(t) => format_of_text(t),
    }
}

/// Reads the format that an artifact declares in its "compiler_version" field.
pub fn detect_version(data: &[u8]) -> (r: Result<CairoCompilerVersion, RegistryError>)
    ensures
        r == detected_format(data@),
{
    match json_string_field(data, "compiler_version") {
        None => Err(RegistryError::MalformedArtifact),
        Some(t) => format_from_text(t.as_str()),
    }
}

/// The content hash and builtin requirement of an artifact, by format.
pub struct Canonical {
    pub hash: String,
    pub builtins: Vec<String>,
}

/// What canonicalizing an artifact of a given format gives: the hash text and the
/// builtin names, or the error.
pub open spec fn canonical_of(data: Seq<u8>, v: CairoCompilerVersion)
    -> Result<(Seq<char>, Seq<Seq<char>>), RegistryError> {
    match v {
        CairoCompilerVersion::Zero => match stripped_program_digest(data, "main"@, 0) {
            Ok((h, b)) => Ok((hex_text(h), dedup(b.map_values(|x: BuiltinName| builtin_text(x))))),
            Err(e) => Err(e),
        },
        CairoCompilerVersion::Two => match class_parts_of(data) {
            None => Err(RegistryError::MalformedArtifact),
            Some(p) => if hashable(p) {
                Ok((hex_text(compiled_class_hash_of(data)), dedup(flatten(p.external_builtins))))
            } else {
                Err(RegistryError::HashComputationFailure)
            },
        },
    }
}

/// The content hash and the builtins that an artifact of the given format requires.
pub fn canonicalize(data: &[u8], v: CairoCompilerVersion) -> (r: Result<Canonical, RegistryError>)
    ensures
        match r {
            Ok(c) => canonical_of(data@, v) == Ok::<(Seq<char>, Seq<Seq<char>>), RegistryError>(
                (c.hash@, texts(c.builtins@))),
            Err(e) => canonical_of(data@, v) == Err::<(Seq<char>, Seq<Seq<char>>), RegistryError>(e),
        },
{
    match v {
        CairoCompilerVersion::Zero => {
            match stripped_program_hash(data, "main", 0) {
                Ok((h, b)) => Ok(Canonical { hash: content_hash(&h), builtins: builtin_names(&b) }),
                Err(e) => Err(e),
            }
        },
        CairoCompilerVersion::Two => {
            match class_digest(data) {
                ClassDigest::Unreadable => Err(RegistryError::MalformedArtifact),
                ClassDigest::Unhashable => Err(RegistryError::HashComputationFailure),
                ClassDigest::Hashed(h, g) => Ok(Canonical { hash: content_hash(&h), builtins: union_of_names(&g) }),
            }
        },
    }
}

/// Canonicalizing depends on the bytes and the format alone: any two outcomes that
/// `canonicalize` may give for the same arguments are the same hash and builtins.
pub proof fn lemma_canonical_deterministic(
    data: Seq<u8>,
    v: CairoCompilerVersion,
    first: Result<(Seq<char>, Seq<Seq<char>>), RegistryError>,
    second: Result<(Seq<char>, Seq<Seq<char>>), RegistryError>,
)
    requires
        first == canonical_of(data, v),
        second == canonical_of(data, v),
    ensures
        first == second,
{
}

} // verus!
