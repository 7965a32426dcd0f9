use cairo_vm::types::builtin_name::BuiltinName;
use cairo_vm::types::layout_name::LayoutName;
use program_registry::canonical::{canonicalize, content_hash, detect_version, union_of_names};
use cairo_lang_starknet_classes::NestedIntList;
use program_registry::compiled_class::{fits_field, segment_total};
use program_registry::catalog::{parse_builtins, LayoutCatalog, LayoutSpec};
use program_registry::error::RegistryError;
use program_registry::registry::{ingest_result, prepare_record, InsertOutcome, ProgramStore};
use program_registry::version::{format_from_text, CairoCompilerVersion};

const PRIME: &str = "0x800000000000011000000000000000000000000000000000000000000000001";

fn zero_program(builtins: &str) -> Vec<u8> {
    format!(
        "{{\"compiler_version\":\"0.13.1\",\"prime\":\"{PRIME}\",\"builtins\":[{builtins}],\
         \"data\":[\"0x40780017fff7fff\",\"0x208b7fff7fff7ffe\"],\
         \"identifiers\":{{\"__main__.main\":{{\"pc\":0,\"type\":\"function\"}}}},\
         \"hints\":{{}},\"reference_manager\":{{\"references\":[]}},\"attributes\":[],\"debug_info\":null}}"
    )
    .into_bytes()
}

fn two_class(builtins: &str) -> Vec<u8> {
    format!(
        "{{\"prime\":\"{PRIME}\",\"compiler_version\":\"2.6.3\",\"bytecode\":[\"0x1\",\"0x2\"],\
         \"hints\":[],\"entry_points_by_type\":{{\
         \"EXTERNAL\":[{{\"selector\":\"0x10\",\"offset\":0,\"builtins\":[{builtins}]}},\
         {{\"selector\":\"0x11\",\"offset\":1,\"builtins\":[\"range_check\",\"poseidon\"]}}],\
         \"L1_HANDLER\":[],\"CONSTRUCTOR\":[]}}}}"
    )
    .into_bytes()
}

fn two_class_with(bytecode: &str, segments: &str, builtin: &str) -> Vec<u8> {
    format!(
        "{{\"prime\":\"{PRIME}\",\"compiler_version\":\"2.6.3\",\"bytecode\":[{bytecode}],{segments}\
         \"hints\":[],\"entry_points_by_type\":{{\
         \"EXTERNAL\":[{{\"selector\":\"0x10\",\"offset\":0,\"builtins\":[{builtin}]}}],\
         \"L1_HANDLER\":[],\"CONSTRUCTOR\":[]}}}}"
    )
    .into_bytes()
}

fn names(v: &[&str]) -> Vec<String> {
    v.iter().map(|s| s.to_string()).collect()
}

#[test]
fn version_one_is_rejected() {
    assert_eq!(format_from_text("1.0.0"), Err(RegistryError::UnsupportedCompilerVersion));
}

#[test]
fn version_texts_map_to_formats() {
    assert_eq!(format_from_text("0.13.1"), Ok(CairoCompilerVersion::Zero));
    assert_eq!(format_from_text("2.6.4"), Ok(CairoCompilerVersion::Two));
    assert_eq!(format_from_text("2"), Ok(CairoCompilerVersion::Two));
    assert_eq!(format_from_text("+2.1"), Ok(CairoCompilerVersion::Two));
    assert_eq!(format_from_text("-0.1"), Ok(CairoCompilerVersion::Zero));
    assert_eq!(format_from_text("3.0.0"), Err(RegistryError::UnsupportedCompilerVersion));
    assert_eq!(format_from_text("-2.0"), Err(RegistryError::UnsupportedCompilerVersion));
    assert_eq!(format_from_text("2147483647"), Err(RegistryError::UnsupportedCompilerVersion));
}

#[test]
fn malformed_version_texts() {
    assert_eq!(format_from_text(""), Err(RegistryError::MalformedArtifact));
    assert_eq!(format_from_text(".2"), Err(RegistryError::MalformedArtifact));
    assert_eq!(format_from_text("v2.0"), Err(RegistryError::MalformedArtifact));
    assert_eq!(format_from_text("-"), Err(RegistryError::MalformedArtifact));
    assert_eq!(format_from_text("2a.0"), Err(RegistryError::MalformedArtifact));
    assert_eq!(format_from_text("2147483648"), Err(RegistryError::MalformedArtifact));
    assert_eq!(format_from_text("99999999999.1"), Err(RegistryError::MalformedArtifact));
}

#[test]
fn detect_reads_compiler_version_field() {
    assert_eq!(detect_version(b"{\"compiler_version\":\"1.5.0\"}"), Err(RegistryError::UnsupportedCompilerVersion));
    assert_eq!(detect_version(b"{\"compiler_version\":\"2.6.0\"}"), Ok(CairoCompilerVersion::Two));
    assert_eq!(detect_version(b"{\"compiler_version\":2}"), Err(RegistryError::MalformedArtifact));
    assert_eq!(detect_version(b"{\"other\":\"2.0\"}"), Err(RegistryError::MalformedArtifact));
    assert_eq!(detect_version(b"not json"), Err(RegistryError::MalformedArtifact));
}

#[test]
fn content_hash_is_minimal_lowercase_hex() {
    assert_eq!(content_hash(&vec![0u8; 32]), "0x0");
    let mut b = vec![0u8; 32];
    b[30] = 0x01;
    b[31] = 0xab;
    assert_eq!(content_hash(&b), "0x1ab");
    assert_eq!(content_hash(&vec![0x0f, 0xe0]), "0xfe0");
    assert_eq!(content_hash(&vec![0xff]), "0xff");
    assert_eq!(content_hash(&vec![]), "0x0");
}

#[test]
fn union_keeps_first_occurrences() {
    let groups = vec![names(&["pedersen", "range_check"]), names(&[]), names(&["range_check", "bitwise", "pedersen"])];
    assert_eq!(union_of_names(&groups), names(&["pedersen", "range_check", "bitwise"]));
    assert_eq!(union_of_names(&vec![]), Vec::<String>::new());
}

#[test]
fn unknown_builtin_names_are_dropped() {
    let parsed = parse_builtins(&names(&["foo", "ecdsa", "ecdsa", "output"]));
    assert_eq!(parsed, vec![BuiltinName::ecdsa, BuiltinName::output]);
}

#[test]
fn resolve_picks_cheapest_superset() {
    let c = LayoutCatalog::standard();
    assert_eq!(c.resolve(&names(&["range_check", "pedersen"])), LayoutName::recursive_with_poseidon);
    assert_eq!(c.resolve(&names(&[])), LayoutName::recursive_with_poseidon);
    assert_eq!(c.resolve(&names(&["ecdsa"])), LayoutName::starknet);
    assert_eq!(c.resolve(&names(&["keccak", "pedersen"])), LayoutName::starknet_with_keccak);
    assert_eq!(c.resolve(&names(&["bitwise", "unknown_name"])), LayoutName::recursive_with_poseidon);
}

#[test]
fn resolve_falls_back_when_nothing_covers() {
    let c = LayoutCatalog::standard();
    assert_eq!(c.resolve(&names(&["output"])), LayoutName::starknet_with_keccak);
    assert_eq!(c.resolve(&names(&["segment_arena", "pedersen"])), LayoutName::starknet_with_keccak);
    assert_eq!(c.resolve_index(&names(&["add_mod"])), 0);
}

#[test]
fn resolve_breaks_ties_by_table_order() {
    let c = LayoutCatalog::standard();
    // In the standard table ecdsa with bitwise is covered by the fallback (cost 15) and starknet (cost 10).
    let entries = vec![
        LayoutSpec { layout: LayoutName::all_cairo, cost: 20, capacity: vec![BuiltinName::pedersen, BuiltinName::ecdsa] },
        LayoutSpec { layout: LayoutName::small, cost: 5, capacity: vec![BuiltinName::pedersen] },
        LayoutSpec { layout: LayoutName::dex, cost: 5, capacity: vec![BuiltinName::pedersen, BuiltinName::ecdsa] },
    ];
    let tie = LayoutCatalog::new(entries, 0).unwrap();
    assert_eq!(tie.resolve(&names(&["pedersen"])), LayoutName::small);
    assert_eq!(tie.resolve(&names(&["ecdsa"])), LayoutName::dex);
    assert_eq!(c.resolve_index(&names(&["ecdsa", "bitwise"])), 2);
}

#[test]
fn catalog_rejects_bad_fallback() {
    let entries = || {
        vec![
            LayoutSpec { layout: LayoutName::small, cost: 5, capacity: vec![BuiltinName::pedersen] },
            LayoutSpec { layout: LayoutName::dex, cost: 7, capacity: vec![BuiltinName::ecdsa] },
        ]
    };
    assert!(LayoutCatalog::new(entries(), 2).is_none());
    assert!(LayoutCatalog::new(entries(), 0).is_none());
    assert!(LayoutCatalog::new(vec![], 0).is_none());
    let ok = LayoutCatalog::new(
        vec![LayoutSpec { layout: LayoutName::dex, cost: 7, capacity: vec![BuiltinName::ecdsa, BuiltinName::pedersen] }],
        0,
    );
    assert!(ok.is_some());
}

#[test]
fn zero_program_resolves_to_cost_eight_layout() {
    let data = zero_program("\"range_check\",\"pedersen\"");
    let rec = prepare_record(data.clone(), &LayoutCatalog::standard()).unwrap();
    assert_eq!(rec.version, CairoCompilerVersion::Zero);
    assert_eq!(rec.builtins, names(&["range_check", "pedersen"]));
    assert_eq!(rec.layout, LayoutName::recursive_with_poseidon);
    assert!(rec.hash.starts_with("0x"));
    assert_eq!(rec.code, data);
}

#[test]
fn zero_builtins_are_deduplicated() {
    let c = canonicalize(&zero_program("\"pedersen\",\"pedersen\",\"bitwise\""), CairoCompilerVersion::Zero).unwrap();
    assert_eq!(c.builtins, names(&["pedersen", "bitwise"]));
}

#[test]
fn canonicalize_is_deterministic() {
    let z = zero_program("\"output\"");
    let a = canonicalize(&z, CairoCompilerVersion::Zero).unwrap();
    let b = canonicalize(&z, CairoCompilerVersion::Zero).unwrap();
    assert_eq!(a.hash, b.hash);
    assert_eq!(a.builtins, b.builtins);
    let t = two_class("\"pedersen\"");
    let c = canonicalize(&t, CairoCompilerVersion::Two).unwrap();
    let d = canonicalize(&t, CairoCompilerVersion::Two).unwrap();
    assert_eq!(c.hash, d.hash);
    assert_eq!(c.builtins, names(&["pedersen", "range_check", "poseidon"]));
    assert_eq!(c.builtins, d.builtins);
    assert_ne!(a.hash, c.hash);
}

#[test]
fn hash_differs_with_program() {
    let a = canonicalize(&two_class("\"pedersen\""), CairoCompilerVersion::Two).unwrap();
    let b = canonicalize(&two_class("\"bitwise\""), CairoCompilerVersion::Two).unwrap();
    assert_ne!(a.hash, b.hash);
    assert!(a.hash.starts_with("0x") && a.hash.len() > 3);
}

#[test]
fn canonicalize_rejects_wrong_shapes() {
    let z = zero_program("\"output\"");
    assert!(matches!(canonicalize(&z, CairoCompilerVersion::Two), Err(RegistryError::MalformedArtifact)));
    let t = two_class("");
    assert!(matches!(canonicalize(&t, CairoCompilerVersion::Zero), Err(RegistryError::MalformedArtifact)));
    assert!(matches!(canonicalize(b"[]", CairoCompilerVersion::Two), Err(RegistryError::MalformedArtifact)));
}

#[test]
fn upload_of_version_one_five_is_refused_before_storage() {
    let mut store = ProgramStore::new();
    let data = b"{\"compiler_version\":\"1.5.0\",\"prime\":\"0x1\"}".to_vec();
    let r = store.ingest(data, &LayoutCatalog::standard());
    assert!(matches!(r, Err(RegistryError::UnsupportedCompilerVersion)));
    assert!(store.records.is_empty());
}

#[test]
fn ingesting_format_two_twice_is_idempotent() {
    let mut store = ProgramStore::new();
    let catalog = LayoutCatalog::standard();
    let data = two_class("\"range_check\"");
    let first = store.ingest(data.clone(), &catalog).unwrap();
    assert!(!first.already_existed);
    let second = store.ingest(data.clone(), &catalog).unwrap();
    assert!(second.already_existed);
    assert_eq!(first.hash, second.hash);
    assert_eq!(store.records.len(), 1);
}

#[test]
fn fetch_returns_ingested_bytes() {
    let mut store = ProgramStore::new();
    let catalog = LayoutCatalog::standard();
    let data = zero_program("\"pedersen\"");
    let ingested = store.ingest(data.clone(), &catalog).unwrap();
    let other = two_class("\"bitwise\"");
    store.ingest(other.clone(), &catalog).unwrap();
    let rec = store.fetch(&ingested.hash).unwrap();
    assert_eq!(rec.code, data);
    assert_eq!(rec.version, CairoCompilerVersion::Zero);
    assert_eq!(rec.layout, LayoutName::recursive_with_poseidon);
    assert_eq!(rec.version.number(), 0);
}

#[test]
fn fetch_of_unknown_hash_is_not_found() {
    let mut store = ProgramStore::new();
    assert!(matches!(store.fetch("0x1234"), Err(RegistryError::NotFound)));
    store.ingest(two_class(""), &LayoutCatalog::standard()).unwrap();
    assert!(matches!(store.fetch("0x1234"), Err(RegistryError::NotFound)));
}

#[test]
fn storage_outcomes_map_to_results() {
    let ok = ingest_result("0xab".to_string(), InsertOutcome::Inserted).unwrap();
    assert_eq!(ok.hash, "0xab");
    assert!(!ok.already_existed);
    let dup = ingest_result("0xab".to_string(), InsertOutcome::DuplicateHash).unwrap();
    assert!(dup.already_existed);
    assert!(matches!(ingest_result("0xab".to_string(), InsertOutcome::Failed), Err(RegistryError::StorageFailure)));
}

#[test]
fn insert_refuses_duplicate_hash() {
    let mut store = ProgramStore::new();
    let rec = prepare_record(two_class(""), &LayoutCatalog::standard()).unwrap();
    let copy = prepare_record(two_class(""), &LayoutCatalog::standard()).unwrap();
    assert_eq!(store.insert(rec), InsertOutcome::Inserted);
    assert_eq!(store.insert(copy), InsertOutcome::DuplicateHash);
    assert_eq!(store.records.len(), 1);
}

#[test]
fn version_numbers() {
    assert_eq!(CairoCompilerVersion::Two.number(), 2);
    assert_eq!(CairoCompilerVersion::from_major(0), Ok(CairoCompilerVersion::Zero));
    assert_eq!(CairoCompilerVersion::from_major(1), Err(RegistryError::UnsupportedCompilerVersion));
}

#[test]
fn two_word_out_of_field_is_hash_failure() {
    let data = two_class_with(&format!("\"0x1\",\"{PRIME}\""), "", "\"pedersen\"");
    assert!(matches!(canonicalize(&data, CairoCompilerVersion::Two), Err(RegistryError::HashComputationFailure)));
    let below = two_class_with("\"0x1\",\"0x800000000000011000000000000000000000000000000000000000000000000\"", "", "\"pedersen\"");
    assert!(canonicalize(&below, CairoCompilerVersion::Two).is_ok());
}

#[test]
fn two_long_builtin_name_is_hash_failure() {
    let data = two_class_with("\"0x1\"", "", "\"a_builtin_name_longer_than_thirty_two_bytes\"");
    assert!(matches!(canonicalize(&data, CairoCompilerVersion::Two), Err(RegistryError::HashComputationFailure)));
}

#[test]
fn two_segment_lengths_must_add_up() {
    let bad = two_class_with("\"0x1\",\"0x2\"", "\"bytecode_segment_lengths\":[1,[3]],", "");
    assert!(matches!(canonicalize(&bad, CairoCompilerVersion::Two), Err(RegistryError::HashComputationFailure)));
    let good = two_class_with("\"0x1\",\"0x2\"", "\"bytecode_segment_lengths\":[1,[1]],", "");
    let leaf = two_class_with("\"0x1\",\"0x2\"", "\"bytecode_segment_lengths\":2,", "");
    let a = canonicalize(&good, CairoCompilerVersion::Two).unwrap();
    let b = canonicalize(&leaf, CairoCompilerVersion::Two).unwrap();
    assert_ne!(a.hash, b.hash);
}

#[test]
fn field_element_bytes() {
    let mut p = vec![0u8; 32];
    p[0] = 8;
    p[7] = 0x11;
    p[31] = 1;
    assert!(!fits_field(&p));
    p[31] = 0;
    assert!(fits_field(&p));
    assert!(fits_field(&vec![0xff; 31]));
    assert!(!fits_field(&vec![0; 33]));
    assert!(fits_field(&vec![]));
}

#[test]
fn segment_totals() {
    let t = NestedIntList::Node(vec![NestedIntList::Leaf(2), NestedIntList::Node(vec![NestedIntList::Leaf(3)])]);
    assert_eq!(segment_total(&t), Some(5));
    let big = NestedIntList::Node(vec![NestedIntList::Leaf(usize::MAX), NestedIntList::Leaf(1)]);
    assert_eq!(segment_total(&big), None);
}
