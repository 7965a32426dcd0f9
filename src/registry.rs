use crate::canonical::{canonical_of, canonicalize, detect_version, detected_format};
use crate::catalog::{required_builtins, texts, LayoutCatalog};
use crate::error::RegistryError;
use crate::version::CairoCompilerVersion;
use cairo_vm::types::layout_name::LayoutName;
use vstd::prelude::*;

verus! {

/// A stored program: its content hash, its bytes, its format, the builtins it requires and
/// the layout chosen to run it.
pub struct ProgramRecord {
    pub hash: String,
    pub code: Vec<u8>,
    pub version: CairoCompilerVersion,
    pub builtins: Vec<String>,
    pub layout: LayoutName,
}

/// The mathematical content of a `ProgramRecord`.
pub struct RecordView {
    pub hash: Seq<char>,
    pub code: Seq<u8>,
    pub version: CairoCompilerVersion,
    pub builtins: Seq<Seq<char>>,
    pub layout: LayoutName,
}

impl View for ProgramRecord {
    type V = RecordView;

    open spec fn view(&self) -> RecordView {
        RecordView {
            hash: self.hash@,
            code: self.code@,
            version: self.version,
            builtins: texts(self.builtins@),
            layout: self.layout,
        }
    }
}

/// The record that ingesting `data` builds: the declared format, the content hash and
/// builtins of that format, and the layout chosen for those builtins; or the first error.
pub open spec fn prepared(data: Seq<u8>, catalog: LayoutCatalog) -> Result<RecordView, RegistryError> {
    match detected_format(data) {
        Err(e) => Err(e),
        Ok(v) => match canonical_of(data, v) {
            Err(e) => Err(e),
            Ok((h, b)) => Ok(
                RecordView {
                    hash: h,
                    code: data,
                    version: v,
                    builtins: b,
                    layout: catalog.chosen_layout(required_builtins(b)),
                },
            ),
        },
    }
}

/// Builds the record for an artifact: detects its format, canonicalizes it, and resolves
/// the layout for its builtins.
pub fn prepare_record(data: Vec<u8>, catalog: &LayoutCatalog) -> (r: Result<ProgramRecord, RegistryError>)
    requires
        catalog.wf(),
    ensures
        match r {
            Ok(rec) => prepared(data@, *catalog) == Ok::<RecordView, RegistryError>(rec@),
            Err(e) => prepared(data@, *catalog) == Err::<RecordView, RegistryError>(e),
        },
{
    let version = match detect_version(data.as_slice()) {
        Ok(v) => v,
        Err(e) => return Err(e),
    };
    let canonical = match canonicalize(data.as_slice(), version) {
        Ok(c) => c,
        Err(e) => return Err(e),
    };
    let layout = catalog.resolve(&canonical.builtins);
    Ok(ProgramRecord { hash: canonical.hash, code: data, version, builtins: canonical.builtins, layout })
}

/// What a store reports when asked to insert a record.
#[derive(Debug, Clone, Copy, PartialEq, Eq, Structural)]
pub enum InsertOutcome {
    /// The record was stored.
    Inserted,
    /// A record with the same hash was already stored; nothing changed.
    DuplicateHash,
    /// The store failed for another reason.
    Failed,
}

/// The result of a successful ingestion.
pub struct Ingested {
    pub hash: String,
    pub already_existed: bool,
}

/// The result of ingesting a record of hash `h`, given what the store reported.
pub open spec fn ingest_result_of(h: Seq<char>, outcome: InsertOutcome)
    -> Result<(Seq<char>, bool), RegistryError> {
    match outcome {
        InsertOutcome::Inserted => Ok((h, false)),
        InsertOutcome::DuplicateHash => Ok((h, true)),
        InsertOutcome::Failed => Err(RegistryError::StorageFailure),
    }
}

/// Turns what the store reported on inserting a record of the given hash into the result
/// of the ingestion: an existing record of that hash is success, flagged as such.
pub fn ingest_result(hash: String, outcome: InsertOutcome) -> (r: Result<Ingested, RegistryError>)
    ensures
        match r {
            Ok(i) => ingest_result_of(hash@, outcome) == Ok::<(Seq<char>, bool), RegistryError>(
                (i.hash@, i.already_existed)),
            Err(e) => ingest_result_of(hash@, outcome) == Err::<(Seq<char>, bool), RegistryError>(e),
        },
{
    match outcome {
        InsertOutcome::Inserted => Ok(Ingested { hash, already_existed: false }),
        InsertOutcome::DuplicateHash => Ok(Ingested { hash, already_existed: true }),
        InsertOutcome::Failed => Err(RegistryError::StorageFailure),
    }
}

/// Whether some record of a sequence has hash `h`.
pub open spec fn has_hash(recs: Seq<RecordView>, h: Seq<char>) -> bool {
    exists|i: int| 0 <= i < recs.len() && (#[trigger] recs[i]).hash == h
}

/// No two records of a sequence share a hash.
pub open spec fn unique_hashes(recs: Seq<RecordView>) -> bool {
    forall|i: int, j: int| 0 <= i < recs.len() && 0 <= j < recs.len() && i != j
        ==> (#[trigger] recs[i]).hash != (#[trigger] recs[j]).hash
}

/// The record of hash `h`, if any.
pub open spec fn lookup(recs: Seq<RecordView>, h: Seq<char>) -> Option<RecordView> {
    if has_hash(recs, h) {
        Some(recs[choose|i: int| 0 <= i < recs.len() && (#[trigger] recs[i]).hash == h])
    } else {
        None
    }
}

/// The records after inserting `rec`, and what the store reports: a record whose hash is
/// already stored is not added.
pub open spec fn inserted(recs: Seq<RecordView>, rec: RecordView) -> (Seq<RecordView>, InsertOutcome) {
    if has_hash(recs, rec.hash) {
        (recs, InsertOutcome::DuplicateHash)
    } else {
        (recs.push(rec), InsertOutcome::Inserted)
    }
}

/// The records after ingesting `data`, and the hash and "already existed" flag, or the error.
pub open spec fn ingested(recs: Seq<RecordView>, data: Seq<u8>, catalog: LayoutCatalog)
    -> (Seq<RecordView>, Result<(Seq<char>, bool), RegistryError>) {
    match prepared(data, catalog) {
        Err(e) => (recs, Err(e)),
        Ok(rec) => {
            let (after, outcome) = inserted(recs, rec);
            (after, ingest_result_of(rec.hash, outcome))
        },
    }
}

/// Ingesting the same bytes twice gives the same hash both times, the second time flagged
/// as already existing, and the second ingestion leaves the records as the first left them.
pub proof fn lemma_ingest_idempotent(recs: Seq<RecordView>, data: Seq<u8>, catalog: LayoutCatalog)
    requires
        unique_hashes(recs),
        prepared(data, catalog) is Ok,
    ensures
        ({
            let (first_recs, first) = ingested(recs, data, catalog);
            let (second_recs, second) = ingested(first_recs, data, catalog);
            &&& first is Ok
            &&& second == Ok::<(Seq<char>, bool), RegistryError>((first->Ok_0.0, true))
            &&& second_recs == first_recs
        }),
{
    let rec = prepared(data, catalog)->Ok_0;
    let (first_recs, outcome) = inserted(recs, rec);
    if !has_hash(recs, rec.hash) {
        assert(first_recs[recs.len() as int].hash == rec.hash);
    }
    assert(has_hash(first_recs, rec.hash));
}

/// Fetching by the hash that an ingestion returned gives back the bytes ingested, unless
/// other bytes were stored under that hash before.
pub proof fn lemma_fetch_after_ingest(recs: Seq<RecordView>, data: Seq<u8>, catalog: LayoutCatalog)
    requires
        unique_hashes(recs),
        prepared(data, catalog) is Ok,
        forall|i: int| 0 <= i < recs.len() && (#[trigger] recs[i]).hash == prepared(data, catalog)->Ok_0.hash
            ==> recs[i].code == data,
    ensures
        ({
            let (after, r) = ingested(recs, data, catalog);
            &&& r is Ok
            &&& lookup(after, r->Ok_0.0) is Some
            &&& lookup(after, r->Ok_0.0)->Some_0.code == data
        }),
{
    let rec = prepared(data, catalog)->Ok_0;
    let (after, outcome) = inserted(recs, rec);
    if !has_hash(recs, rec.hash) {
        assert(after[recs.len() as int].hash == rec.hash);
        assert(has_hash(after, rec.hash));
        let c = choose|i: int| 0 <= i < after.len() && (#[trigger] after[i]).hash == rec.hash;
        if c < recs.len() {
            assert(recs[c].hash == rec.hash);
        }
    }
}

/// Records held in memory, keyed by their unique hash.
pub struct ProgramStore {
    pub records: Vec<ProgramRecord>,
}

impl ProgramStore {
    /// The records, in order of insertion.
    pub open spec fn records_view(&self) -> Seq<RecordView> {
        self.records@.map_values(|r: ProgramRecord| r@)
    }

    pub open spec fn wf(&self) -> bool {
        unique_hashes(self.records_view())
    }

    /// An empty store.
    pub fn new() -> (r: ProgramStore)
        ensures
            r.wf(),
            r.records_view() == Seq::<RecordView>::empty(),
    {
        let r = ProgramStore { records: Vec::new() };
        assert(r.records_view() =~= Seq::<RecordView>::empty());
        r
    }

    /// The position of the record of hash `hash`, if any.
    pub fn position(&self, hash: &str) -> (r: Option<usize>)
        ensures
            match r {
                Some(i) => i < self.records@.len() && self.records_view()[i as int].hash == hash@,
                None => !has_hash(self.records_view(), hash@),
            },
    {
        let key = hash.to_owned();
        let mut i: usize = 0;
        while i < self.records.len()
            invariant
                key@ == hash@,
                i <= self.records@.len(),
                forall|k: int| 0 <= k < i ==> self.records_view()[k].hash != hash@,
            decreases self.records@.len() - i,
        {
            if self.records[i].hash == key {
                return Some(i);
            }
            i = i + 1;
        }
        None
    }

    /// Stores a record unless one of the same hash is stored already.
    pub fn insert(&mut self, rec: ProgramRecord) -> (r: InsertOutcome)
        requires
            old(self).wf(),
        ensures
            final(self).wf(),
            (final(self).records_view(), r) == inserted(old(self).records_view(), rec@),
    {
        match self.position(rec.hash.as_str()) {
            Some(_) => InsertOutcome::DuplicateHash,
            None => {
                let ghost prev = self.records_view();
                self.records.push(rec);
                assert(self.records_view() =~= prev.push(rec@));
                InsertOutcome::Inserted
            },
        }
    }

    /// The record of hash `hash`, unchanged since it was stored.
    pub fn fetch(&self, hash: &str) -> (r: Result<&ProgramRecord, RegistryError>)
        requires
            self.wf(),
        ensures
            match r {
                Ok(rec) => lookup(self.records_view(), hash@) == Some(rec@),
                Err(e) => e == RegistryError::NotFound && lookup(self.records_view(), hash@).is_none(),
            },
    {
        match self.position(hash) {
            Some(i) => {
                proof {
                    let recs = self.records_view();
                    let c = choose|c: int| 0 <= c < recs.len() && (#[trigger] recs[c]).hash == hash@;
                    assert(recs[i as int].hash == hash@);
                    assert(c == i);
                }
                Ok(&self.records[i])
            },
            None => Err(RegistryError::NotFound),
        }
    }

    /// Ingests an artifact: builds its record and stores it, treating a stored record of
    /// the same hash as success.
    pub fn ingest(&mut self, data: Vec<u8>, catalog: &LayoutCatalog) -> (r: Result<Ingested, RegistryError>)
        requires
            old(self).wf(),
            catalog.wf(),
        ensures
            final(self).wf(),
            ingested(old(self).records_view(), data@, *catalog) == (final(self).records_view(), match r {
                Ok(i) => Ok::<(Seq<char>, bool), RegistryError>((i.hash@, i.already_existed)),
                Err(e) => Err(e),
            }),
    {
        let rec = match prepare_record(data, catalog) {
            Ok(rec) => rec,
            Err(e) => return Err(e),
        };
        let hash = rec.hash.clone();
        let outcome = self.insert(rec);
        ingest_result(hash, outcome)
    }
}

} // verus!
