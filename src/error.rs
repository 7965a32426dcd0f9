use vstd::prelude::*;

verus! {

/// The ways in which ingesting or fetching a program fails.
#[derive(Debug, Clone, Copy, PartialEq, Eq, Structural)]
pub enum RegistryError {
    /// The bytes are not a document of the expected shape.
    MalformedArtifact,
    /// The declared compiler version is not one of the known formats.
    UnsupportedCompilerVersion,
    /// The program's hash could not be computed.
    HashComputationFailure,
    /// The store failed for a reason other than an existing record of the same hash.
    StorageFailure,
    /// No record has the hash asked for.
    NotFound,
}

} // verus!
