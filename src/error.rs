use vstd::prelude::*;

verus! {

/// The ways a store operation can fail.
#[derive(Debug)]
pub enum FeatureFlagError {
    /// No flag has the requested name.
    NotFound,
    /// A flag with that name already exists.
    Conflict,
    /// A stored value is not a well-formed value envelope.
    DecodeError,
    /// The storage engine failed for another reason.
    StorageError(rusqlite::Error),
}

#[verifier::external_type_specification]
#[verifier::external_body]
pub struct ExSqliteError(rusqlite::Error);

} // verus!
