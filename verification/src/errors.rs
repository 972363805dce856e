use vstd::prelude::*;

verus! {

/// The error taxonomy of the vector store.
///
/// Every failure is reported as one of these typed values, never as an
/// opaque failure with lost cause information.
#[derive(Clone, Copy, Debug, PartialEq, Eq, Structural)]
pub enum StoreError {
    /// A collection already exists for this handle, or the similarity
    /// extension could not be registered.
    SchemaError,
    /// A supplied vector's length differs from the collection dimension.
    DimensionMismatch,
    /// An insert used a row identifier that is already present.
    DuplicateKey,
    /// An update addressed a row identifier that is absent.
    NotFound,
    /// A query asked for a non-positive number of neighbours.
    InvalidArgument,
    /// An operation was attempted before the store was opened, or after it
    /// was closed.
    NotInitialized,
    /// The underlying storage layer failed unexpectedly.
    EngineFault,
}

} // verus!
