//! The failures that extraction can report.

use vstd::prelude::*;

verus! {

/// Every way in which reading a document can fail.
///
/// Failures of a single object, font or page are absorbed where the document
/// as a whole can still be read; the variants below are what callers of the
/// individual components, and of the entry point, can observe.
#[derive(Clone, Copy, Debug, PartialEq, Eq, Structural)]
pub enum ExtractError {
    /// The input ended before the requested bytes.
    TruncatedInput,
    /// A token that no object can begin with or continue with.
    MalformedObject,
    /// No usable cross-reference data.
    XrefError,
    /// A chain of indirect references longer than the resolver follows.
    ReferenceCycle,
    /// A stream filter that is not implemented.
    UnsupportedFilter,
    /// Filtered data that its filter cannot decode.
    DecodeError,
    /// No page can be reached from the document catalog.
    EmptyDocument,
    /// Reserved for embedders that bound the running time; never produced here.
    Timeout,
}

impl ExtractError {
    /// The error is one that reading a document gives rise to: any but the
    /// one that is reserved for embedders.
    pub open spec fn is_read_failure(self) -> bool {
        !(self is Timeout)
    }
}

} // verus!
