use vstd::prelude::*;

verus! {

/// Errors reported by the cache engine.
///
/// Absence of a key, field or member is never an error: read operations
/// degrade to `None`, `false` or an empty result instead. An error is
/// reserved for the conditions below.
#[derive(Clone, Copy, Debug, PartialEq, Eq, Structural)]
pub enum CacheError {
    /// A stored entry's type identity differs from the one the caller asked
    /// for. This signals a usage bug and is reported loudly instead of being
    /// coerced to an absent value.
    TypeMismatch,
    /// A stored field value could not be parsed into the requested scalar
    /// type.
    Parse,
    /// The engine's internal bookkeeping was found inconsistent, such as a
    /// container creation that observed an unexpected prior value.
    Consistency,
}

} // verus!
