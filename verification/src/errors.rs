//! The engine's error taxonomy.

use vstd::prelude::*;

verus! {

/// Every failure the resolution engine can surface to a caller.
///
/// Table lookup misses and counter overflow resets are handled internally and
/// never appear here; each variant is recoverable by retrying with corrected
/// input.
#[derive(Clone, Copy, Debug, PartialEq, Eq, Structural)]
pub enum EngineError {
    /// A roll specification asked for fewer than one die face or fewer than
    /// one die.
    InvalidRollSpec,
    /// A random-table range was non-increasing or lay beyond the global
    /// numeric cap.
    InvalidTableRange,
    /// Persisted text did not spell a serialized entity.
    SerializationError,
}

impl EngineError {
    /// A short human-readable name for the error.
    pub fn describe(&self) -> (r: &'static str)
        ensures
            self is InvalidRollSpec ==> r@ == "invalid roll specification"@,
            self is InvalidTableRange ==> r@ == "invalid table range"@,
            self is SerializationError ==> r@ == "malformed serialized data"@,
    {
        match self {
            EngineError::InvalidRollSpec => "invalid roll specification",
            EngineError::InvalidTableRange => "invalid table range",
            EngineError::SerializationError => "malformed serialized data",
        }
    }
}

} // verus!
