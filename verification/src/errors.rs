//! The error taxonomy of the engine. Every failure is returned as a
//! structured value; nothing is swallowed or retried internally.

use vstd::prelude::*;

use crate::validate::Violation;

verus! {

#[derive(Debug, Clone, PartialEq, Eq)]
pub enum IdpError {
    /// Entropy-source or key-material failure during generation; fatal.
    GenerationError,
    /// A document failed validation outside a mutation (e.g. before save).
    ValidationError(Vec<Violation>),
    /// A path segment does not address anything in the document tree.
    PathNotFound,
    /// The value cannot be coerced to the addressed field's type.
    TypeMismatch,
    /// The addressed field is immutable through the path interface.
    ImmutableField,
    /// A mutation was rolled back because the document would no longer
    /// validate; carries the complete violation list.
    ValidationFailed(Vec<Violation>),
    /// A proof names a signing key the document does not hold.
    KeyNotFound,
    /// The recomputed claim hash differs from the one the proof asserts.
    ClaimHashMismatch,
    /// No signature entry validated; names the offending algorithm.
    InvalidSignature(String),
    /// A loaded document failed validation; carries the violation list.
    CorruptDocument(Vec<Violation>),
    /// The text is not a canonical document.
    MalformedDocument,
    /// The document declares a protocol version this engine does not
    /// understand.
    UnsupportedVersion,
    /// A read from the backing store failed (reported by the caller that
    /// performs I/O).
    IoRead,
    /// A write to the backing store failed.
    IoWrite,
}

impl IdpError {
    /// A short human-readable name for the error, for reporting.
    pub fn describe(&self) -> (r: &'static str)
        ensures
            r@.len() > 0,
    {
        let s: &'static str = match self {
            IdpError::GenerationError => "key generation failed",
            IdpError::ValidationError(_) => "document failed validation",
            IdpError::PathNotFound => "path not found",
            IdpError::TypeMismatch => "value does not fit the field type",
            IdpError::ImmutableField => "field is immutable",
            IdpError::ValidationFailed(_) => "mutation rejected by validation",
            IdpError::KeyNotFound => "signing key not found",
            IdpError::ClaimHashMismatch => "claim hash mismatch",
            IdpError::InvalidSignature(_) => "invalid signature",
            IdpError::CorruptDocument(_) => "corrupt document",
            IdpError::MalformedDocument => "malformed document",
            IdpError::UnsupportedVersion => "unsupported document version",
            IdpError::IoRead => "read failed",
            IdpError::IoWrite => "write failed",
        };
        proof {
            reveal_strlit("key generation failed");
            reveal_strlit("document failed validation");
            reveal_strlit("path not found");
            reveal_strlit("value does not fit the field type");
            reveal_strlit("field is immutable");
            reveal_strlit("mutation rejected by validation");
            reveal_strlit("signing key not found");
            reveal_strlit("claim hash mismatch");
            reveal_strlit("invalid signature");
            reveal_strlit("corrupt document");
            reveal_strlit("malformed document");
            reveal_strlit("unsupported document version");
            reveal_strlit("read failed");
            reveal_strlit("write failed");
        }
        s
    }
}

} // verus!
