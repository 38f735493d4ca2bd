//! The persistence layer's computation: strict load (parse, version
//! check, validate) and validated emission. File handling — the atomic
//! temporary-file-then-rename dance — is the caller's, which hands text
//! in and out of these functions.

use vstd::prelude::*;

use crate::codec::{parse_doc, ser_doc};
use crate::crypto::str_eq;
use crate::doc::spec_protocol_version;
use crate::errors::IdpError;
use crate::model::Identity;
use crate::validate::{doc_ok, spec_violations, validate};

verus! {

impl Identity {
    /// Loads a document from its canonical text: strict parse, protocol
    /// version check, then full validation. A document that fails
    /// validation is returned as `CorruptDocument` with the complete
    /// violation list, never silently accepted.
    pub fn load_from_str(text: &str) -> (r: Result<Identity, IdpError>)
        ensures
            ({
                let p = parse_doc(text@);
                if p is None {
                    r matches Err(e) && e == IdpError::MalformedDocument
                } else {
                    let dv = p->Some_0;
                    if dv.identity.version != spec_protocol_version() {
                        r matches Err(e) && e == IdpError::UnsupportedVersion
                    } else if spec_violations(dv).len() != 0 {
                        r matches Err(IdpError::CorruptDocument(v)) && v@ == spec_violations(dv)
                    } else {
                        r matches Ok(d) && d@ == dv
                    }
                }
            }),
    {
        let d = match Identity::deserialize(text) {
            Ok(d) => d,
            Err(_) => {
                return Err(IdpError::MalformedDocument);
            },
        };
        if !str_eq(d.identity.version.as_str(), "0.2.1") {
            return Err(IdpError::UnsupportedVersion);
        }
        let viols = validate(&d);
        if viols.len() != 0 {
            return Err(IdpError::CorruptDocument(viols));
        }
        Ok(d)
    }

    /// Emits the canonical text for persistence, refusing to serialize a
    /// document that does not validate: the on-disk document always
    /// represents a state that passed validation when written.
    pub fn save_to_string(&self) -> (r: Result<String, IdpError>)
        ensures
            doc_ok(self@) ==> (r matches Ok(s) && s@ == ser_doc(self@)),
            !doc_ok(self@) ==> (r matches Err(IdpError::ValidationError(v)) && v@
                == spec_violations(self@)),
    {
        let viols = validate(&*self);
        if viols.len() != 0 {
            return Err(IdpError::ValidationError(viols));
        }
        Ok(self.serialize())
    }
}

} // verus!
