//! Document lifecycle: construction around a freshly generated root key,
//! and key rotation / revocation. Construction is the only path that ever
//! sets `identity.id` and `created_at`; rotation and revocation re-validate
//! and roll back rather than leave an invalid document behind.

use vstd::prelude::*;

use crate::crypto::{
    base64_of, ed25519_pub_of_pkcs8, generate_ed25519_keypair, now_timestamp, spec_identity_id,
    derive_identity_id, str_eq,
};
use crate::errors::IdpError;
use crate::model::{
    CoreBlock, Identity, IdentityBlock, IdentityV, PublicKey, PublicKeyV, SystemBlock, Timestamp,
    ts_le, ts_later, ts_wf,
};
use crate::validate::{Violation, doc_ok, spec_violations, validate};

verus! {

/// The protocol version this engine writes and understands.
pub open spec fn spec_protocol_version() -> Seq<char> {
    "0.2.1"@
}

/// The schema URL recorded in every new document.
pub open spec fn spec_schema_url() -> Seq<char> {
    "https://idp.org/schemas/v0.2.1"@
}

/// The document built around a root key at a given instant: identity
/// derived from the encoded key, fresh timestamps, empty trust artifacts.
pub open spec fn spec_construct(
    name: Seq<char>,
    bio: Seq<char>,
    root_key: PublicKeyV,
    now: Timestamp,
) -> IdentityV {
    IdentityV {
        identity: crate::model::IdentityBlockV {
            id: spec_identity_id(root_key.value),
            version: spec_protocol_version(),
            schema_url: spec_schema_url(),
            created_at: now,
            updated_at: now,
        },
        system: crate::model::SystemBlockV { public_keys: seq![root_key] },
        core: crate::model::CoreBlockV { name, bio },
        credentials: Seq::empty(),
        proofs: Seq::empty(),
        contracts: Seq::empty(),
        reputation: Seq::empty(),
        consent: Seq::empty(),
    }
}

/// A freshly constructed document satisfies every invariant.
pub proof fn lemma_construct_valid(
    name: Seq<char>,
    bio: Seq<char>,
    root_key: PublicKeyV,
    now: Timestamp,
)
    ensures
        doc_ok(spec_construct(name, bio, root_key, now)),
{
    let d = spec_construct(name, bio, root_key, now);
    assert(crate::validate::key_root_viols(d) =~= Seq::<Violation>::empty());
    assert(!crate::validate::has_earlier_dup(d.system.public_keys, 0));
    assert(crate::validate::dup_viols(d.system.public_keys, 0) =~= Seq::<Violation>::empty());
    assert(crate::validate::dup_viols(d.system.public_keys, 1) =~= Seq::<Violation>::empty());
    assert(ts_le(now, now));
    assert(crate::validate::ts_viols(d) =~= Seq::<Violation>::empty());
    assert(crate::validate::rep_viols(d.reputation, 0) =~= Seq::<Violation>::empty());
    assert(crate::validate::party_viols(d.contracts, 0) =~= Seq::<Violation>::empty());
    assert(crate::validate::signer_viols(d.proofs, d.system.public_keys, 0) =~= Seq::<
        Violation,
    >::empty());
    assert(spec_violations(d) =~= Seq::<Violation>::empty());
}

/// Builds the initial document around a root key: the only path by which
/// `identity.id` and `created_at` are ever set.
pub fn construct(name: &str, bio: &str, root_key: PublicKey, now: Timestamp) -> (r: Identity)
    ensures
        r@ == spec_construct(name@, bio@, root_key@, now),
{
    let id = derive_identity_id(root_key.value.as_str());
    let ghost kv = root_key@;
    let r = Identity {
        identity: IdentityBlock {
            id,
            version: ("0.2.1").to_owned(),
            schema_url: ("https://idp.org/schemas/v0.2.1").to_owned(),
            created_at: now,
            updated_at: now,
        },
        system: SystemBlock { public_keys: vec![root_key] },
        core: CoreBlock { name: name.to_owned(), bio: bio.to_owned() },
        credentials: Vec::new(),
        proofs: Vec::new(),
        contracts: Vec::new(),
        reputation: Vec::new(),
        consent: Vec::new(),
    };
    proof {
        assert(r.system@.public_keys =~= seq![kv]);
        assert(r@ =~~= spec_construct(name@, bio@, kv, now));
    }
    r
}

/// The document after appending a key (forced active) and advancing
/// `updated_at`.
pub open spec fn spec_rotate(d: IdentityV, k: PublicKeyV, now: Timestamp) -> IdentityV {
    IdentityV {
        identity: crate::model::IdentityBlockV {
            updated_at: ts_later(d.identity.updated_at, now),
            ..d.identity
        },
        system: crate::model::SystemBlockV {
            public_keys: d.system.public_keys.push(PublicKeyV { status: "active"@, ..k }),
        },
        ..d
    }
}

/// The document after flipping the status of key `i` to revoked and
/// advancing `updated_at`.
pub open spec fn spec_revoke(d: IdentityV, i: int, now: Timestamp) -> IdentityV {
    IdentityV {
        identity: crate::model::IdentityBlockV {
            updated_at: ts_later(d.identity.updated_at, now),
            ..d.identity
        },
        system: crate::model::SystemBlockV {
            public_keys: d.system.public_keys.update(
                i,
                PublicKeyV { status: "revoked"@, ..d.system.public_keys[i] },
            ),
        },
        ..d
    }
}

impl Identity {
    /// Creates a new identity: generates the root keypair, derives the
    /// identity from the encoded public key, and builds the document with
    /// empty trust artifacts. Returns the document together with the
    /// secret private-key bytes, which are never a field of the document.
    /// Fails only when key generation fails.
    pub fn new(name: &str, bio: &str) -> (r: Result<(Identity, Vec<u8>), String>)
        ensures
            r matches Ok(p) ==> {
                let d = p.0@;
                &&& d.system.public_keys.len() == 1
                &&& d.system.public_keys[0].key_id == "root-key-01"@
                &&& d.system.public_keys[0].algorithm == "Ed25519"@
                &&& d.system.public_keys[0].status == "active"@
                &&& ed25519_pub_of_pkcs8(p.1@) is Some
                &&& d.system.public_keys[0].value == base64_of(
                    ed25519_pub_of_pkcs8(p.1@)->Some_0,
                )
                &&& d.identity.id == spec_identity_id(d.system.public_keys[0].value)
                &&& d.identity.version == spec_protocol_version()
                &&& d.identity.schema_url == spec_schema_url()
                &&& d.identity.created_at == d.identity.updated_at
                &&& ts_wf(d.identity.created_at)
                &&& d.core.name == name@
                &&& d.core.bio == bio@
                &&& d.credentials.len() == 0
                &&& d.proofs.len() == 0
                &&& d.contracts.len() == 0
                &&& d.reputation.len() == 0
                &&& d.consent.len() == 0
                &&& doc_ok(d)
            },
    {
        let kp = match generate_ed25519_keypair() {
            Ok(kp) => kp,
            Err(e) => {
                return Err(e);
            },
        };
        let now = now_timestamp();
        let ghost kv = kp.public_key@;
        let doc = construct(name, bio, kp.public_key, now);
        proof {
            lemma_construct_valid(name@, bio@, kv, now);
        }
        Ok((doc, kp.private_key_bytes))
    }

    /// Appends a new active public key without touching `identity.id`,
    /// advancing `updated_at`; rolls back and reports the violation list
    /// if the appended key would break an invariant (a duplicated
    /// `key_id`, or a document already invalid).
    pub fn rotate_key(&mut self, new_key: PublicKey, now: Timestamp) -> (r: Result<
        (),
        IdpError,
    >)
        ensures
            ({
                let d2 = spec_rotate(old(self)@, new_key@, now);
                if doc_ok(d2) {
                    r is Ok && final(self)@ == d2
                } else {
                    &&& r matches Err(IdpError::ValidationFailed(v)) && v@ == spec_violations(d2)
                    &&& final(self)@ == old(self)@
                }
            }),
    {
        let ghost d0 = self@;
        let ghost nkv = new_key@;
        let saved_updated = self.identity.updated_at;
        let appended = PublicKey {
            key_id: new_key.key_id,
            algorithm: new_key.algorithm,
            value: new_key.value,
            status: ("active").to_owned(),
        };
        self.system.public_keys.push(appended);
        self.identity.updated_at = self.identity.updated_at.later(&now);
        proof {
            assert(self@.system.public_keys =~= spec_rotate(d0, nkv, now).system.public_keys);
            assert(self@ =~~= spec_rotate(d0, nkv, now));
        }
        let viols = validate(&*self);
        if viols.len() == 0 {
            Ok(())
        } else {
            let _ = self.system.public_keys.pop();
            self.identity.updated_at = saved_updated;
            proof {
                assert(self@.system.public_keys =~= d0.system.public_keys);
                assert(self@ =~~= d0);
            }
            Err(IdpError::ValidationFailed(viols))
        }
    }

    /// Flips the status of the named key to revoked, in place, advancing
    /// `updated_at`; the key is retained forever. Fails with `KeyNotFound`
    /// when no key carries the id, and rolls back with the violation list
    /// if the document no longer validates.
    pub fn revoke_key(&mut self, key_id: &str, now: Timestamp) -> (r: Result<(), IdpError>)
        ensures
            ({
                let keys = old(self)@.system.public_keys;
                if !crate::validate::has_key(keys, key_id@) {
                    r matches Err(e) && e == IdpError::KeyNotFound && final(self)@ == old(self)@
                } else {
                    let i = first_key_index(keys, key_id@);
                    let d2 = spec_revoke(old(self)@, i, now);
                    if doc_ok(d2) {
                        r is Ok && final(self)@ == d2
                    } else {
                        &&& r matches Err(IdpError::ValidationFailed(v)) && v@ == spec_violations(
                            d2,
                        )
                        &&& final(self)@ == old(self)@
                    }
                }
            }),
    {
        let ghost d0 = self@;
        let ghost keys = d0.system.public_keys;
        let n: usize = self.system.public_keys.len();
        let mut i: usize = 0;
        let mut found: bool = false;
        while !found && i < n
            invariant
                0 <= i <= n,
                n == keys.len(),
                self@ == d0,
                keys == d0.system.public_keys,
                forall|k: int| 0 <= k < i ==> keys[k].key_id != key_id@,
                found ==> i < n && keys[i as int].key_id == key_id@,
            decreases n - i, (if found { 0int } else { 1int }),
        {
            proof {
                assert(keys[i as int] == self.system.public_keys@[i as int]@);
            }
            if str_eq(self.system.public_keys[i].key_id.as_str(), key_id) {
                found = true;
            } else {
                i = i + 1;
            }
        }
        if !found {
            proof {
                assert(!crate::validate::has_key(keys, key_id@));
            }
            return Err(IdpError::KeyNotFound);
        }
        proof {
            assert(keys[i as int].key_id == key_id@);
            assert(crate::validate::has_key(keys, key_id@));
            assert(first_key_index(keys, key_id@) == i as int) by {
                lemma_first_key_index(keys, key_id@, i as int);
            }
        }
        let saved_updated = self.identity.updated_at;
        let mut entry = self.system.public_keys.remove(i);
        let saved_status = entry.status;
        entry.status = ("revoked").to_owned();
        self.system.public_keys.insert(i, entry);
        self.identity.updated_at = self.identity.updated_at.later(&now);
        proof {
            assert(self@.system.public_keys =~= spec_revoke(d0, i as int, now).system.public_keys);
            assert(self@ =~~= spec_revoke(d0, i as int, now));
        }
        let viols = validate(&*self);
        if viols.len() == 0 {
            Ok(())
        } else {
            let mut entry2 = self.system.public_keys.remove(i);
            entry2.status = saved_status;
            self.system.public_keys.insert(i, entry2);
            self.identity.updated_at = saved_updated;
            proof {
                assert(self@.system.public_keys =~= d0.system.public_keys);
                assert(self@ =~~= d0);
            }
            Err(IdpError::ValidationFailed(viols))
        }
    }
}

// ------------------------------------------------------------------
// Trust-artifact appends: each atomic, re-validated, and rolled back
// rather than ever leaving an invalid document behind.
// ------------------------------------------------------------------

/// The document after appending one credential and advancing
/// `updated_at`.
pub open spec fn spec_append_credential(
    d: IdentityV,
    c: crate::model::CredentialV,
    now: Timestamp,
) -> IdentityV {
    IdentityV {
        identity: crate::model::IdentityBlockV {
            updated_at: ts_later(d.identity.updated_at, now),
            ..d.identity
        },
        credentials: d.credentials.push(c),
        ..d
    }
}

/// The document after appending one proof and advancing `updated_at`.
pub open spec fn spec_append_proof(
    d: IdentityV,
    p: crate::model::ProofV,
    now: Timestamp,
) -> IdentityV {
    IdentityV {
        identity: crate::model::IdentityBlockV {
            updated_at: ts_later(d.identity.updated_at, now),
            ..d.identity
        },
        proofs: d.proofs.push(p),
        ..d
    }
}

/// The document after appending one contract and advancing `updated_at`.
pub open spec fn spec_append_contract(
    d: IdentityV,
    c: crate::model::ContractV,
    now: Timestamp,
) -> IdentityV {
    IdentityV {
        identity: crate::model::IdentityBlockV {
            updated_at: ts_later(d.identity.updated_at, now),
            ..d.identity
        },
        contracts: d.contracts.push(c),
        ..d
    }
}

/// The document after appending one reputation score and advancing
/// `updated_at`.
pub open spec fn spec_append_reputation(
    d: IdentityV,
    r: crate::model::ReputationV,
    now: Timestamp,
) -> IdentityV {
    IdentityV {
        identity: crate::model::IdentityBlockV {
            updated_at: ts_later(d.identity.updated_at, now),
            ..d.identity
        },
        reputation: d.reputation.push(r),
        ..d
    }
}

/// The document after appending one consent grant and advancing
/// `updated_at`.
pub open spec fn spec_append_consent(
    d: IdentityV,
    c: crate::model::ConsentV,
    now: Timestamp,
) -> IdentityV {
    IdentityV {
        identity: crate::model::IdentityBlockV {
            updated_at: ts_later(d.identity.updated_at, now),
            ..d.identity
        },
        consent: d.consent.push(c),
        ..d
    }
}

impl Identity {
    /// Appends a credential, advancing `updated_at`; rolls back with the
    /// violation list if the document would no longer validate.
    pub fn add_credential(&mut self, c: crate::model::Credential, now: Timestamp) -> (r: Result<
        (),
        IdpError,
    >)
        ensures
            ({
                let d2 = spec_append_credential(old(self)@, c@, now);
                if doc_ok(d2) {
                    r is Ok && final(self)@ == d2
                } else {
                    &&& r matches Err(IdpError::ValidationFailed(v)) && v@ == spec_violations(d2)
                    &&& final(self)@ == old(self)@
                }
            }),
    {
        let ghost d0 = self@;
        let ghost cv = c@;
        let saved_updated = self.identity.updated_at;
        self.credentials.push(c);
        self.identity.updated_at = self.identity.updated_at.later(&now);
        proof {
            assert(self@.credentials =~= spec_append_credential(d0, cv, now).credentials);
            assert(self@ =~~= spec_append_credential(d0, cv, now));
        }
        let viols = validate(&*self);
        if viols.len() == 0 {
            Ok(())
        } else {
            let _ = self.credentials.pop();
            self.identity.updated_at = saved_updated;
            proof {
                assert(self@.credentials =~= d0.credentials);
                assert(self@ =~~= d0);
            }
            Err(IdpError::ValidationFailed(viols))
        }
    }

    /// Appends a proof, advancing `updated_at`; rolls back with the
    /// violation list if the document would no longer validate (a signer
    /// the document does not hold).
    pub fn add_proof(&mut self, p: crate::model::Proof, now: Timestamp) -> (r: Result<
        (),
        IdpError,
    >)
        ensures
            ({
                let d2 = spec_append_proof(old(self)@, p@, now);
                if doc_ok(d2) {
                    r is Ok && final(self)@ == d2
                } else {
                    &&& r matches Err(IdpError::ValidationFailed(v)) && v@ == spec_violations(d2)
                    &&& final(self)@ == old(self)@
                }
            }),
    {
        let ghost d0 = self@;
        let ghost pv = p@;
        let saved_updated = self.identity.updated_at;
        self.proofs.push(p);
        self.identity.updated_at = self.identity.updated_at.later(&now);
        proof {
            assert(self@.proofs =~= spec_append_proof(d0, pv, now).proofs);
            assert(self@ =~~= spec_append_proof(d0, pv, now));
        }
        let viols = validate(&*self);
        if viols.len() == 0 {
            Ok(())
        } else {
            let _ = self.proofs.pop();
            self.identity.updated_at = saved_updated;
            proof {
                assert(self@.proofs =~= d0.proofs);
                assert(self@ =~~= d0);
            }
            Err(IdpError::ValidationFailed(viols))
        }
    }

    /// Appends a contract, advancing `updated_at`; rolls back with the
    /// violation list if the document would no longer validate (an empty
    /// party list).
    pub fn add_contract(&mut self, c: crate::model::Contract, now: Timestamp) -> (r: Result<
        (),
        IdpError,
    >)
        ensures
            ({
                let d2 = spec_append_contract(old(self)@, c@, now);
                if doc_ok(d2) {
                    r is Ok && final(self)@ == d2
                } else {
                    &&& r matches Err(IdpError::ValidationFailed(v)) && v@ == spec_violations(d2)
                    &&& final(self)@ == old(self)@
                }
            }),
    {
        let ghost d0 = self@;
        let ghost cv = c@;
        let saved_updated = self.identity.updated_at;
        self.contracts.push(c);
        self.identity.updated_at = self.identity.updated_at.later(&now);
        proof {
            assert(self@.contracts =~= spec_append_contract(d0, cv, now).contracts);
            assert(self@ =~~= spec_append_contract(d0, cv, now));
        }
        let viols = validate(&*self);
        if viols.len() == 0 {
            Ok(())
        } else {
            let _ = self.contracts.pop();
            self.identity.updated_at = saved_updated;
            proof {
                assert(self@.contracts =~= d0.contracts);
                assert(self@ =~~= d0);
            }
            Err(IdpError::ValidationFailed(viols))
        }
    }

    /// Appends a reputation score, advancing `updated_at`; rolls back
    /// with the violation list if the document would no longer validate
    /// (a running total that is not the sum of its history).
    pub fn add_reputation(&mut self, x: crate::model::Reputation, now: Timestamp) -> (r: Result<
        (),
        IdpError,
    >)
        ensures
            ({
                let d2 = spec_append_reputation(old(self)@, x@, now);
                if doc_ok(d2) {
                    r is Ok && final(self)@ == d2
                } else {
                    &&& r matches Err(IdpError::ValidationFailed(v)) && v@ == spec_violations(d2)
                    &&& final(self)@ == old(self)@
                }
            }),
    {
        let ghost d0 = self@;
        let ghost xv = x@;
        let saved_updated = self.identity.updated_at;
        self.reputation.push(x);
        self.identity.updated_at = self.identity.updated_at.later(&now);
        proof {
            assert(self@.reputation =~= spec_append_reputation(d0, xv, now).reputation);
            assert(self@ =~~= spec_append_reputation(d0, xv, now));
        }
        let viols = validate(&*self);
        if viols.len() == 0 {
            Ok(())
        } else {
            let _ = self.reputation.pop();
            self.identity.updated_at = saved_updated;
            proof {
                assert(self@.reputation =~= d0.reputation);
                assert(self@ =~~= d0);
            }
            Err(IdpError::ValidationFailed(viols))
        }
    }

    /// Appends a consent grant, advancing `updated_at`; rolls back with
    /// the violation list if the document would no longer validate.
    pub fn add_consent(&mut self, c: crate::model::Consent, now: Timestamp) -> (r: Result<
        (),
        IdpError,
    >)
        ensures
            ({
                let d2 = spec_append_consent(old(self)@, c@, now);
                if doc_ok(d2) {
                    r is Ok && final(self)@ == d2
                } else {
                    &&& r matches Err(IdpError::ValidationFailed(v)) && v@ == spec_violations(d2)
                    &&& final(self)@ == old(self)@
                }
            }),
    {
        let ghost d0 = self@;
        let ghost cv = c@;
        let saved_updated = self.identity.updated_at;
        self.consent.push(c);
        self.identity.updated_at = self.identity.updated_at.later(&now);
        proof {
            assert(self@.consent =~= spec_append_consent(d0, cv, now).consent);
            assert(self@ =~~= spec_append_consent(d0, cv, now));
        }
        let viols = validate(&*self);
        if viols.len() == 0 {
            Ok(())
        } else {
            let _ = self.consent.pop();
            self.identity.updated_at = saved_updated;
            proof {
                assert(self@.consent =~= d0.consent);
                assert(self@ =~~= d0);
            }
            Err(IdpError::ValidationFailed(viols))
        }
    }
}

/// The first index holding the given `key_id` (meaningful only when
/// `has_key` holds).
pub open spec fn first_key_index(keys: Seq<PublicKeyV>, key_id: Seq<char>) -> int {
    choose|k: int| 0 <= k < keys.len() && keys[k].key_id == key_id && (forall|m: int|
        0 <= m < k ==> keys[m].key_id != key_id)
}

pub proof fn lemma_first_key_index(keys: Seq<PublicKeyV>, key_id: Seq<char>, i: int)
    requires
        0 <= i < keys.len(),
        keys[i].key_id == key_id,
        forall|m: int| 0 <= m < i ==> keys[m].key_id != key_id,
    ensures
        first_key_index(keys, key_id) == i,
{
    let w = first_key_index(keys, key_id);
    assert(0 <= w < keys.len() && keys[w].key_id == key_id && (forall|m: int|
        0 <= m < w ==> keys[m].key_id != key_id)) by {
        assert(0 <= i < keys.len() && keys[i].key_id == key_id && (forall|m: int|
            0 <= m < i ==> keys[m].key_id != key_id));
    }
    if w < i {
        assert(keys[w].key_id != key_id);
    }
    if i < w {
        assert(keys[i].key_id != key_id);
    }
}

} // verus!
