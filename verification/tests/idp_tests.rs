use idp_core::crypto::{derive_identity_id, now_timestamp};
use idp_core::errors::IdpError;
use idp_core::model::{
    Consent, Consequence, Contract, CoreBlock, Credential, Identity, IdentityBlock, Proof,
    PublicKey, Reputation, ReputationEvent, SignatureComponent, Signer, SystemBlock, Timestamp,
};
use idp_core::proofcheck::{compute_claim_hash, verify, VerifyOutcome};
use idp_core::validate::{validate, Violation};

use ring::signature::Ed25519KeyPair;

fn ts(year: u16, month: u8, day: u8, hour: u8, minute: u8, second: u8) -> Timestamp {
    Timestamp { year, month, day, hour, minute, second }
}

fn fresh_identity(name: &str, bio: &str) -> (Identity, Vec<u8>) {
    Identity::new(name, bio).expect("key generation should succeed")
}

#[test]
fn it_can_be_created() {
    let identity = Identity {
        identity: IdentityBlock {
            id: "idp:key:123".to_string(),
            version: "0.2.1".to_string(),
            schema_url: "https://idp.org/schemas/v0.2.1".to_string(),
            created_at: ts(2024, 7, 6, 10, 0, 0),
            updated_at: ts(2024, 7, 6, 10, 0, 0),
        },
        system: SystemBlock {
            public_keys: vec![PublicKey {
                key_id: "root-key-01".to_string(),
                algorithm: "Ed25519".to_string(),
                value: "BASE64_KEY_HERE".to_string(),
                status: "active".to_string(),
            }],
        },
        core: CoreBlock {
            name: "Clein Pius".to_string(),
            bio: "Founder of IDP.".to_string(),
        },
        credentials: vec![],
        proofs: vec![],
        contracts: vec![],
        reputation: vec![],
        consent: vec![],
    };
    assert_eq!(identity.core.name, "Clein Pius");
    println!("✅ Smoke test passed: Identity struct created successfully.");
}

#[test]
fn it_can_perform_a_save_and_load_round_trip() {
    let original_identity = Identity::new("Round Trip User", "Testing the save/load cycle.")
        .unwrap()
        .0;
    let text = original_identity.serialize();
    let loaded_identity = Identity::load_from_str(&text).unwrap();
    assert_eq!(original_identity, loaded_identity);
    println!("✅ Test passed: Save/load round-trip completed successfully.");
}

#[test]
fn init_builds_anchored_document() {
    let (doc, secret) = fresh_identity("Alice", "Builder");
    assert!(doc.identity.id.starts_with("idp:key:sha256:"));
    assert_eq!(doc.system.public_keys.len(), 1);
    let key = &doc.system.public_keys[0];
    assert_eq!(key.key_id, "root-key-01");
    assert_eq!(key.algorithm, "Ed25519");
    assert_eq!(key.status, "active");
    assert!(doc.credentials.is_empty());
    assert!(doc.proofs.is_empty());
    assert!(doc.contracts.is_empty());
    assert!(doc.reputation.is_empty());
    assert!(doc.consent.is_empty());
    assert!(validate(&doc).is_empty());
    assert!(!secret.is_empty());
    // The secret never appears in the serialized document.
    let text = doc.serialize();
    assert!(!text.contains(&data_encoding::BASE64.encode(&secret)));
}

#[test]
fn identity_derivation_is_deterministic() {
    let a = derive_identity_id("SOMEKEYMATERIAL");
    let b = derive_identity_id("SOMEKEYMATERIAL");
    assert_eq!(a, b);
    let c = derive_identity_id("OTHERKEYMATERIAL");
    assert_ne!(a, c);
}

#[test]
fn identity_derivation_matches_known_digest() {
    // SHA-256 of the empty string, base64-encoded.
    assert_eq!(
        derive_identity_id(""),
        "idp:key:sha256:47DEQpj8HBSa+/TImW+5JCeuQeRkm5NMpJWZG3hSuFU="
    );
    assert_eq!(
        compute_claim_hash(""),
        "47DEQpj8HBSa+/TImW+5JCeuQeRkm5NMpJWZG3hSuFU="
    );
}

#[test]
fn set_updates_bio_and_advances_updated_at() {
    let (mut doc, _) = fresh_identity("Alice", "Builder");
    let later = ts(2044, 1, 2, 3, 4, 5);
    doc.set("core.bio", "New bio", later).unwrap();
    assert_eq!(doc.core.bio, "New bio");
    assert_eq!(doc.identity.updated_at, later);
    assert!(validate(&doc).is_empty());
}

#[test]
fn set_rejects_immutable_fields_and_leaves_document_unchanged() {
    let (mut doc, _) = fresh_identity("Alice", "Builder");
    let before = doc.clone();
    let now = ts(2044, 1, 1, 0, 0, 0);
    assert_eq!(doc.set("identity.id", "hacked", now), Err(IdpError::ImmutableField));
    assert_eq!(doc, before);
    assert_eq!(
        doc.set("identity.created_at", "2001-01-01T00:00:00Z", now),
        Err(IdpError::ImmutableField)
    );
    assert_eq!(doc, before);
    assert_eq!(
        doc.set("system.public_keys[0].status", "revoked", now),
        Err(IdpError::ImmutableField)
    );
    assert_eq!(doc, before);
    // The serialized form is unchanged too.
    assert_eq!(doc.serialize(), before.serialize());
}

#[test]
fn set_reports_unknown_paths() {
    let (mut doc, _) = fresh_identity("Alice", "Builder");
    let now = ts(2044, 1, 1, 0, 0, 0);
    assert_eq!(doc.set("core.nope", "x", now), Err(IdpError::PathNotFound));
    assert_eq!(doc.set("credentials[0].claim", "x", now), Err(IdpError::PathNotFound));
    assert_eq!(doc.set("", "x", now), Err(IdpError::PathNotFound));
    assert_eq!(doc.set("core..bio", "x", now), Err(IdpError::PathNotFound));
    assert_eq!(doc.set("core.bio[0]", "x", now), Err(IdpError::PathNotFound));
}

#[test]
fn set_coerces_typed_fields() {
    let (mut doc, _) = fresh_identity("Alice", "Builder");
    doc.reputation.push(Reputation {
        score_name: "karma".to_string(),
        value: 0,
        history: vec![],
    });
    let now = ts(2044, 1, 1, 0, 0, 0);
    // A non-integer cannot be coerced into an integer field.
    assert_eq!(doc.set("reputation[0].value", "abc", now), Err(IdpError::TypeMismatch));
    // An integer that breaks the running-total invariant rolls back.
    let before = doc.clone();
    match doc.set("reputation[0].value", "50", now) {
        Err(IdpError::ValidationFailed(v)) => {
            assert_eq!(v, vec![Violation::ReputationSum { index: 0 }]);
        }
        other => panic!("expected ValidationFailed, got {:?}", other),
    }
    assert_eq!(doc, before);
    // A consistent value is applied.
    doc.reputation[0].history.push(ReputationEvent {
        event: "seed".to_string(),
        change: 0,
        timestamp: "2024-01-01".to_string(),
    });
    let now2 = ts(2044, 1, 1, 0, 0, 1);
    assert_eq!(doc.set("reputation[0].history[0].change", "0", now2), Ok(()));
    // A timestamp field takes only the canonical form.
    assert_eq!(
        doc.set("identity.updated_at", "not a time", now2),
        Err(IdpError::TypeMismatch)
    );
    assert_eq!(doc.set("identity.updated_at", "2050-06-01T12:00:00Z", now2), Ok(()));
    assert_eq!(doc.identity.updated_at, ts(2050, 6, 1, 12, 0, 0));
}

#[test]
fn corrupt_reputation_is_rejected_on_load() {
    let (mut doc, _) = fresh_identity("Alice", "Builder");
    doc.reputation.push(Reputation {
        score_name: "karma".to_string(),
        value: 100,
        history: vec![ReputationEvent {
            event: "helped".to_string(),
            change: 80,
            timestamp: "2024-01-01".to_string(),
        }],
    });
    let text = doc.serialize();
    match Identity::load_from_str(&text) {
        Err(IdpError::CorruptDocument(v)) => {
            assert_eq!(v, vec![Violation::ReputationSum { index: 0 }]);
        }
        other => panic!("expected CorruptDocument, got {:?}", other),
    }
}

#[test]
fn unknown_version_is_a_distinct_error() {
    let (mut doc, _) = fresh_identity("Alice", "Builder");
    let now = ts(2044, 1, 1, 0, 0, 0);
    doc.set("identity.version", "9.9.9", now).unwrap();
    let text = doc.serialize();
    assert_eq!(Identity::load_from_str(&text), Err(IdpError::UnsupportedVersion));
}

#[test]
fn malformed_text_is_rejected() {
    assert_eq!(
        Identity::load_from_str("not a document"),
        Err(IdpError::MalformedDocument)
    );
    assert_eq!(Identity::load_from_str(""), Err(IdpError::MalformedDocument));
    // Unknown top-level fields are rejected to surface version drift.
    let (doc, _) = fresh_identity("Alice", "Builder");
    let mut text = doc.serialize();
    text.push_str("surprise: \"field\"\n");
    assert_eq!(Identity::load_from_str(&text), Err(IdpError::MalformedDocument));
}

#[test]
fn round_trip_preserves_every_block_and_escaping() {
    let (mut doc, _) = fresh_identity("Round \"Tricky\" User\\", "Line one\nLine two");
    doc.credentials.push(Credential {
        claim: "is a verified builder".to_string(),
        issued_by: "idp:key:issuer".to_string(),
        issued_at: "2024-05-01".to_string(),
        expires_at: Some("2030-01-01".to_string()),
        proof_ref: "ref-1".to_string(),
    });
    doc.credentials.push(Credential {
        claim: "no expiry".to_string(),
        issued_by: "idp:key:other".to_string(),
        issued_at: "2024-06-01".to_string(),
        expires_at: None,
        proof_ref: "ref-2".to_string(),
    });
    doc.proofs.push(Proof {
        proof_id: "proof-1".to_string(),
        proof_type: "signature".to_string(),
        claim_hash: "hash==".to_string(),
        signed_by: Signer {
            idp_id: doc.identity.id.clone(),
            key_id: "root-key-01".to_string(),
        },
        signature: vec![SignatureComponent {
            algorithm: "Ed25519".to_string(),
            value: "c2ln".to_string(),
        }],
    });
    doc.contracts.push(Contract {
        contract_id: "c-1".to_string(),
        status: "active".to_string(),
        parties: vec!["alice".to_string(), "bob".to_string()],
        terms: "deliver the goods".to_string(),
        consequence: Consequence {
            on_success: "payment".to_string(),
            on_failure: "".to_string(),
        },
    });
    doc.reputation.push(Reputation {
        score_name: "karma".to_string(),
        value: -3,
        history: vec![
            ReputationEvent {
                event: "helped".to_string(),
                change: 2,
                timestamp: "2024-01-01".to_string(),
            },
            ReputationEvent {
                event: "flaked".to_string(),
                change: -5,
                timestamp: "2024-02-01".to_string(),
            },
        ],
    });
    doc.consent.push(Consent {
        granted_to: "idp:key:friend".to_string(),
        fields: vec!["core.name".to_string(), "core.bio".to_string()],
        expires_at: "2031-01-01".to_string(),
        purpose: "introductions".to_string(),
    });
    let text = doc.serialize();
    let parsed = Identity::deserialize(&text).unwrap();
    assert_eq!(doc, parsed);
    // The document also still validates, so strict load round-trips too.
    assert_eq!(Identity::load_from_str(&text).unwrap(), doc);
}

#[test]
fn serialize_omits_empty_sections() {
    let (doc, _) = fresh_identity("Alice", "Builder");
    let text = doc.serialize();
    assert!(!text.contains("credentials:"));
    assert!(!text.contains("proofs:"));
    assert!(!text.contains("contracts:"));
    assert!(!text.contains("reputation:"));
    assert!(!text.contains("consent:"));
    assert!(text.contains("identity:\n"));
    assert!(text.contains("  public_keys:\n"));
}

#[test]
fn rotate_appends_active_key_and_rejects_duplicates() {
    let (mut doc, _) = fresh_identity("Alice", "Builder");
    let now = ts(2044, 1, 1, 0, 0, 0);
    let extra = PublicKey {
        key_id: "backup-key-01".to_string(),
        algorithm: "Ed25519".to_string(),
        value: "QUJD".to_string(),
        status: "whatever".to_string(),
    };
    doc.rotate_key(extra, now).unwrap();
    assert_eq!(doc.system.public_keys.len(), 2);
    assert_eq!(doc.system.public_keys[1].status, "active");
    let dup = PublicKey {
        key_id: "root-key-01".to_string(),
        algorithm: "Ed25519".to_string(),
        value: "REVG".to_string(),
        status: "active".to_string(),
    };
    match doc.rotate_key(dup, now) {
        Err(IdpError::ValidationFailed(v)) => {
            assert_eq!(v, vec![Violation::DuplicateKeyId { index: 2 }]);
        }
        other => panic!("expected ValidationFailed, got {:?}", other),
    }
    assert_eq!(doc.system.public_keys.len(), 2);
}

#[test]
fn revoke_flips_status_and_reports_missing_keys() {
    let (mut doc, _) = fresh_identity("Alice", "Builder");
    let now = ts(2044, 1, 1, 0, 0, 0);
    assert_eq!(doc.revoke_key("no-such-key", now), Err(IdpError::KeyNotFound));
    doc.revoke_key("root-key-01", now).unwrap();
    assert_eq!(doc.system.public_keys[0].status, "revoked");
    assert_eq!(doc.system.public_keys.len(), 1);
}

fn signed_proof(doc: &Identity, secret: &[u8], payload: &str) -> Proof {
    let key_pair = Ed25519KeyPair::from_pkcs8(secret).unwrap();
    let claim_hash = compute_claim_hash(payload);
    let sig = key_pair.sign(claim_hash.as_bytes());
    Proof {
        proof_id: "proof-1".to_string(),
        proof_type: "claim-signature".to_string(),
        claim_hash,
        signed_by: Signer {
            idp_id: doc.identity.id.clone(),
            key_id: "root-key-01".to_string(),
        },
        signature: vec![SignatureComponent {
            algorithm: "Ed25519".to_string(),
            value: data_encoding::BASE64.encode(sig.as_ref()),
        }],
    }
}

#[test]
fn verify_accepts_a_correctly_signed_claim() {
    let (doc, secret) = fresh_identity("Alice", "Builder");
    let pf = signed_proof(&doc, &secret, "I built the thing");
    assert_eq!(verify(&doc, &pf, "I built the thing", false), Ok(VerifyOutcome::Valid));
    assert_eq!(verify(&doc, &pf, "I built the thing", true), Ok(VerifyOutcome::Valid));
}

#[test]
fn verify_is_sensitive_to_any_corruption() {
    let (doc, secret) = fresh_identity("Alice", "Builder");
    let pf = signed_proof(&doc, &secret, "I built the thing");

    // A different payload recomputes to a different claim hash.
    assert_eq!(
        verify(&doc, &pf, "I built another thing", false),
        Err(IdpError::ClaimHashMismatch)
    );

    // Corrupting the asserted claim hash is caught by recomputation.
    let mut tampered = pf.clone();
    let flipped = if tampered.claim_hash.starts_with('A') { "B" } else { "A" };
    tampered.claim_hash.replace_range(0..1, flipped);
    assert_eq!(
        verify(&doc, &tampered, "I built the thing", false),
        Err(IdpError::ClaimHashMismatch)
    );

    // Corrupting a signature byte makes the signature invalid.
    let mut bad_sig = pf.clone();
    let mut raw = data_encoding::BASE64
        .decode(bad_sig.signature[0].value.as_bytes())
        .unwrap();
    raw[0] ^= 0x01;
    bad_sig.signature[0].value = data_encoding::BASE64.encode(&raw);
    assert_eq!(
        verify(&doc, &bad_sig, "I built the thing", false),
        Err(IdpError::InvalidSignature("Ed25519".to_string()))
    );

    // A signer the document does not hold.
    let mut unknown = pf.clone();
    unknown.signed_by.key_id = "missing-key".to_string();
    assert_eq!(
        verify(&doc, &unknown, "I built the thing", false),
        Err(IdpError::KeyNotFound)
    );
}

#[test]
fn verify_reports_revoked_keys_as_policy_signal() {
    let (mut doc, secret) = fresh_identity("Alice", "Builder");
    let pf = signed_proof(&doc, &secret, "claim under an old key");
    doc.revoke_key("root-key-01", ts(2044, 1, 1, 0, 0, 0)).unwrap();
    assert_eq!(
        verify(&doc, &pf, "claim under an old key", false),
        Ok(VerifyOutcome::ValidButKeyRevoked)
    );
}

#[test]
fn strict_policy_requires_every_entry() {
    let (doc, secret) = fresh_identity("Alice", "Builder");
    let mut pf = signed_proof(&doc, &secret, "redundant algorithms");
    pf.signature.push(SignatureComponent {
        algorithm: "post-quantum-example".to_string(),
        value: "AAAA".to_string(),
    });
    // One valid entry satisfies the default policy.
    assert_eq!(
        verify(&doc, &pf, "redundant algorithms", false),
        Ok(VerifyOutcome::Valid)
    );
    // The strict policy names the first failing algorithm.
    assert_eq!(
        verify(&doc, &pf, "redundant algorithms", true),
        Err(IdpError::InvalidSignature("post-quantum-example".to_string()))
    );
    // With no entries at all, nothing validates.
    let mut empty = pf.clone();
    empty.signature.clear();
    assert_eq!(
        verify(&doc, &empty, "redundant algorithms", false),
        Err(IdpError::InvalidSignature(String::new()))
    );
}

#[test]
fn timestamps_render_and_parse_canonically() {
    let t = ts(2024, 7, 6, 10, 0, 0);
    let s = idp_core::text::fmt_ts(&t);
    assert_eq!(s, "2024-07-06T10:00:00Z");
    assert_eq!(idp_core::text::parse_ts(&s), Some(t));
    assert_eq!(idp_core::text::parse_ts("2024-13-06T10:00:00Z"), None);
    assert_eq!(idp_core::text::parse_ts("2024-07-06 10:00:00"), None);
}

#[test]
fn integers_render_and_parse_canonically() {
    assert_eq!(idp_core::text::fmt_i64(0), "0");
    assert_eq!(idp_core::text::fmt_i64(-42), "-42");
    assert_eq!(idp_core::text::fmt_i64(i64::MIN), "-9223372036854775808");
    assert_eq!(idp_core::text::parse_i64("-9223372036854775808"), Some(i64::MIN));
    assert_eq!(idp_core::text::parse_i64("9223372036854775808"), None);
    assert_eq!(idp_core::text::parse_i64("007"), None);
    assert_eq!(idp_core::text::parse_i64(""), None);
    assert_eq!(idp_core::text::parse_i64("12a"), None);
}

#[test]
fn now_is_well_formed() {
    let t = now_timestamp();
    assert!((1..=9999).contains(&t.year));
    assert!((1..=12).contains(&t.month));
    assert!((1..=31).contains(&t.day));
    assert!(t.hour < 24 && t.minute < 60 && t.second < 60);
}

#[test]
fn contract_and_consent_fields_are_addressable() {
    let (mut doc, _) = fresh_identity("Alice", "Builder");
    doc.contracts.push(Contract {
        contract_id: "c-1".to_string(),
        status: "draft".to_string(),
        parties: vec!["alice".to_string(), "bob".to_string()],
        terms: "tbd".to_string(),
        consequence: Consequence {
            on_success: "".to_string(),
            on_failure: "".to_string(),
        },
    });
    doc.consent.push(Consent {
        granted_to: "carol".to_string(),
        fields: vec!["core.name".to_string()],
        expires_at: "2030-01-01".to_string(),
        purpose: "demo".to_string(),
    });
    let now = ts(2044, 1, 1, 0, 0, 0);
    doc.set("contracts[0].status", "active", now).unwrap();
    assert_eq!(doc.contracts[0].status, "active");
    doc.set("contracts[0].parties[1]", "robert", now).unwrap();
    assert_eq!(doc.contracts[0].parties[1], "robert");
    doc.set("contracts[0].consequence.on_failure", "refund", now).unwrap();
    assert_eq!(doc.contracts[0].consequence.on_failure, "refund");
    doc.set("consent[0].fields[0]", "core.bio", now).unwrap();
    assert_eq!(doc.consent[0].fields[0], "core.bio");
    assert_eq!(doc.set("contracts[1].status", "x", now), Err(IdpError::PathNotFound));
    assert_eq!(doc.set("contracts[0].parties[5]", "x", now), Err(IdpError::PathNotFound));
}

#[test]
fn save_refuses_invalid_documents() {
    let (mut doc, _) = fresh_identity("Alice", "Builder");
    doc.save_to_string().unwrap();
    doc.reputation.push(Reputation {
        score_name: "karma".to_string(),
        value: 7,
        history: vec![],
    });
    match doc.save_to_string() {
        Err(IdpError::ValidationError(v)) => {
            assert_eq!(v, vec![Violation::ReputationSum { index: 0 }]);
        }
        other => panic!("expected ValidationError, got {:?}", other),
    }
}

#[test]
fn errors_describe_themselves() {
    assert_eq!(IdpError::PathNotFound.describe(), "path not found");
    assert_eq!(IdpError::ImmutableField.describe(), "field is immutable");
    assert!(!IdpError::KeyNotFound.describe().is_empty());
}

#[test]
fn appends_are_atomic_and_validated() {
    let (mut doc, _) = fresh_identity("Alice", "Builder");
    let now = ts(2044, 1, 1, 0, 0, 0);
    doc.add_credential(
        Credential {
            claim: "knows Rust".to_string(),
            issued_by: "idp:key:peer".to_string(),
            issued_at: "2024-01-01".to_string(),
            expires_at: None,
            proof_ref: "ref".to_string(),
        },
        now,
    )
    .unwrap();
    assert_eq!(doc.credentials.len(), 1);
    assert_eq!(doc.identity.updated_at, now);

    // A contract with no parties is rolled back.
    let before = doc.clone();
    match doc.add_contract(
        Contract {
            contract_id: "c-1".to_string(),
            status: "draft".to_string(),
            parties: vec![],
            terms: "tbd".to_string(),
            consequence: Consequence {
                on_success: "".to_string(),
                on_failure: "".to_string(),
            },
        },
        now,
    ) {
        Err(IdpError::ValidationFailed(v)) => {
            assert_eq!(v, vec![Violation::EmptyParties { index: 0 }]);
        }
        other => panic!("expected ValidationFailed, got {:?}", other),
    }
    assert_eq!(doc, before);

    // A proof naming an unknown signer is rolled back.
    match doc.add_proof(
        Proof {
            proof_id: "p-1".to_string(),
            proof_type: "signature".to_string(),
            claim_hash: "h".to_string(),
            signed_by: Signer {
                idp_id: doc.identity.id.clone(),
                key_id: "nobody".to_string(),
            },
            signature: vec![],
        },
        now,
    ) {
        Err(IdpError::ValidationFailed(v)) => {
            assert_eq!(v, vec![Violation::UnknownSignerKey { index: 0 }]);
        }
        other => panic!("expected ValidationFailed, got {:?}", other),
    }

    // A consistent reputation entry and a consent grant are accepted.
    doc.add_reputation(
        Reputation {
            score_name: "karma".to_string(),
            value: 2,
            history: vec![ReputationEvent {
                event: "helped".to_string(),
                change: 2,
                timestamp: "2024-01-01".to_string(),
            }],
        },
        now,
    )
    .unwrap();
    doc.add_consent(
        Consent {
            granted_to: "idp:key:friend".to_string(),
            fields: vec!["core.name".to_string()],
            expires_at: "2030-01-01".to_string(),
            purpose: "demo".to_string(),
        },
        now,
    )
    .unwrap();
    assert!(validate(&doc).is_empty());
}
