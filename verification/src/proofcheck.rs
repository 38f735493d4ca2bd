//! The proof verifier: binds a claim to a key held by the document,
//! recomputes the claim hash, and checks the signature entries. Revocation
//! is a trust-policy signal, not a mathematical invalidity: a correct
//! signature by a revoked key is reported as valid-but-key-revoked.

use vstd::prelude::*;

use crate::crypto::{
    b64_decode, b64_encode, base64_decode_of, base64_of, ed25519_verifies, ed25519_verify,
    sha256_of_str, sha256_str, str_eq,
};
use crate::doc::{first_key_index, lemma_first_key_index};
use crate::errors::IdpError;
use crate::model::{Identity, Proof, PublicKeyV, SignatureComponentV};
use crate::validate::has_key;

verus! {

/// The verdict of a successful verification.
#[derive(Debug, Clone, Copy, PartialEq, Eq, Structural)]
pub enum VerifyOutcome {
    /// Claim hash matches and the signature policy is satisfied by an
    /// active key.
    Valid,
    /// Cryptographically correct, but the signing key is revoked; the
    /// caller decides whether to honor it.
    ValidButKeyRevoked,
}

/// The claim hash the engine asserts over a claim payload: base64 of the
/// SHA-256 of the payload's UTF-8 bytes.
pub open spec fn spec_claim_hash(payload: Seq<char>) -> Seq<char> {
    base64_of(sha256_of_str(payload))
}

/// Recomputes the claim hash of a payload; pure in the payload.
pub fn compute_claim_hash(payload: &str) -> (r: String)
    ensures
        r@ == spec_claim_hash(payload@),
{
    let digest = sha256_str(payload);
    b64_encode(digest.as_slice())
}

/// Whether one signature entry validates over `claim_hash` with the
/// signer's encoded key material.
pub open spec fn sig_entry_valid(
    key_value: Seq<char>,
    claim_hash: Seq<char>,
    e: SignatureComponentV,
) -> bool {
    &&& e.algorithm == "Ed25519"@
    &&& base64_decode_of(key_value) is Some
    &&& base64_decode_of(e.value) is Some
    &&& ed25519_verifies(
        base64_decode_of(key_value)->Some_0,
        claim_hash,
        base64_decode_of(e.value)->Some_0,
    )
}

/// The signature policy: by default at least one entry must validate;
/// under the strict policy every entry must, and there must be at least
/// one.
pub open spec fn sig_policy_ok(
    key_value: Seq<char>,
    claim_hash: Seq<char>,
    sig: Seq<SignatureComponentV>,
    strict: bool,
) -> bool {
    if strict {
        sig.len() > 0 && forall|i: int|
            0 <= i < sig.len() ==> sig_entry_valid(key_value, claim_hash, #[trigger] sig[i])
    } else {
        exists|i: int| 0 <= i < sig.len() && sig_entry_valid(key_value, claim_hash, #[trigger] sig[i])
    }
}

/// Whether `i` is the first entry that fails to validate.
pub open spec fn is_first_bad(
    key_value: Seq<char>,
    claim_hash: Seq<char>,
    sig: Seq<SignatureComponentV>,
    i: int,
) -> bool {
    &&& 0 <= i < sig.len()
    &&& !sig_entry_valid(key_value, claim_hash, sig[i])
    &&& forall|j: int| 0 <= j < i ==> sig_entry_valid(key_value, claim_hash, #[trigger] sig[j])
}

/// The algorithm named by a failed verification: that of the first entry
/// that fails, or empty where there is no entry at all.
pub open spec fn offending_alg(
    key_value: Seq<char>,
    claim_hash: Seq<char>,
    sig: Seq<SignatureComponentV>,
) -> Seq<char> {
    if sig.len() == 0 {
        ""@
    } else {
        sig[choose|i: int| is_first_bad(key_value, claim_hash, sig, i)].algorithm
    }
}

proof fn lemma_first_bad_unique(
    key_value: Seq<char>,
    claim_hash: Seq<char>,
    sig: Seq<SignatureComponentV>,
    i: int,
)
    requires
        is_first_bad(key_value, claim_hash, sig, i),
    ensures
        (choose|k: int| is_first_bad(key_value, claim_hash, sig, k)) == i,
{
    let w = choose|k: int| is_first_bad(key_value, claim_hash, sig, k);
    assert(is_first_bad(key_value, claim_hash, sig, w)) by {
        assert(is_first_bad(key_value, claim_hash, sig, i));
    }
    if w < i {
        assert(sig_entry_valid(key_value, claim_hash, sig[w]));
    }
    if i < w {
        assert(sig_entry_valid(key_value, claim_hash, sig[i]));
    }
}

/// Verifies a proof against the document: looks up the signing key,
/// recomputes the claim hash from the supplied payload, and checks the
/// signature entries under the chosen policy. The result is exact: each
/// error comes on precisely the stated inputs, and success distinguishes
/// a revoked signer from an active one.
pub fn verify(d: &Identity, pf: &Proof, claim_payload: &str, strict: bool) -> (r: Result<
    VerifyOutcome,
    IdpError,
>)
    ensures
        ({
            let keys = d@.system.public_keys;
            let pv = pf@;
            if !has_key(keys, pv.signed_by.key_id) {
                r matches Err(e) && e == IdpError::KeyNotFound
            } else {
                let k = keys[first_key_index(keys, pv.signed_by.key_id)];
                if pv.claim_hash != spec_claim_hash(claim_payload@) {
                    r matches Err(e) && e == IdpError::ClaimHashMismatch
                } else if sig_policy_ok(k.value, pv.claim_hash, pv.signature, strict) {
                    r matches Ok(o) && o == (if k.status == "revoked"@ {
                        VerifyOutcome::ValidButKeyRevoked
                    } else {
                        VerifyOutcome::Valid
                    })
                } else {
                    r matches Err(IdpError::InvalidSignature(a)) && a@ == offending_alg(
                        k.value,
                        pv.claim_hash,
                        pv.signature,
                    )
                }
            }
        }),
{
    let ghost keys = d@.system.public_keys;
    let ghost pv = pf@;

    // Locate the signing key.
    let n: usize = d.system.public_keys.len();
    let mut ki: usize = 0;
    let mut found: bool = false;
    while !found && ki < n
        invariant
            0 <= ki <= n,
            n == keys.len(),
            keys == d@.system.public_keys,
            pv == pf@,
            forall|k: int| 0 <= k < ki ==> keys[k].key_id != pv.signed_by.key_id,
            found ==> ki < n && keys[ki as int].key_id == pv.signed_by.key_id,
        decreases n - ki, (if found {
            0int
        } else {
            1int
        }),
    {
        proof {
            assert(keys[ki as int] == d.system.public_keys@[ki as int]@);
        }
        if str_eq(d.system.public_keys[ki].key_id.as_str(), pf.signed_by.key_id.as_str()) {
            found = true;
        } else {
            ki = ki + 1;
        }
    }
    if !found {
        proof {
            assert(!has_key(keys, pv.signed_by.key_id));
        }
        return Err(IdpError::KeyNotFound);
    }
    proof {
        lemma_first_key_index(keys, pv.signed_by.key_id, ki as int);
        assert(keys[ki as int] == d.system.public_keys@[ki as int]@);
    }
    let key = &d.system.public_keys[ki];
    let ghost kv = keys[ki as int];

    // Recompute and compare the claim hash.
    let expected = compute_claim_hash(claim_payload);
    if !str_eq(pf.claim_hash.as_str(), expected.as_str()) {
        return Err(IdpError::ClaimHashMismatch);
    }

    // Check the signature entries.
    let key_bytes: Option<Vec<u8>> = match b64_decode(key.value.as_str()) {
        Ok(b) => Some(b),
        Err(()) => None,
    };
    let m: usize = pf.signature.len();
    let ghost sig = pv.signature;
    let mut j: usize = 0;
    let mut any: bool = false;
    let mut all: bool = true;
    let mut first_bad: Option<usize> = None;
    while j < m
        invariant
            0 <= j <= m,
            m == sig.len(),
            sig == pv.signature,
            pv == pf@,
            kv == keys[ki as int],
            keys == d@.system.public_keys,
            key_bytes matches Some(b) ==> base64_decode_of(kv.value) is Some && b@
                == base64_decode_of(kv.value)->Some_0,
            key_bytes is None ==> base64_decode_of(kv.value) is None,
            any == exists|i: int|
                0 <= i < j && sig_entry_valid(kv.value, pv.claim_hash, #[trigger] sig[i]),
            all == forall|i: int|
                0 <= i < j ==> sig_entry_valid(kv.value, pv.claim_hash, #[trigger] sig[i]),
            first_bad is None ==> all,
            first_bad matches Some(b) ==> b < j && is_first_bad(
                kv.value,
                pv.claim_hash,
                sig,
                b as int,
            ),
        decreases m - j,
    {
        proof {
            assert(sig[j as int] == pf.signature@[j as int]@);
        }
        let entry = &pf.signature[j];
        let mut valid: bool = false;
        if str_eq(entry.algorithm.as_str(), "Ed25519") {
            if let Some(kb) = &key_bytes {
                match b64_decode(entry.value.as_str()) {
                    Ok(sb) => {
                        valid = ed25519_verify(
                            kb.as_slice(),
                            pf.claim_hash.as_str(),
                            sb.as_slice(),
                        );
                    },
                    Err(()) => {},
                }
            }
        }
        proof {
            assert(valid == sig_entry_valid(kv.value, pv.claim_hash, sig[j as int]));
        }
        if valid {
            any = true;
        } else {
            all = false;
            if first_bad.is_none() {
                first_bad = Some(j);
            }
        }
        j = j + 1;
    }

    let ok: bool = if strict {
        m > 0 && all
    } else {
        any
    };
    if ok {
        proof {
            assert(sig_policy_ok(kv.value, pv.claim_hash, sig, strict));
        }
        if str_eq(key.status.as_str(), "revoked") {
            Ok(VerifyOutcome::ValidButKeyRevoked)
        } else {
            Ok(VerifyOutcome::Valid)
        }
    } else {
        let alg: String = match first_bad {
            Some(b) => {
                proof {
                    lemma_first_bad_unique(kv.value, pv.claim_hash, sig, b as int);
                }
                pf.signature[b].algorithm.clone()
            },
            None => {
                proof {
                    if m > 0 {
                        assert(sig_entry_valid(kv.value, pv.claim_hash, sig[0]));
                        if !strict {
                            assert(false);
                        }
                    }
                    reveal_strlit("");
                    assert(""@ =~= Seq::<char>::empty());
                }
                String::new()
            },
        };
        proof {
            assert(!sig_policy_ok(kv.value, pv.claim_hash, sig, strict));
            assert(alg@ == offending_alg(kv.value, pv.claim_hash, sig));
        }
        Err(IdpError::InvalidSignature(alg))
    }
}

} // verus!
