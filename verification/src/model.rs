//! The document tree: the identity record and every block it holds, with
//! mathematical views for contracts, and the timestamp type used by the
//! `created_at` / `updated_at` fields.

use vstd::prelude::*;

verus! {

/// A UTC calendar timestamp, second precision.
///
/// The engine keeps timestamps as plain calendar fields so that ordering,
/// formatting and parsing are all verified arithmetic; the wall clock is
/// consulted only through `crypto::now_parts`.
#[derive(Debug, Clone, Copy, PartialEq, Eq, Structural)]
pub struct Timestamp {
    pub year: u16,
    pub month: u8,
    pub day: u8,
    pub hour: u8,
    pub minute: u8,
    pub second: u8,
}

/// A well-formed timestamp: field ranges that every timestamp the engine
/// constructs or accepts satisfies. Years are kept to four decimal digits
/// so the canonical text form is fixed-width.
pub open spec fn ts_wf(t: Timestamp) -> bool {
    &&& 1 <= t.year <= 9999
    &&& 1 <= t.month <= 12
    &&& 1 <= t.day <= 31
    &&& t.hour < 24
    &&& t.minute < 60
    &&& t.second < 60
}

/// Lexicographic order on calendar fields: `a` is no later than `b`.
pub open spec fn ts_le(a: Timestamp, b: Timestamp) -> bool {
    if a.year != b.year {
        a.year < b.year
    } else if a.month != b.month {
        a.month < b.month
    } else if a.day != b.day {
        a.day < b.day
    } else if a.hour != b.hour {
        a.hour < b.hour
    } else if a.minute != b.minute {
        a.minute < b.minute
    } else {
        a.second <= b.second
    }
}

impl Timestamp {
    /// Decides `ts_le` on concrete timestamps.
    pub fn le(&self, other: &Timestamp) -> (r: bool)
        ensures
            r == ts_le(*self, *other),
    {
        if self.year != other.year {
            self.year < other.year
        } else if self.month != other.month {
            self.month < other.month
        } else if self.day != other.day {
            self.day < other.day
        } else if self.hour != other.hour {
            self.hour < other.hour
        } else if self.minute != other.minute {
            self.minute < other.minute
        } else {
            self.second <= other.second
        }
    }

    /// The later of two timestamps; used to advance `updated_at` without
    /// ever moving it backwards.
    pub fn later(&self, other: &Timestamp) -> (r: Timestamp)
        ensures
            r == ts_later(*self, *other),
    {
        if self.le(other) {
            *other
        } else {
            *self
        }
    }
}

/// The later of two timestamps.
pub open spec fn ts_later(a: Timestamp, b: Timestamp) -> Timestamp {
    if ts_le(a, b) {
        b
    } else {
        a
    }
}

// ------------------------------------------------------------------
// The document tree, shaped as the canonical record: an identity block,
// the key list, the profile, and five extensible trust-artifact sequences.
// ------------------------------------------------------------------

#[derive(Debug, Clone, PartialEq, Eq)]
pub struct Identity {
    pub identity: IdentityBlock,
    pub system: SystemBlock,
    pub core: CoreBlock,
    pub credentials: Vec<Credential>,
    pub proofs: Vec<Proof>,
    pub contracts: Vec<Contract>,
    pub reputation: Vec<Reputation>,
    pub consent: Vec<Consent>,
}

#[derive(Debug, Clone, PartialEq, Eq)]
pub struct IdentityBlock {
    pub id: String,
    pub version: String,
    pub schema_url: String,
    pub created_at: Timestamp,
    pub updated_at: Timestamp,
}

#[derive(Debug, Clone, PartialEq, Eq)]
pub struct SystemBlock {
    pub public_keys: Vec<PublicKey>,
}

#[derive(Debug, Clone, PartialEq, Eq)]
pub struct PublicKey {
    pub key_id: String,
    pub algorithm: String,
    /// Base64-encoded public key material.
    pub value: String,
    /// "active" or "revoked".
    pub status: String,
}

#[derive(Debug, Clone, PartialEq, Eq)]
pub struct CoreBlock {
    pub name: String,
    pub bio: String,
}

#[derive(Debug, Clone, PartialEq, Eq)]
pub struct Credential {
    pub claim: String,
    pub issued_by: String,
    pub issued_at: String,
    pub expires_at: Option<String>,
    /// Opaque reference to the evidence backing the claim.
    pub proof_ref: String,
}

#[derive(Debug, Clone, PartialEq, Eq)]
pub struct Proof {
    pub proof_id: String,
    pub proof_type: String,
    pub claim_hash: String,
    pub signed_by: Signer,
    pub signature: Vec<SignatureComponent>,
}

#[derive(Debug, Clone, PartialEq, Eq)]
pub struct Signer {
    pub idp_id: String,
    pub key_id: String,
}

#[derive(Debug, Clone, PartialEq, Eq)]
pub struct SignatureComponent {
    pub algorithm: String,
    pub value: String,
}

#[derive(Debug, Clone, PartialEq, Eq)]
pub struct Contract {
    pub contract_id: String,
    pub status: String,
    pub parties: Vec<String>,
    pub terms: String,
    pub consequence: Consequence,
}

#[derive(Debug, Clone, PartialEq, Eq)]
pub struct Consequence {
    pub on_success: String,
    pub on_failure: String,
}

#[derive(Debug, Clone, PartialEq, Eq)]
pub struct Reputation {
    pub score_name: String,
    /// Running total; the validator holds it to the sum of `history`.
    pub value: i64,
    pub history: Vec<ReputationEvent>,
}

#[derive(Debug, Clone, PartialEq, Eq)]
pub struct ReputationEvent {
    pub event: String,
    pub change: i64,
    pub timestamp: String,
}

#[derive(Debug, Clone, PartialEq, Eq)]
pub struct Consent {
    pub granted_to: String,
    pub fields: Vec<String>,
    pub expires_at: String,
    pub purpose: String,
}

// ------------------------------------------------------------------
// Mathematical views: one ghost mirror per block, over `Seq<char>` and
// `int`, so that every contract speaks of abstract values.
// ------------------------------------------------------------------

#[verifier::ext_equal]
pub ghost struct IdentityV {
    pub identity: IdentityBlockV,
    pub system: SystemBlockV,
    pub core: CoreBlockV,
    pub credentials: Seq<CredentialV>,
    pub proofs: Seq<ProofV>,
    pub contracts: Seq<ContractV>,
    pub reputation: Seq<ReputationV>,
    pub consent: Seq<ConsentV>,
}

#[verifier::ext_equal]
pub ghost struct IdentityBlockV {
    pub id: Seq<char>,
    pub version: Seq<char>,
    pub schema_url: Seq<char>,
    pub created_at: Timestamp,
    pub updated_at: Timestamp,
}

#[verifier::ext_equal]
pub ghost struct SystemBlockV {
    pub public_keys: Seq<PublicKeyV>,
}

#[verifier::ext_equal]
pub ghost struct PublicKeyV {
    pub key_id: Seq<char>,
    pub algorithm: Seq<char>,
    pub value: Seq<char>,
    pub status: Seq<char>,
}

#[verifier::ext_equal]
pub ghost struct CoreBlockV {
    pub name: Seq<char>,
    pub bio: Seq<char>,
}

#[verifier::ext_equal]
pub ghost struct CredentialV {
    pub claim: Seq<char>,
    pub issued_by: Seq<char>,
    pub issued_at: Seq<char>,
    pub expires_at: Option<Seq<char>>,
    pub proof_ref: Seq<char>,
}

#[verifier::ext_equal]
pub ghost struct ProofV {
    pub proof_id: Seq<char>,
    pub proof_type: Seq<char>,
    pub claim_hash: Seq<char>,
    pub signed_by: SignerV,
    pub signature: Seq<SignatureComponentV>,
}

#[verifier::ext_equal]
pub ghost struct SignerV {
    pub idp_id: Seq<char>,
    pub key_id: Seq<char>,
}

#[verifier::ext_equal]
pub ghost struct SignatureComponentV {
    pub algorithm: Seq<char>,
    pub value: Seq<char>,
}

#[verifier::ext_equal]
pub ghost struct ContractV {
    pub contract_id: Seq<char>,
    pub status: Seq<char>,
    pub parties: Seq<Seq<char>>,
    pub terms: Seq<char>,
    pub consequence: ConsequenceV,
}

#[verifier::ext_equal]
pub ghost struct ConsequenceV {
    pub on_success: Seq<char>,
    pub on_failure: Seq<char>,
}

#[verifier::ext_equal]
pub ghost struct ReputationV {
    pub score_name: Seq<char>,
    pub value: int,
    pub history: Seq<ReputationEventV>,
}

#[verifier::ext_equal]
pub ghost struct ReputationEventV {
    pub event: Seq<char>,
    pub change: int,
    pub timestamp: Seq<char>,
}

#[verifier::ext_equal]
pub ghost struct ConsentV {
    pub granted_to: Seq<char>,
    pub fields: Seq<Seq<char>>,
    pub expires_at: Seq<char>,
    pub purpose: Seq<char>,
}

impl View for IdentityBlock {
    type V = IdentityBlockV;

    open spec fn view(&self) -> IdentityBlockV {
        IdentityBlockV {
            id: self.id@,
            version: self.version@,
            schema_url: self.schema_url@,
            created_at: self.created_at,
            updated_at: self.updated_at,
        }
    }
}

impl View for PublicKey {
    type V = PublicKeyV;

    open spec fn view(&self) -> PublicKeyV {
        PublicKeyV {
            key_id: self.key_id@,
            algorithm: self.algorithm@,
            value: self.value@,
            status: self.status@,
        }
    }
}

impl View for SystemBlock {
    type V = SystemBlockV;

    open spec fn view(&self) -> SystemBlockV {
        SystemBlockV { public_keys: self.public_keys@.map_values(|k: PublicKey| k@) }
    }
}

impl View for CoreBlock {
    type V = CoreBlockV;

    open spec fn view(&self) -> CoreBlockV {
        CoreBlockV { name: self.name@, bio: self.bio@ }
    }
}

impl View for Credential {
    type V = CredentialV;

    open spec fn view(&self) -> CredentialV {
        CredentialV {
            claim: self.claim@,
            issued_by: self.issued_by@,
            issued_at: self.issued_at@,
            expires_at: match self.expires_at {
                Some(ref e) => Some(e@),
                None => None,
            },
            proof_ref: self.proof_ref@,
        }
    }
}

impl View for Signer {
    type V = SignerV;

    open spec fn view(&self) -> SignerV {
        SignerV { idp_id: self.idp_id@, key_id: self.key_id@ }
    }
}

impl View for SignatureComponent {
    type V = SignatureComponentV;

    open spec fn view(&self) -> SignatureComponentV {
        SignatureComponentV { algorithm: self.algorithm@, value: self.value@ }
    }
}

impl View for Proof {
    type V = ProofV;

    open spec fn view(&self) -> ProofV {
        ProofV {
            proof_id: self.proof_id@,
            proof_type: self.proof_type@,
            claim_hash: self.claim_hash@,
            signed_by: self.signed_by@,
            signature: self.signature@.map_values(|c: SignatureComponent| c@),
        }
    }
}

impl View for Consequence {
    type V = ConsequenceV;

    open spec fn view(&self) -> ConsequenceV {
        ConsequenceV { on_success: self.on_success@, on_failure: self.on_failure@ }
    }
}

impl View for Contract {
    type V = ContractV;

    open spec fn view(&self) -> ContractV {
        ContractV {
            contract_id: self.contract_id@,
            status: self.status@,
            parties: self.parties@.map_values(|p: String| p@),
            terms: self.terms@,
            consequence: self.consequence@,
        }
    }
}

impl View for ReputationEvent {
    type V = ReputationEventV;

    open spec fn view(&self) -> ReputationEventV {
        ReputationEventV {
            event: self.event@,
            change: self.change as int,
            timestamp: self.timestamp@,
        }
    }
}

impl View for Reputation {
    type V = ReputationV;

    open spec fn view(&self) -> ReputationV {
        ReputationV {
            score_name: self.score_name@,
            value: self.value as int,
            history: self.history@.map_values(|e: ReputationEvent| e@),
        }
    }
}

impl View for Consent {
    type V = ConsentV;

    open spec fn view(&self) -> ConsentV {
        ConsentV {
            granted_to: self.granted_to@,
            fields: self.fields@.map_values(|f: String| f@),
            expires_at: self.expires_at@,
            purpose: self.purpose@,
        }
    }
}

impl View for Identity {
    type V = IdentityV;

    open spec fn view(&self) -> IdentityV {
        IdentityV {
            identity: self.identity@,
            system: self.system@,
            core: self.core@,
            credentials: self.credentials@.map_values(|c: Credential| c@),
            proofs: self.proofs@.map_values(|p: Proof| p@),
            contracts: self.contracts@.map_values(|c: Contract| c@),
            reputation: self.reputation@.map_values(|r: Reputation| r@),
            consent: self.consent@.map_values(|c: Consent| c@),
        }
    }
}


// ------------------------------------------------------------------
// Deep clones with known views: the mutator applies changes to a clone
// and commits it only after re-validation.
// ------------------------------------------------------------------

fn clone_string_vec(v: &Vec<String>) -> (r: Vec<String>)
    ensures
        r@.len() == v@.len(),
        forall|k: int| 0 <= k < v@.len() ==> r@[k]@ == #[trigger] v@[k]@,
{
    let mut out: Vec<String> = Vec::new();
    let mut i: usize = 0;
    while i < v.len()
        invariant
            0 <= i <= v@.len(),
            out@.len() == i,
            forall|k: int| 0 <= k < i ==> out@[k]@ == #[trigger] v@[k]@,
        decreases v@.len() - i,
    {
        out.push(v[i].clone());
        i = i + 1;
    }
    out
}

impl PublicKey {
    pub fn deep_clone(&self) -> (r: PublicKey)
        ensures
            r@ == self@,
    {
        PublicKey {
            key_id: self.key_id.clone(),
            algorithm: self.algorithm.clone(),
            value: self.value.clone(),
            status: self.status.clone(),
        }
    }
}

impl Credential {
    pub fn deep_clone(&self) -> (r: Credential)
        ensures
            r@ == self@,
    {
        Credential {
            claim: self.claim.clone(),
            issued_by: self.issued_by.clone(),
            issued_at: self.issued_at.clone(),
            expires_at: match &self.expires_at {
                Some(e) => Some(e.clone()),
                None => None,
            },
            proof_ref: self.proof_ref.clone(),
        }
    }
}

impl SignatureComponent {
    pub fn deep_clone(&self) -> (r: SignatureComponent)
        ensures
            r@ == self@,
    {
        SignatureComponent { algorithm: self.algorithm.clone(), value: self.value.clone() }
    }
}

impl Proof {
    pub fn deep_clone(&self) -> (r: Proof)
        ensures
            r@ == self@,
    {
        let mut signature: Vec<SignatureComponent> = Vec::new();
        let mut i: usize = 0;
        while i < self.signature.len()
            invariant
                0 <= i <= self.signature@.len(),
                signature@.len() == i,
                forall|k: int|
                    0 <= k < i ==> signature@[k]@ == #[trigger] self.signature@[k]@,
            decreases self.signature@.len() - i,
        {
            signature.push(self.signature[i].deep_clone());
            i = i + 1;
        }
        let r = Proof {
            proof_id: self.proof_id.clone(),
            proof_type: self.proof_type.clone(),
            claim_hash: self.claim_hash.clone(),
            signed_by: Signer {
                idp_id: self.signed_by.idp_id.clone(),
                key_id: self.signed_by.key_id.clone(),
            },
            signature,
        };
        proof {
            assert(r@.signature =~= self@.signature);
            assert(r@ =~~= self@);
        }
        r
    }
}

impl Contract {
    pub fn deep_clone(&self) -> (r: Contract)
        ensures
            r@ == self@,
    {
        let r = Contract {
            contract_id: self.contract_id.clone(),
            status: self.status.clone(),
            parties: clone_string_vec(&self.parties),
            terms: self.terms.clone(),
            consequence: Consequence {
                on_success: self.consequence.on_success.clone(),
                on_failure: self.consequence.on_failure.clone(),
            },
        };
        proof {
            assert(r@.parties =~= self@.parties);
            assert(r@ =~~= self@);
        }
        r
    }
}

impl Reputation {
    pub fn deep_clone(&self) -> (r: Reputation)
        ensures
            r@ == self@,
    {
        let mut history: Vec<ReputationEvent> = Vec::new();
        let mut i: usize = 0;
        while i < self.history.len()
            invariant
                0 <= i <= self.history@.len(),
                history@.len() == i,
                forall|k: int| 0 <= k < i ==> history@[k]@ == #[trigger] self.history@[k]@,
            decreases self.history@.len() - i,
        {
            let e = &self.history[i];
            history.push(
                ReputationEvent {
                    event: e.event.clone(),
                    change: e.change,
                    timestamp: e.timestamp.clone(),
                },
            );
            i = i + 1;
        }
        let r = Reputation { score_name: self.score_name.clone(), value: self.value, history };
        proof {
            assert(r@.history =~= self@.history);
            assert(r@ =~~= self@);
        }
        r
    }
}

impl Consent {
    pub fn deep_clone(&self) -> (r: Consent)
        ensures
            r@ == self@,
    {
        let r = Consent {
            granted_to: self.granted_to.clone(),
            fields: clone_string_vec(&self.fields),
            expires_at: self.expires_at.clone(),
            purpose: self.purpose.clone(),
        };
        proof {
            assert(r@.fields =~= self@.fields);
            assert(r@ =~~= self@);
        }
        r
    }
}

impl Identity {
    /// A deep copy whose mathematical view is exactly that of the
    /// original.
    pub fn deep_clone(&self) -> (r: Identity)
        ensures
            r@ == self@,
    {
        let mut public_keys: Vec<PublicKey> = Vec::new();
        let mut i: usize = 0;
        while i < self.system.public_keys.len()
            invariant
                0 <= i <= self.system.public_keys@.len(),
                public_keys@.len() == i,
                forall|k: int|
                    0 <= k < i ==> public_keys@[k]@ == #[trigger] self.system.public_keys@[k]@,
            decreases self.system.public_keys@.len() - i,
        {
            public_keys.push(self.system.public_keys[i].deep_clone());
            i = i + 1;
        }
        let mut credentials: Vec<Credential> = Vec::new();
        let mut ci: usize = 0;
        while ci < self.credentials.len()
            invariant
                0 <= ci <= self.credentials@.len(),
                credentials@.len() == ci,
                forall|k: int|
                    0 <= k < ci ==> credentials@[k]@ == #[trigger] self.credentials@[k]@,
            decreases self.credentials@.len() - ci,
        {
            credentials.push(self.credentials[ci].deep_clone());
            ci = ci + 1;
        }
        let mut proofs: Vec<Proof> = Vec::new();
        let mut pi: usize = 0;
        while pi < self.proofs.len()
            invariant
                0 <= pi <= self.proofs@.len(),
                proofs@.len() == pi,
                forall|k: int| 0 <= k < pi ==> proofs@[k]@ == #[trigger] self.proofs@[k]@,
            decreases self.proofs@.len() - pi,
        {
            proofs.push(self.proofs[pi].deep_clone());
            pi = pi + 1;
        }
        let mut contracts: Vec<Contract> = Vec::new();
        let mut ki: usize = 0;
        while ki < self.contracts.len()
            invariant
                0 <= ki <= self.contracts@.len(),
                contracts@.len() == ki,
                forall|k: int| 0 <= k < ki ==> contracts@[k]@ == #[trigger] self.contracts@[k]@,
            decreases self.contracts@.len() - ki,
        {
            contracts.push(self.contracts[ki].deep_clone());
            ki = ki + 1;
        }
        let mut reputation: Vec<Reputation> = Vec::new();
        let mut ri: usize = 0;
        while ri < self.reputation.len()
            invariant
                0 <= ri <= self.reputation@.len(),
                reputation@.len() == ri,
                forall|k: int|
                    0 <= k < ri ==> reputation@[k]@ == #[trigger] self.reputation@[k]@,
            decreases self.reputation@.len() - ri,
        {
            reputation.push(self.reputation[ri].deep_clone());
            ri = ri + 1;
        }
        let mut consent: Vec<Consent> = Vec::new();
        let mut si: usize = 0;
        while si < self.consent.len()
            invariant
                0 <= si <= self.consent@.len(),
                consent@.len() == si,
                forall|k: int| 0 <= k < si ==> consent@[k]@ == #[trigger] self.consent@[k]@,
            decreases self.consent@.len() - si,
        {
            consent.push(self.consent[si].deep_clone());
            si = si + 1;
        }
        let r = Identity {
            identity: IdentityBlock {
                id: self.identity.id.clone(),
                version: self.identity.version.clone(),
                schema_url: self.identity.schema_url.clone(),
                created_at: self.identity.created_at,
                updated_at: self.identity.updated_at,
            },
            system: SystemBlock { public_keys },
            core: CoreBlock { name: self.core.name.clone(), bio: self.core.bio.clone() },
            credentials,
            proofs,
            contracts,
            reputation,
            consent,
        };
        proof {
            assert(r.system@.public_keys =~= self.system@.public_keys);
            assert(r@.credentials =~= self@.credentials);
            assert(r@.proofs =~= self@.proofs);
            assert(r@.contracts =~= self@.contracts);
            assert(r@.reputation =~= self@.reputation);
            assert(r@.consent =~= self@.consent);
            assert(r@ =~~= self@);
        }
        r
    }
}

} // verus!
