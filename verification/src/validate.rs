//! The document validator: evaluates every structural and semantic
//! invariant of the document tree and returns the complete list of
//! violations, in a fixed order, never failing fast.

use vstd::prelude::*;

use crate::model::{
    ContractV, Identity, IdentityV, ProofV, PublicKeyV, Reputation, ReputationEvent,
    ReputationEventV, ReputationV, ts_le,
};
use crate::crypto::{spec_identity_id, derive_identity_id, str_eq};

verus! {

/// One broken invariant, carrying the index of the offending entry where
/// the invariant is per-entry.
#[derive(Debug, Clone, Copy, PartialEq, Eq, Structural)]
pub enum Violation {
    /// `identity.id` does not equal the derivation from the root key.
    IdMismatch,
    /// `system.public_keys` is empty.
    NoPublicKeys,
    /// The key at this index repeats an earlier `key_id`.
    DuplicateKeyId { index: usize },
    /// `created_at` is later than `updated_at`.
    TimestampOrder,
    /// The reputation entry's running total differs from the sum of its
    /// history changes.
    ReputationSum { index: usize },
    /// The contract at this index has no parties.
    EmptyParties { index: usize },
    /// The proof at this index names a signing key the document does not
    /// hold.
    UnknownSignerKey { index: usize },
}

/// The sum of the `change` fields of a history.
pub open spec fn sum_changes(h: Seq<ReputationEventV>) -> int
    decreases h.len(),
{
    if h.len() == 0 {
        0
    } else {
        sum_changes(h.drop_last()) + h.last().change
    }
}

/// Whether an earlier key shares the `key_id` of the key at `j`.
pub open spec fn has_earlier_dup(keys: Seq<PublicKeyV>, j: int) -> bool {
    exists|k: int| 0 <= k < j && keys[k].key_id == keys[j].key_id
}

/// Whether some key in the list carries this `key_id`.
pub open spec fn has_key(keys: Seq<PublicKeyV>, key_id: Seq<char>) -> bool {
    exists|k: int| 0 <= k < keys.len() && keys[k].key_id == key_id
}

/// Root-key violations: a missing key list, else an identity that does not
/// match the derivation from the root key's encoded value.
pub open spec fn key_root_viols(d: IdentityV) -> Seq<Violation> {
    if d.system.public_keys.len() == 0 {
        seq![Violation::NoPublicKeys]
    } else if d.identity.id != spec_identity_id(d.system.public_keys[0].value) {
        seq![Violation::IdMismatch]
    } else {
        Seq::empty()
    }
}

/// Duplicate-key violations among the first `i` keys.
pub open spec fn dup_viols(keys: Seq<PublicKeyV>, i: int) -> Seq<Violation>
    decreases i,
{
    if i <= 0 {
        Seq::empty()
    } else {
        dup_viols(keys, i - 1) + if has_earlier_dup(keys, i - 1) {
            seq![Violation::DuplicateKeyId { index: (i - 1) as usize }]
        } else {
            Seq::empty()
        }
    }
}

/// Timestamp-order violations.
pub open spec fn ts_viols(d: IdentityV) -> Seq<Violation> {
    if ts_le(d.identity.created_at, d.identity.updated_at) {
        Seq::empty()
    } else {
        seq![Violation::TimestampOrder]
    }
}

/// Reputation-sum violations among the first `i` entries.
pub open spec fn rep_viols(reps: Seq<ReputationV>, i: int) -> Seq<Violation>
    decreases i,
{
    if i <= 0 {
        Seq::empty()
    } else {
        rep_viols(reps, i - 1) + if reps[i - 1].value != sum_changes(reps[i - 1].history) {
            seq![Violation::ReputationSum { index: (i - 1) as usize }]
        } else {
            Seq::empty()
        }
    }
}

/// Empty-parties violations among the first `i` contracts.
pub open spec fn party_viols(contracts: Seq<ContractV>, i: int) -> Seq<Violation>
    decreases i,
{
    if i <= 0 {
        Seq::empty()
    } else {
        party_viols(contracts, i - 1) + if contracts[i - 1].parties.len() == 0 {
            seq![Violation::EmptyParties { index: (i - 1) as usize }]
        } else {
            Seq::empty()
        }
    }
}

/// Unknown-signer violations among the first `i` proofs.
pub open spec fn signer_viols(proofs: Seq<ProofV>, keys: Seq<PublicKeyV>, i: int) -> Seq<
    Violation,
>
    decreases i,
{
    if i <= 0 {
        Seq::empty()
    } else {
        signer_viols(proofs, keys, i - 1) + if !has_key(keys, proofs[i - 1].signed_by.key_id) {
            seq![Violation::UnknownSignerKey { index: (i - 1) as usize }]
        } else {
            Seq::empty()
        }
    }
}

/// The complete list of violations of a document, in canonical order:
/// root key and identity, duplicate keys, timestamp order, reputation
/// sums, contract parties, proof signers.
pub open spec fn spec_violations(d: IdentityV) -> Seq<Violation> {
    key_root_viols(d) + dup_viols(d.system.public_keys, d.system.public_keys.len() as int)
        + ts_viols(d) + rep_viols(d.reputation, d.reputation.len() as int) + party_viols(
        d.contracts,
        d.contracts.len() as int,
    ) + signer_viols(d.proofs, d.system.public_keys, d.proofs.len() as int)
}

/// A document that satisfies every invariant.
pub open spec fn doc_ok(d: IdentityV) -> bool {
    spec_violations(d).len() == 0
}

/// Computes the sum of the history changes of one reputation entry,
/// widened so no overflow is possible.
fn history_sum(h: &Vec<ReputationEvent>) -> (r: i128)
    ensures
        r as int == sum_changes(h@.map_values(|e: ReputationEvent| e@)),
{
    let ghost hv = h@.map_values(|e: ReputationEvent| e@);
    let mut sum: i128 = 0;
    let mut j: usize = 0;
    while j < h.len()
        invariant
            0 <= j <= h.len(),
            hv == h@.map_values(|e: ReputationEvent| e@),
            hv.len() == h@.len(),
            sum as int == sum_changes(hv.take(j as int)),
            -(j as int) * 0x8000_0000_0000_0000 <= sum as int <= (j as int)
                * 0x7fff_ffff_ffff_ffff,
        decreases h.len() - j,
    {
        let c: i64 = h[j].change;
        proof {
            assert(hv[j as int] == h@[j as int]@);
            assert(hv.take(j + 1 as int).drop_last() =~= hv.take(j as int));
            assert(hv.take(j + 1 as int).last() == hv[j as int]);
            assert((j as int + 1) * 0x8000_0000_0000_0000 <= 0x10000_0000_0000_0000
                * 0x8000_0000_0000_0000) by (nonlinear_arith)
                requires
                    j as int + 1 <= 0x10000_0000_0000_0000,
            ;
            assert((j as int + 1) * 0x7fff_ffff_ffff_ffff <= 0x10000_0000_0000_0000
                * 0x7fff_ffff_ffff_ffff) by (nonlinear_arith)
                requires
                    j as int + 1 <= 0x10000_0000_0000_0000,
            ;
            assert(-(j as int) * 0x8000_0000_0000_0000 - 0x8000_0000_0000_0000 == -(j as int + 1)
                * 0x8000_0000_0000_0000) by (nonlinear_arith);
            assert((j as int) * 0x7fff_ffff_ffff_ffff + 0x7fff_ffff_ffff_ffff == (j as int + 1)
                * 0x7fff_ffff_ffff_ffff) by (nonlinear_arith);
        }
        sum = sum + c as i128;
        j = j + 1;
    }
    proof {
        assert(hv.take(hv.len() as int) =~= hv);
    }
    sum
}

/// Evaluates every invariant and returns the complete list of violations,
/// in canonical order; the document passes exactly when the list is empty.
pub fn validate(d: &Identity) -> (r: Vec<Violation>)
    ensures
        r@ == spec_violations(d@),
{
    let ghost dv = d@;
    let mut out: Vec<Violation> = Vec::new();

    // Root key presence and identity derivation.
    if d.system.public_keys.len() == 0 {
        out.push(Violation::NoPublicKeys);
    } else {
        let expected = derive_identity_id(d.system.public_keys[0].value.as_str());
        proof {
            assert(dv.system.public_keys[0] == d.system.public_keys@[0]@);
        }
        if !str_eq(d.identity.id.as_str(), expected.as_str()) {
            out.push(Violation::IdMismatch);
        }
    }
    proof {
        assert(out@ =~= key_root_viols(dv));
    }

    // Duplicate key ids.
    let ghost keys = dv.system.public_keys;
    let n_keys: usize = d.system.public_keys.len();
    let mut j: usize = 1;
    proof {
        assert(!has_earlier_dup(keys, 0));
        assert(dup_viols(keys, 0) =~= Seq::<Violation>::empty());
        assert(dup_viols(keys, 1) =~= Seq::<Violation>::empty());
    }
    if n_keys > 0 {
        while j < n_keys
            invariant
                1 <= j <= n_keys,
                n_keys == keys.len(),
                keys == dv.system.public_keys,
                dv == d@,
                out@ == key_root_viols(dv) + dup_viols(keys, j as int),
            decreases n_keys - j,
        {
            let mut i: usize = 0;
            let mut found: bool = false;
            while i < j
                invariant
                    0 <= i <= j < n_keys,
                    n_keys == keys.len(),
                    keys == dv.system.public_keys,
                    dv == d@,
                    found == exists|k: int|
                        0 <= k < i && keys[k].key_id == keys[j as int].key_id,
                decreases j - i,
            {
                proof {
                    assert(keys[i as int] == d.system.public_keys@[i as int]@);
                    assert(keys[j as int] == d.system.public_keys@[j as int]@);
                }
                if str_eq(
                    d.system.public_keys[i].key_id.as_str(),
                    d.system.public_keys[j].key_id.as_str(),
                ) {
                    found = true;
                }
                i = i + 1;
            }
            if found {
                out.push(Violation::DuplicateKeyId { index: j });
            }
            proof {
                assert(found == has_earlier_dup(keys, j as int));
                assert(out@ =~= key_root_viols(dv) + dup_viols(keys, j as int + 1));
            }
            j = j + 1;
        }
    }
    let ghost mark_keys = key_root_viols(dv) + dup_viols(keys, keys.len() as int);
    proof {
        if n_keys == 0 {
            assert(out@ =~= mark_keys);
        } else {
            assert(out@ =~= mark_keys);
        }
    }

    // Timestamp order.
    if !d.identity.created_at.le(&d.identity.updated_at) {
        out.push(Violation::TimestampOrder);
    }
    let ghost mark_ts = mark_keys + ts_viols(dv);
    proof {
        assert(out@ =~= mark_ts);
    }

    // Reputation sums.
    let ghost reps = dv.reputation;
    let mut ri: usize = 0;
    while ri < d.reputation.len()
        invariant
            0 <= ri <= d.reputation.len(),
            reps == dv.reputation,
            dv == d@,
            reps.len() == d.reputation.len(),
            out@ == mark_ts + rep_viols(reps, ri as int),
        decreases d.reputation.len() - ri,
    {
        proof {
            assert(reps[ri as int] == d.reputation@[ri as int]@);
        }
        let sum = history_sum(&d.reputation[ri].history);
        if (d.reputation[ri].value as i128) != sum {
            out.push(Violation::ReputationSum { index: ri });
        }
        proof {
            assert(out@ =~= mark_ts + rep_viols(reps, ri as int + 1));
        }
        ri = ri + 1;
    }
    let ghost mark_rep = mark_ts + rep_viols(reps, reps.len() as int);
    proof {
        assert(out@ =~= mark_rep);
    }

    // Contract parties.
    let ghost cons = dv.contracts;
    let mut ci: usize = 0;
    while ci < d.contracts.len()
        invariant
            0 <= ci <= d.contracts.len(),
            cons == dv.contracts,
            dv == d@,
            cons.len() == d.contracts.len(),
            out@ == mark_rep + party_viols(cons, ci as int),
        decreases d.contracts.len() - ci,
    {
        proof {
            assert(cons[ci as int] == d.contracts@[ci as int]@);
        }
        if d.contracts[ci].parties.len() == 0 {
            out.push(Violation::EmptyParties { index: ci });
        }
        proof {
            assert(out@ =~= mark_rep + party_viols(cons, ci as int + 1));
        }
        ci = ci + 1;
    }
    let ghost mark_con = mark_rep + party_viols(cons, cons.len() as int);
    proof {
        assert(out@ =~= mark_con);
    }

    // Proof signers.
    let ghost prfs = dv.proofs;
    let mut pi: usize = 0;
    while pi < d.proofs.len()
        invariant
            0 <= pi <= d.proofs.len(),
            prfs == dv.proofs,
            keys == dv.system.public_keys,
            dv == d@,
            prfs.len() == d.proofs.len(),
            keys.len() == d.system.public_keys.len(),
            out@ == mark_con + signer_viols(prfs, keys, pi as int),
        decreases d.proofs.len() - pi,
    {
        proof {
            assert(prfs[pi as int] == d.proofs@[pi as int]@);
        }
        let mut ki: usize = 0;
        let mut found: bool = false;
        while ki < d.system.public_keys.len()
            invariant
                0 <= ki <= keys.len(),
                keys == dv.system.public_keys,
                prfs == dv.proofs,
                dv == d@,
                keys.len() == d.system.public_keys.len(),
                prfs.len() == d.proofs.len(),
                pi < prfs.len(),
                found == exists|k: int|
                    0 <= k < ki && keys[k].key_id == prfs[pi as int].signed_by.key_id,
            decreases keys.len() - ki,
        {
            proof {
                assert(keys[ki as int] == d.system.public_keys@[ki as int]@);
            }
            if str_eq(
                d.system.public_keys[ki].key_id.as_str(),
                d.proofs[pi].signed_by.key_id.as_str(),
            ) {
                found = true;
            }
            ki = ki + 1;
        }
        if !found {
            out.push(Violation::UnknownSignerKey { index: pi });
        }
        proof {
            assert(found == has_key(keys, prfs[pi as int].signed_by.key_id));
            assert(out@ =~= mark_con + signer_viols(prfs, keys, pi as int + 1));
        }
        pi = pi + 1;
    }
    proof {
        assert(out@ =~= spec_violations(dv));
    }
    out
}

} // verus!
