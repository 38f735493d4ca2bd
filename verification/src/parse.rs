//! The executable strict parser for the canonical document text. Every
//! function mirrors the corresponding specification parser in `codec`
//! exactly, on success and on failure.

use vstd::prelude::*;

use crate::codec::{
    at, line_end, parse_cred, parse_creds, parse_consent1, parse_consents, parse_contract,
    parse_contracts, parse_doc, parse_fline, parse_iline, parse_parties, parse_proofent,
    parse_proofs, parse_pubkey, parse_pubkeys, parse_rep, parse_repev, parse_repevs, parse_reps,
    parse_sec_creds, parse_sec_consents, parse_sec_contracts, parse_sec_proofs, parse_sec_reps,
    parse_sig, parse_sigs, parse_tline, unesc_opt,
};
use crate::errors::IdpError;
use crate::model::{
    Consent, Consequence, Contract, Credential, Identity, IdentityBlock, CoreBlock, Proof,
    PublicKey, Reputation, ReputationEvent, SignatureComponent, Signer, SystemBlock, Timestamp,
};
use crate::text::{chars_vec, parse_i64, parse_ts, string_of_chars};

verus! {

/// Whether the text carries `lit` at position `i`.
fn e_at(cs: &Vec<char>, i: usize, lit: &str) -> (r: bool)
    requires
        i <= cs@.len(),
    ensures
        r == at(cs@, i as int, lit@),
{
    let m: usize = lit.unicode_len();
    let n: usize = cs.len();
    if m > n - i {
        return false;
    }
    let mut k: usize = 0;
    while k < m
        invariant
            0 <= k <= m,
            i + m <= n,
            n == cs@.len(),
            m == lit@.len(),
            forall|q: int| 0 <= q < k ==> cs@[i + q] == #[trigger] lit@[q],
        decreases m - k,
    {
        if cs[i + k] != lit.get_char(k) {
            proof {
                if at(cs@, i as int, lit@) {
                    assert(cs@.subrange(i as int, i + lit@.len())[k as int] == lit@[k as int]);
                }
            }
            return false;
        }
        k = k + 1;
    }
    proof {
        assert(cs@.subrange(i as int, i + lit@.len()) =~= lit@);
    }
    true
}

/// The position of the next newline at or after `i`, or the text length.
fn e_line_end(cs: &Vec<char>, i: usize) -> (r: usize)
    requires
        i <= cs@.len(),
    ensures
        r == line_end(cs@, i as int),
        i <= r <= cs@.len(),
{
    let mut j: usize = i;
    while j < cs.len() && cs[j] != '\n'
        invariant
            i <= j <= cs@.len(),
            line_end(cs@, i as int) == line_end(cs@, j as int),
        decreases cs@.len() - j,
    {
        proof {
            assert(line_end(cs@, j as int) == line_end(cs@, j as int + 1));
        }
        j = j + 1;
    }
    proof {
        assert(line_end(cs@, j as int) == j as int);
    }
    j
}

/// Parses one quoted-string line with the given prefix.
#[verifier::rlimit(80)]
#[verifier::loop_isolation(false)]
fn e_parse_fline(cs: &Vec<char>, i: usize, pre: &str) -> (r: Option<(String, usize)>)
    requires
        i <= cs@.len(),
    ensures
        r matches Some(p) ==> parse_fline(cs@, i as int, pre@) == Some((p.0@, p.1 as int)) && i
            < p.1 <= cs@.len(),
        r is None ==> parse_fline(cs@, i as int, pre@) is None,
{
    if !e_at(cs, i, pre) {
        return None;
    }
    let m: usize = pre.unicode_len();
    let n: usize = cs.len();
    proof {
        assert(i + pre@.len() <= cs@.len());
    }
    let j0: usize = i + m;
    let nl: usize = e_line_end(cs, j0);
    if nl >= cs.len() {
        return None;
    }
    let ghost content = cs@.subrange(j0 as int, nl as int);
    if nl - j0 < 2 {
        return None;
    }
    if cs[j0] != '"' || cs[nl - 1] != '"' {
        proof {
            assert(content[0] == cs@[j0 as int]);
            assert(content.last() == cs@[nl - 1]);
        }
        return None;
    }
    proof {
        assert(content[0] == cs@[j0 as int]);
        assert(content.last() == cs@[nl - 1]);
    }
    let ghost mid = content.subrange(1, content.len() - 1);
    proof {
        assert(forall|q: int| 0 <= q < mid.len() ==> #[trigger] mid[q] == cs@[j0 + 1 + q]);
    }
    let mut outv: Vec<char> = Vec::new();
    let mut k: usize = j0 + 1;
    let stop: usize = nl - 1;
    proof {
        assert(mid.skip(0) =~= mid);
        if unesc_opt(mid) is Some {
            assert(Seq::<char>::empty() + unesc_opt(mid)->Some_0 =~= unesc_opt(mid)->Some_0);
        }
    }
    while k < stop
        invariant
            j0 + 1 <= k <= stop,
            stop == nl - 1,
            j0 + 2 <= nl <= cs@.len(),
            mid == cs@.subrange(j0 as int, nl as int).subrange(
                1,
                cs@.subrange(j0 as int, nl as int).len() - 1,
            ),
            mid.len() == nl - 1 - (j0 + 1),
            forall|q: int| 0 <= q < mid.len() ==> #[trigger] mid[q] == cs@[j0 + 1 + q],
            unesc_opt(mid) == (match unesc_opt(mid.skip(k - (j0 + 1))) {
                Some(rr) => Some(outv@ + rr),
                None => None,
            }),
        decreases stop - k,
    {
        let ghost off = k - (j0 + 1);
        let c = cs[k];
        proof {
            assert(mid.skip(off)[0] == mid[off]);
            assert(mid[off] == cs@[k as int]);
        }
        if c == '\\' {
            if k + 1 < stop {
                let c2 = cs[k + 1];
                proof {
                    assert(mid.skip(off)[1] == mid[off + 1]);
                    assert(mid[off + 1] == cs@[k + 1]);
                    assert(mid.skip(off).skip(2) =~= mid.skip(off + 2));
                }
                if c2 == 'n' {
                    outv.push('\n');
                } else if c2 == '"' || c2 == '\\' {
                    outv.push(c2);
                } else {
                    proof {
                        assert(unesc_opt(mid.skip(off)) is None);
                        assert(unesc_opt(mid) is None);
                        assert(parse_fline(cs@, i as int, pre@) is None);
                    }
                    return None;
                }
                proof {
                    let decoded = if mid[off + 1] == 'n' {
                        '\n'
                    } else {
                        mid[off + 1]
                    };
                    assert(unesc_opt(mid) == (match unesc_opt(mid.skip(off + 2)) {
                        Some(rr) => Some(outv@ + rr),
                        None => None,
                    })) by {
                        if unesc_opt(mid.skip(off + 2)) is Some {
                            let rr = unesc_opt(mid.skip(off + 2))->Some_0;
                            assert(outv@ + rr =~= outv@.drop_last() + (seq![decoded] + rr));
                        }
                    }
                }
                k = k + 2;
            } else {
                proof {
                    assert(mid.skip(off).len() == 1);
                    assert(unesc_opt(mid.skip(off)) is None);
                    assert(unesc_opt(mid) is None);
                    assert(parse_fline(cs@, i as int, pre@) is None);
                }
                return None;
            }
        } else if c == '"' || c == '\n' {
            proof {
                assert(unesc_opt(mid.skip(off)) is None);
            }
            return None;
        } else {
            outv.push(c);
            proof {
                assert(mid.skip(off).skip(1) =~= mid.skip(off + 1));
                assert(unesc_opt(mid) == (match unesc_opt(mid.skip(off + 1)) {
                    Some(rr) => Some(outv@ + rr),
                    None => None,
                })) by {
                    if unesc_opt(mid.skip(off + 1)) is Some {
                        let rr = unesc_opt(mid.skip(off + 1))->Some_0;
                        assert(outv@ + rr =~= outv@.drop_last() + (seq![mid[off]] + rr));
                    }
                }
            }
            k = k + 1;
        }
    }
    proof {
        assert(mid.skip(mid.len() as int) =~= Seq::<char>::empty());
        assert(unesc_opt(mid) == Some(outv@)) by {
            assert(outv@ + Seq::<char>::empty() =~= outv@);
        }
    }
    let s = string_of_chars(&outv);
    Some((s, nl + 1))
}

/// Parses one signed-decimal line with the given prefix.
fn e_parse_iline(cs: &Vec<char>, i: usize, pre: &str) -> (r: Option<(i64, usize)>)
    requires
        i <= cs@.len(),
    ensures
        r matches Some(p) ==> parse_iline(cs@, i as int, pre@) == Some((p.0 as int, p.1 as int))
            && i < p.1 <= cs@.len(),
        r is None ==> parse_iline(cs@, i as int, pre@) is None,
{
    if !e_at(cs, i, pre) {
        return None;
    }
    let m: usize = pre.unicode_len();
    let n: usize = cs.len();
    proof {
        assert(i + pre@.len() <= cs@.len());
    }
    let j0: usize = i + m;
    let nl: usize = e_line_end(cs, j0);
    if nl >= cs.len() {
        return None;
    }
    let mut body: Vec<char> = Vec::new();
    let mut k: usize = j0;
    while k < nl
        invariant
            j0 <= k <= nl <= cs@.len(),
            body@ == cs@.subrange(j0 as int, k as int),
        decreases nl - k,
    {
        body.push(cs[k]);
        proof {
            assert(body@ =~= cs@.subrange(j0 as int, k as int + 1));
        }
        k = k + 1;
    }
    let s = string_of_chars(&body);
    match parse_i64(s.as_str()) {
        Some(v) => Some((v, nl + 1)),
        None => None,
    }
}

/// Parses one timestamp line with the given prefix.
fn e_parse_tline(cs: &Vec<char>, i: usize, pre: &str) -> (r: Option<(Timestamp, usize)>)
    requires
        i <= cs@.len(),
    ensures
        r matches Some(p) ==> parse_tline(cs@, i as int, pre@) == Some((p.0, p.1 as int)) && i
            < p.1 <= cs@.len(),
        r is None ==> parse_tline(cs@, i as int, pre@) is None,
{
    if !e_at(cs, i, pre) {
        return None;
    }
    let m: usize = pre.unicode_len();
    let n: usize = cs.len();
    proof {
        assert(i + pre@.len() <= cs@.len());
    }
    let j0: usize = i + m;
    let nl: usize = e_line_end(cs, j0);
    if nl >= cs.len() {
        return None;
    }
    let mut body: Vec<char> = Vec::new();
    let mut k: usize = j0;
    while k < nl
        invariant
            j0 <= k <= nl <= cs@.len(),
            body@ == cs@.subrange(j0 as int, k as int),
        decreases nl - k,
    {
        body.push(cs[k]);
        proof {
            assert(body@ =~= cs@.subrange(j0 as int, k as int + 1));
        }
        k = k + 1;
    }
    let s = string_of_chars(&body);
    match parse_ts(s.as_str()) {
        Some(ts) => Some((ts, nl + 1)),
        None => None,
    }
}

// --- elements ---

#[verifier::loop_isolation(false)]
fn e_parse_pubkey(cs: &Vec<char>, i: usize) -> (r: Option<(PublicKey, usize)>)
    requires
        i <= cs@.len(),
    ensures
        r matches Some(p) ==> parse_pubkey(cs@, i as int) == Some((p.0@, p.1 as int)) && i < p.1
            <= cs@.len(),
        r is None ==> parse_pubkey(cs@, i as int) is None,
{
    let (key_id, i1) = match e_parse_fline(cs, i, "    - key_id: ") {
        Some(p) => p,
        None => {
            return None;
        },
    };
    let (algorithm, i2) = match e_parse_fline(cs, i1, "      algorithm: ") {
        Some(p) => p,
        None => {
            return None;
        },
    };
    let (value, i3) = match e_parse_fline(cs, i2, "      value: ") {
        Some(p) => p,
        None => {
            return None;
        },
    };
    let (status, i4) = match e_parse_fline(cs, i3, "      status: ") {
        Some(p) => p,
        None => {
            return None;
        },
    };
    Some((PublicKey { key_id, algorithm, value, status }, i4))
}

#[verifier::loop_isolation(false)]
fn e_parse_pubkeys(cs: &Vec<char>, i: usize) -> (r: Option<(Vec<PublicKey>, usize)>)
    requires
        i <= cs@.len(),
    ensures
        r matches Some(p) ==> parse_pubkeys(cs@, i as int) == Some(
            (p.0@.map_values(|k: PublicKey| k@), p.1 as int),
        ) && i <= p.1 <= cs@.len(),
        r is None ==> parse_pubkeys(cs@, i as int) is None,
{
    let mut acc: Vec<PublicKey> = Vec::new();
    let ghost accv: Seq<crate::model::PublicKeyV> = Seq::empty();
    let mut j: usize = i;
    loop
        invariant
            i <= j <= cs@.len(),
            accv.len() == acc@.len(),
            forall|q: int| 0 <= q < accv.len() ==> accv[q] == #[trigger] acc@[q]@,
            parse_pubkeys(cs@, i as int) == (match parse_pubkeys(cs@, j as int) {
                Some((rr, e)) => Some((accv + rr, e)),
                None => None,
            }),
        decreases cs@.len() - j,
    {
        if !e_at(cs, j, "    - ") {
            break ;
        }
        match e_parse_pubkey(cs, j) {
            None => {
                return None;
            },
            Some((k, j2)) => {
                proof {
                    let kv = k@;
                    if parse_pubkeys(cs@, j2 as int) is Some {
                        let (rr, e) = parse_pubkeys(cs@, j2 as int)->Some_0;
                        assert(accv + (seq![kv] + rr) =~= accv.push(kv) + rr);
                    }
                }
                acc.push(k);
                proof {
                    accv = accv.push(k@);
                }
                j = j2;
            },
        }
    }
    proof {
        assert(accv + Seq::<crate::model::PublicKeyV>::empty() =~= accv);
        assert(acc@.map_values(|k: PublicKey| k@) =~= accv);
    }
    Some((acc, j))
}

#[verifier::loop_isolation(false)]
fn e_parse_cred(cs: &Vec<char>, i: usize) -> (r: Option<(Credential, usize)>)
    requires
        i <= cs@.len(),
    ensures
        r matches Some(p) ==> parse_cred(cs@, i as int) == Some((p.0@, p.1 as int)) && i < p.1
            <= cs@.len(),
        r is None ==> parse_cred(cs@, i as int) is None,
{
    let (claim, i1) = match e_parse_fline(cs, i, "  - claim: ") {
        Some(p) => p,
        None => {
            return None;
        },
    };
    let (issued_by, i2) = match e_parse_fline(cs, i1, "    issued_by: ") {
        Some(p) => p,
        None => {
            return None;
        },
    };
    let (issued_at, i3) = match e_parse_fline(cs, i2, "    issued_at: ") {
        Some(p) => p,
        None => {
            return None;
        },
    };
    if e_at(cs, i3, "    expires_at: ") {
        let (e, i4) = match e_parse_fline(cs, i3, "    expires_at: ") {
            Some(p) => p,
            None => {
                return None;
            },
        };
        let (proof_ref, i5) = match e_parse_fline(cs, i4, "    proof_ref: ") {
            Some(p) => p,
            None => {
                return None;
            },
        };
        Some((Credential { claim, issued_by, issued_at, expires_at: Some(e), proof_ref }, i5))
    } else {
        let (proof_ref, i4) = match e_parse_fline(cs, i3, "    proof_ref: ") {
            Some(p) => p,
            None => {
                return None;
            },
        };
        Some((Credential { claim, issued_by, issued_at, expires_at: None, proof_ref }, i4))
    }
}

#[verifier::loop_isolation(false)]
fn e_parse_creds(cs: &Vec<char>, i: usize) -> (r: Option<(Vec<Credential>, usize)>)
    requires
        i <= cs@.len(),
    ensures
        r matches Some(p) ==> parse_creds(cs@, i as int) == Some(
            (p.0@.map_values(|c: Credential| c@), p.1 as int),
        ) && i <= p.1 <= cs@.len(),
        r is None ==> parse_creds(cs@, i as int) is None,
{
    let mut acc: Vec<Credential> = Vec::new();
    let ghost accv: Seq<crate::model::CredentialV> = Seq::empty();
    let mut j: usize = i;
    loop
        invariant
            i <= j <= cs@.len(),
            accv.len() == acc@.len(),
            forall|q: int| 0 <= q < accv.len() ==> accv[q] == #[trigger] acc@[q]@,
            parse_creds(cs@, i as int) == (match parse_creds(cs@, j as int) {
                Some((rr, e)) => Some((accv + rr, e)),
                None => None,
            }),
        decreases cs@.len() - j,
    {
        if !e_at(cs, j, "  - claim: ") {
            break ;
        }
        match e_parse_cred(cs, j) {
            None => {
                return None;
            },
            Some((c, j2)) => {
                proof {
                    let cv = c@;
                    if parse_creds(cs@, j2 as int) is Some {
                        let (rr, e) = parse_creds(cs@, j2 as int)->Some_0;
                        assert(accv + (seq![cv] + rr) =~= accv.push(cv) + rr);
                    }
                }
                acc.push(c);
                proof {
                    accv = accv.push(c@);
                }
                j = j2;
            },
        }
    }
    proof {
        assert(accv + Seq::<crate::model::CredentialV>::empty() =~= accv);
        assert(acc@.map_values(|c: Credential| c@) =~= accv);
    }
    Some((acc, j))
}

#[verifier::loop_isolation(false)]
fn e_parse_proofent(cs: &Vec<char>, i: usize) -> (r: Option<(Proof, usize)>)
    requires
        i <= cs@.len(),
    ensures
        r matches Some(p) ==> parse_proofent(cs@, i as int) == Some((p.0@, p.1 as int)) && i
            < p.1 <= cs@.len(),
        r is None ==> parse_proofent(cs@, i as int) is None,
{
    let (proof_id, i1) = match e_parse_fline(cs, i, "  - proof_id: ") {
        Some(p) => p,
        None => {
            return None;
        },
    };
    let (proof_type, i2) = match e_parse_fline(cs, i1, "    type: ") {
        Some(p) => p,
        None => {
            return None;
        },
    };
    let (claim_hash, i3) = match e_parse_fline(cs, i2, "    claim_hash: ") {
        Some(p) => p,
        None => {
            return None;
        },
    };
    if !e_at(cs, i3, "    signed_by:\n") {
        return None;
    }
    let h1: usize = ("    signed_by:\n").unicode_len();
    proof {
        assert(i3 + "    signed_by:\n"@.len() <= cs@.len());
        assert(cs@.len() == cs.len());
    }
    let i4: usize = i3 + h1;
    let (idp_id, i5) = match e_parse_fline(cs, i4, "      idp_id: ") {
        Some(p) => p,
        None => {
            return None;
        },
    };
    let (key_id, i6) = match e_parse_fline(cs, i5, "      key_id: ") {
        Some(p) => p,
        None => {
            return None;
        },
    };
    if !e_at(cs, i6, "    signature:\n") {
        return None;
    }
    let h2: usize = ("    signature:\n").unicode_len();
    proof {
        assert(i6 + "    signature:\n"@.len() <= cs@.len());
        assert(cs@.len() == cs.len());
    }
    let i7: usize = i6 + h2;
    // signature entries
    let mut sig: Vec<SignatureComponent> = Vec::new();
    let ghost sigv: Seq<crate::model::SignatureComponentV> = Seq::empty();
    let mut j: usize = i7;
    loop
        invariant
            i7 <= j <= cs@.len(),
            sigv.len() == sig@.len(),
            forall|q: int| 0 <= q < sigv.len() ==> sigv[q] == #[trigger] sig@[q]@,
            parse_sigs(cs@, i7 as int) == (match parse_sigs(cs@, j as int) {
                Some((rr, e)) => Some((sigv + rr, e)),
                None => None,
            }),
        decreases cs@.len() - j,
    {
        if !e_at(cs, j, "      - ") {
            break ;
        }
        let (algorithm, j1) = match e_parse_fline(cs, j, "      - algorithm: ") {
            Some(p) => p,
            None => {
                return None;
            },
        };
        let (value, j2) = match e_parse_fline(cs, j1, "        value: ") {
            Some(p) => p,
            None => {
                return None;
            },
        };
        let c = SignatureComponent { algorithm, value };
        proof {
            let cv = c@;
            assert(parse_sig(cs@, j as int) == Some((cv, j2 as int)));
            if parse_sigs(cs@, j2 as int) is Some {
                let (rr, e) = parse_sigs(cs@, j2 as int)->Some_0;
                assert(sigv + (seq![cv] + rr) =~= sigv.push(cv) + rr);
            }
        }
        sig.push(c);
        proof {
            sigv = sigv.push(c@);
        }
        j = j2;
    }
    proof {
        assert(sigv + Seq::<crate::model::SignatureComponentV>::empty() =~= sigv);
        assert(sig@.map_values(|c: SignatureComponent| c@) =~= sigv);
    }
    let p = Proof {
        proof_id,
        proof_type,
        claim_hash,
        signed_by: Signer { idp_id, key_id },
        signature: sig,
    };
    proof {
        assert(p@.signature =~= sigv);
    }
    Some((p, j))
}

#[verifier::loop_isolation(false)]
fn e_parse_proofs(cs: &Vec<char>, i: usize) -> (r: Option<(Vec<Proof>, usize)>)
    requires
        i <= cs@.len(),
    ensures
        r matches Some(p) ==> parse_proofs(cs@, i as int) == Some(
            (p.0@.map_values(|x: Proof| x@), p.1 as int),
        ) && i <= p.1 <= cs@.len(),
        r is None ==> parse_proofs(cs@, i as int) is None,
{
    let mut acc: Vec<Proof> = Vec::new();
    let ghost accv: Seq<crate::model::ProofV> = Seq::empty();
    let mut j: usize = i;
    loop
        invariant
            i <= j <= cs@.len(),
            accv.len() == acc@.len(),
            forall|q: int| 0 <= q < accv.len() ==> accv[q] == #[trigger] acc@[q]@,
            parse_proofs(cs@, i as int) == (match parse_proofs(cs@, j as int) {
                Some((rr, e)) => Some((accv + rr, e)),
                None => None,
            }),
        decreases cs@.len() - j,
    {
        if !e_at(cs, j, "  - proof_id: ") {
            break ;
        }
        match e_parse_proofent(cs, j) {
            None => {
                return None;
            },
            Some((p, j2)) => {
                proof {
                    let pv = p@;
                    if parse_proofs(cs@, j2 as int) is Some {
                        let (rr, e) = parse_proofs(cs@, j2 as int)->Some_0;
                        assert(accv + (seq![pv] + rr) =~= accv.push(pv) + rr);
                    }
                }
                acc.push(p);
                proof {
                    accv = accv.push(p@);
                }
                j = j2;
            },
        }
    }
    proof {
        assert(accv + Seq::<crate::model::ProofV>::empty() =~= accv);
        assert(acc@.map_values(|x: Proof| x@) =~= accv);
    }
    Some((acc, j))
}

#[verifier::loop_isolation(false)]
fn e_parse_string_items(cs: &Vec<char>, i: usize) -> (r: Option<(Vec<String>, usize)>)
    requires
        i <= cs@.len(),
    ensures
        r matches Some(p) ==> parse_parties(cs@, i as int) == Some(
            (p.0@.map_values(|s: String| s@), p.1 as int),
        ) && i <= p.1 <= cs@.len(),
        r is None ==> parse_parties(cs@, i as int) is None,
{
    let mut acc: Vec<String> = Vec::new();
    let ghost accv: Seq<Seq<char>> = Seq::empty();
    let mut j: usize = i;
    loop
        invariant
            i <= j <= cs@.len(),
            accv.len() == acc@.len(),
            forall|q: int| 0 <= q < accv.len() ==> accv[q] == #[trigger] acc@[q]@,
            parse_parties(cs@, i as int) == (match parse_parties(cs@, j as int) {
                Some((rr, e)) => Some((accv + rr, e)),
                None => None,
            }),
        decreases cs@.len() - j,
    {
        if !e_at(cs, j, "      - ") {
            break ;
        }
        match e_parse_fline(cs, j, "      - ") {
            None => {
                return None;
            },
            Some((s, j2)) => {
                proof {
                    let sv = s@;
                    if parse_parties(cs@, j2 as int) is Some {
                        let (rr, e) = parse_parties(cs@, j2 as int)->Some_0;
                        assert(accv + (seq![sv] + rr) =~= accv.push(sv) + rr);
                    }
                }
                acc.push(s);
                proof {
                    accv = accv.push(s@);
                }
                j = j2;
            },
        }
    }
    proof {
        assert(accv + Seq::<Seq<char>>::empty() =~= accv);
        assert(acc@.map_values(|s: String| s@) =~= accv);
    }
    Some((acc, j))
}

#[verifier::loop_isolation(false)]
fn e_parse_contract(cs: &Vec<char>, i: usize) -> (r: Option<(Contract, usize)>)
    requires
        i <= cs@.len(),
    ensures
        r matches Some(p) ==> parse_contract(cs@, i as int) == Some((p.0@, p.1 as int)) && i
            < p.1 <= cs@.len(),
        r is None ==> parse_contract(cs@, i as int) is None,
{
    let (contract_id, i1) = match e_parse_fline(cs, i, "  - contract_id: ") {
        Some(p) => p,
        None => {
            return None;
        },
    };
    let (status, i2) = match e_parse_fline(cs, i1, "    status: ") {
        Some(p) => p,
        None => {
            return None;
        },
    };
    if !e_at(cs, i2, "    parties:\n") {
        return None;
    }
    let h1: usize = ("    parties:\n").unicode_len();
    proof {
        assert(i2 + "    parties:\n"@.len() <= cs@.len());
        assert(cs@.len() == cs.len());
    }
    let i3: usize = i2 + h1;
    let (parties, i4) = match e_parse_string_items(cs, i3) {
        Some(p) => p,
        None => {
            return None;
        },
    };
    let (terms, i5) = match e_parse_fline(cs, i4, "    terms: ") {
        Some(p) => p,
        None => {
            return None;
        },
    };
    if !e_at(cs, i5, "    consequence:\n") {
        return None;
    }
    let h2: usize = ("    consequence:\n").unicode_len();
    proof {
        assert(i5 + "    consequence:\n"@.len() <= cs@.len());
        assert(cs@.len() == cs.len());
    }
    let i6: usize = i5 + h2;
    let (on_success, i7) = match e_parse_fline(cs, i6, "      on_success: ") {
        Some(p) => p,
        None => {
            return None;
        },
    };
    let (on_failure, i8) = match e_parse_fline(cs, i7, "      on_failure: ") {
        Some(p) => p,
        None => {
            return None;
        },
    };
    let c = Contract {
        contract_id,
        status,
        parties,
        terms,
        consequence: Consequence { on_success, on_failure },
    };
    proof {
        assert(c@.parties =~= parse_contract(cs@, i as int)->Some_0.0.parties);
        assert(c@ =~~= parse_contract(cs@, i as int)->Some_0.0);
    }
    Some((c, i8))
}

#[verifier::loop_isolation(false)]
fn e_parse_contracts(cs: &Vec<char>, i: usize) -> (r: Option<(Vec<Contract>, usize)>)
    requires
        i <= cs@.len(),
    ensures
        r matches Some(p) ==> parse_contracts(cs@, i as int) == Some(
            (p.0@.map_values(|c: Contract| c@), p.1 as int),
        ) && i <= p.1 <= cs@.len(),
        r is None ==> parse_contracts(cs@, i as int) is None,
{
    let mut acc: Vec<Contract> = Vec::new();
    let ghost accv: Seq<crate::model::ContractV> = Seq::empty();
    let mut j: usize = i;
    loop
        invariant
            i <= j <= cs@.len(),
            accv.len() == acc@.len(),
            forall|q: int| 0 <= q < accv.len() ==> accv[q] == #[trigger] acc@[q]@,
            parse_contracts(cs@, i as int) == (match parse_contracts(cs@, j as int) {
                Some((rr, e)) => Some((accv + rr, e)),
                None => None,
            }),
        decreases cs@.len() - j,
    {
        if !e_at(cs, j, "  - contract_id: ") {
            break ;
        }
        match e_parse_contract(cs, j) {
            None => {
                return None;
            },
            Some((c, j2)) => {
                proof {
                    let cv = c@;
                    if parse_contracts(cs@, j2 as int) is Some {
                        let (rr, e) = parse_contracts(cs@, j2 as int)->Some_0;
                        assert(accv + (seq![cv] + rr) =~= accv.push(cv) + rr);
                    }
                }
                acc.push(c);
                proof {
                    accv = accv.push(c@);
                }
                j = j2;
            },
        }
    }
    proof {
        assert(accv + Seq::<crate::model::ContractV>::empty() =~= accv);
        assert(acc@.map_values(|c: Contract| c@) =~= accv);
    }
    Some((acc, j))
}

#[verifier::loop_isolation(false)]
fn e_parse_rep(cs: &Vec<char>, i: usize) -> (r: Option<(Reputation, usize)>)
    requires
        i <= cs@.len(),
    ensures
        r matches Some(p) ==> parse_rep(cs@, i as int) == Some((p.0@, p.1 as int)) && i < p.1
            <= cs@.len(),
        r is None ==> parse_rep(cs@, i as int) is None,
{
    let (score_name, i1) = match e_parse_fline(cs, i, "  - score_name: ") {
        Some(p) => p,
        None => {
            return None;
        },
    };
    let (value, i2) = match e_parse_iline(cs, i1, "    value: ") {
        Some(p) => p,
        None => {
            return None;
        },
    };
    if !e_at(cs, i2, "    history:\n") {
        return None;
    }
    let h1: usize = ("    history:\n").unicode_len();
    proof {
        assert(i2 + "    history:\n"@.len() <= cs@.len());
        assert(cs@.len() == cs.len());
    }
    let i3: usize = i2 + h1;
    let mut history: Vec<ReputationEvent> = Vec::new();
    let ghost histv: Seq<crate::model::ReputationEventV> = Seq::empty();
    let mut j: usize = i3;
    loop
        invariant
            i3 <= j <= cs@.len(),
            histv.len() == history@.len(),
            forall|q: int| 0 <= q < histv.len() ==> histv[q] == #[trigger] history@[q]@,
            parse_repevs(cs@, i3 as int) == (match parse_repevs(cs@, j as int) {
                Some((rr, e)) => Some((histv + rr, e)),
                None => None,
            }),
        decreases cs@.len() - j,
    {
        if !e_at(cs, j, "      - ") {
            break ;
        }
        let (event, j1) = match e_parse_fline(cs, j, "      - event: ") {
            Some(p) => p,
            None => {
                return None;
            },
        };
        let (change, j2) = match e_parse_iline(cs, j1, "        change: ") {
            Some(p) => p,
            None => {
                return None;
            },
        };
        let (timestamp, j3) = match e_parse_fline(cs, j2, "        timestamp: ") {
            Some(p) => p,
            None => {
                return None;
            },
        };
        let ev = ReputationEvent { event, change, timestamp };
        proof {
            let evv = ev@;
            assert(parse_repev(cs@, j as int) == Some((evv, j3 as int)));
            if parse_repevs(cs@, j3 as int) is Some {
                let (rr, e) = parse_repevs(cs@, j3 as int)->Some_0;
                assert(histv + (seq![evv] + rr) =~= histv.push(evv) + rr);
            }
        }
        history.push(ev);
        proof {
            histv = histv.push(ev@);
        }
        j = j3;
    }
    proof {
        assert(histv + Seq::<crate::model::ReputationEventV>::empty() =~= histv);
        assert(history@.map_values(|e: ReputationEvent| e@) =~= histv);
    }
    let rp = Reputation { score_name, value, history };
    proof {
        assert(rp@.history =~= histv);
    }
    Some((rp, j))
}

#[verifier::loop_isolation(false)]
fn e_parse_reps(cs: &Vec<char>, i: usize) -> (r: Option<(Vec<Reputation>, usize)>)
    requires
        i <= cs@.len(),
    ensures
        r matches Some(p) ==> parse_reps(cs@, i as int) == Some(
            (p.0@.map_values(|x: Reputation| x@), p.1 as int),
        ) && i <= p.1 <= cs@.len(),
        r is None ==> parse_reps(cs@, i as int) is None,
{
    let mut acc: Vec<Reputation> = Vec::new();
    let ghost accv: Seq<crate::model::ReputationV> = Seq::empty();
    let mut j: usize = i;
    loop
        invariant
            i <= j <= cs@.len(),
            accv.len() == acc@.len(),
            forall|q: int| 0 <= q < accv.len() ==> accv[q] == #[trigger] acc@[q]@,
            parse_reps(cs@, i as int) == (match parse_reps(cs@, j as int) {
                Some((rr, e)) => Some((accv + rr, e)),
                None => None,
            }),
        decreases cs@.len() - j,
    {
        if !e_at(cs, j, "  - score_name: ") {
            break ;
        }
        match e_parse_rep(cs, j) {
            None => {
                return None;
            },
            Some((x, j2)) => {
                proof {
                    let xv = x@;
                    if parse_reps(cs@, j2 as int) is Some {
                        let (rr, e) = parse_reps(cs@, j2 as int)->Some_0;
                        assert(accv + (seq![xv] + rr) =~= accv.push(xv) + rr);
                    }
                }
                acc.push(x);
                proof {
                    accv = accv.push(x@);
                }
                j = j2;
            },
        }
    }
    proof {
        assert(accv + Seq::<crate::model::ReputationV>::empty() =~= accv);
        assert(acc@.map_values(|x: Reputation| x@) =~= accv);
    }
    Some((acc, j))
}

#[verifier::loop_isolation(false)]
fn e_parse_consent(cs: &Vec<char>, i: usize) -> (r: Option<(Consent, usize)>)
    requires
        i <= cs@.len(),
    ensures
        r matches Some(p) ==> parse_consent1(cs@, i as int) == Some((p.0@, p.1 as int)) && i
            < p.1 <= cs@.len(),
        r is None ==> parse_consent1(cs@, i as int) is None,
{
    let (granted_to, i1) = match e_parse_fline(cs, i, "  - granted_to: ") {
        Some(p) => p,
        None => {
            return None;
        },
    };
    if !e_at(cs, i1, "    fields:\n") {
        return None;
    }
    let h1: usize = ("    fields:\n").unicode_len();
    proof {
        assert(i1 + "    fields:\n"@.len() <= cs@.len());
        assert(cs@.len() == cs.len());
    }
    let i2: usize = i1 + h1;
    let (fields, i3) = match e_parse_string_items(cs, i2) {
        Some(p) => p,
        None => {
            return None;
        },
    };
    let (expires_at, i4) = match e_parse_fline(cs, i3, "    expires_at: ") {
        Some(p) => p,
        None => {
            return None;
        },
    };
    let (purpose, i5) = match e_parse_fline(cs, i4, "    purpose: ") {
        Some(p) => p,
        None => {
            return None;
        },
    };
    let c = Consent { granted_to, fields, expires_at, purpose };
    proof {
        assert(c@.fields =~= parse_consent1(cs@, i as int)->Some_0.0.fields);
        assert(c@ =~~= parse_consent1(cs@, i as int)->Some_0.0);
    }
    Some((c, i5))
}

#[verifier::loop_isolation(false)]
fn e_parse_consents(cs: &Vec<char>, i: usize) -> (r: Option<(Vec<Consent>, usize)>)
    requires
        i <= cs@.len(),
    ensures
        r matches Some(p) ==> parse_consents(cs@, i as int) == Some(
            (p.0@.map_values(|c: Consent| c@), p.1 as int),
        ) && i <= p.1 <= cs@.len(),
        r is None ==> parse_consents(cs@, i as int) is None,
{
    let mut acc: Vec<Consent> = Vec::new();
    let ghost accv: Seq<crate::model::ConsentV> = Seq::empty();
    let mut j: usize = i;
    loop
        invariant
            i <= j <= cs@.len(),
            accv.len() == acc@.len(),
            forall|q: int| 0 <= q < accv.len() ==> accv[q] == #[trigger] acc@[q]@,
            parse_consents(cs@, i as int) == (match parse_consents(cs@, j as int) {
                Some((rr, e)) => Some((accv + rr, e)),
                None => None,
            }),
        decreases cs@.len() - j,
    {
        if !e_at(cs, j, "  - granted_to: ") {
            break ;
        }
        match e_parse_consent(cs, j) {
            None => {
                return None;
            },
            Some((c, j2)) => {
                proof {
                    let cv = c@;
                    if parse_consents(cs@, j2 as int) is Some {
                        let (rr, e) = parse_consents(cs@, j2 as int)->Some_0;
                        assert(accv + (seq![cv] + rr) =~= accv.push(cv) + rr);
                    }
                }
                acc.push(c);
                proof {
                    accv = accv.push(c@);
                }
                j = j2;
            },
        }
    }
    proof {
        assert(accv + Seq::<crate::model::ConsentV>::empty() =~= accv);
        assert(acc@.map_values(|c: Consent| c@) =~= accv);
    }
    Some((acc, j))
}

impl Identity {
    /// Strictly parses a canonical document text; `MalformedDocument` on
    /// anything else.
    #[verifier::rlimit(100)]
    #[verifier::loop_isolation(false)]
    pub fn deserialize(text: &str) -> (r: Result<Identity, IdpError>)
        ensures
            r matches Ok(d) ==> parse_doc(text@) == Some(d@),
            r matches Err(e) ==> parse_doc(text@) is None && e == IdpError::MalformedDocument,
    {
        let cs = chars_vec(text);
        let n: usize = cs.len();
        if !e_at(&cs, 0, "identity:\n") {
            return Err(IdpError::MalformedDocument);
        }
        let i1: usize = ("identity:\n").unicode_len();
        let (id, i2) = match e_parse_fline(&cs, i1, "  id: ") {
            Some(p) => p,
            None => {
                return Err(IdpError::MalformedDocument);
            },
        };
        let (version, i3) = match e_parse_fline(&cs, i2, "  version: ") {
            Some(p) => p,
            None => {
                return Err(IdpError::MalformedDocument);
            },
        };
        let (schema_url, i4) = match e_parse_fline(&cs, i3, "  schema_url: ") {
            Some(p) => p,
            None => {
                return Err(IdpError::MalformedDocument);
            },
        };
        let (created_at, i5) = match e_parse_tline(&cs, i4, "  created_at: ") {
            Some(p) => p,
            None => {
                return Err(IdpError::MalformedDocument);
            },
        };
        let (updated_at, i6) = match e_parse_tline(&cs, i5, "  updated_at: ") {
            Some(p) => p,
            None => {
                return Err(IdpError::MalformedDocument);
            },
        };
        if !e_at(&cs, i6, "system:\n") {
            return Err(IdpError::MalformedDocument);
        }
        proof {
            assert(i6 + "system:\n"@.len() <= cs@.len());
            assert(cs@.len() == cs.len());
        }
        let i7: usize = i6 + ("system:\n").unicode_len();
        if !e_at(&cs, i7, "  public_keys:\n") {
            return Err(IdpError::MalformedDocument);
        }
        proof {
            assert(i7 + "  public_keys:\n"@.len() <= cs@.len());
            assert(cs@.len() == cs.len());
        }
        let i8: usize = i7 + ("  public_keys:\n").unicode_len();
        let (public_keys, i9) = match e_parse_pubkeys(&cs, i8) {
            Some(p) => p,
            None => {
                return Err(IdpError::MalformedDocument);
            },
        };
        if !e_at(&cs, i9, "core:\n") {
            return Err(IdpError::MalformedDocument);
        }
        proof {
            assert(i9 + "core:\n"@.len() <= cs@.len());
            assert(cs@.len() == cs.len());
        }
        let i10: usize = i9 + ("core:\n").unicode_len();
        let (name, i11) = match e_parse_fline(&cs, i10, "  name: ") {
            Some(p) => p,
            None => {
                return Err(IdpError::MalformedDocument);
            },
        };
        let (bio, i12) = match e_parse_fline(&cs, i11, "  bio: ") {
            Some(p) => p,
            None => {
                return Err(IdpError::MalformedDocument);
            },
        };

        // credentials section
        let (credentials, j1): (Vec<Credential>, usize) = if e_at(&cs, i12, "credentials:\n") {
            proof {
                assert(i12 + "credentials:\n"@.len() <= cs@.len());
                assert(cs@.len() == cs.len());
            }
            let start: usize = i12 + ("credentials:\n").unicode_len();
            match e_parse_creds(&cs, start) {
                Some(p) => {
                    if p.0.len() == 0 {
                        return Err(IdpError::MalformedDocument);
                    }
                    p
                },
                None => {
                    return Err(IdpError::MalformedDocument);
                },
            }
        } else {
            (Vec::new(), i12)
        };
        proof {
            assert(parse_sec_creds(cs@, i12 as int) == Some(
                (credentials@.map_values(|c: Credential| c@), j1 as int),
            )) by {
                if !at(cs@, i12 as int, "credentials:\n"@) {
                    assert(credentials@.map_values(|c: Credential| c@) =~= Seq::<
                        crate::model::CredentialV,
                    >::empty());
                }
            }
        }

        // proofs section
        let (proofs, j2): (Vec<Proof>, usize) = if e_at(&cs, j1, "proofs:\n") {
            proof {
                assert(j1 + "proofs:\n"@.len() <= cs@.len());
                assert(cs@.len() == cs.len());
            }
            let start: usize = j1 + ("proofs:\n").unicode_len();
            match e_parse_proofs(&cs, start) {
                Some(p) => {
                    if p.0.len() == 0 {
                        return Err(IdpError::MalformedDocument);
                    }
                    p
                },
                None => {
                    return Err(IdpError::MalformedDocument);
                },
            }
        } else {
            (Vec::new(), j1)
        };
        proof {
            assert(parse_sec_proofs(cs@, j1 as int) == Some(
                (proofs@.map_values(|p: Proof| p@), j2 as int),
            )) by {
                if !at(cs@, j1 as int, "proofs:\n"@) {
                    assert(proofs@.map_values(|p: Proof| p@) =~= Seq::<
                        crate::model::ProofV,
                    >::empty());
                }
            }
        }

        // contracts section
        let (contracts, j3): (Vec<Contract>, usize) = if e_at(&cs, j2, "contracts:\n") {
            proof {
                assert(j2 + "contracts:\n"@.len() <= cs@.len());
                assert(cs@.len() == cs.len());
            }
            let start: usize = j2 + ("contracts:\n").unicode_len();
            match e_parse_contracts(&cs, start) {
                Some(p) => {
                    if p.0.len() == 0 {
                        return Err(IdpError::MalformedDocument);
                    }
                    p
                },
                None => {
                    return Err(IdpError::MalformedDocument);
                },
            }
        } else {
            (Vec::new(), j2)
        };
        proof {
            assert(parse_sec_contracts(cs@, j2 as int) == Some(
                (contracts@.map_values(|c: Contract| c@), j3 as int),
            )) by {
                if !at(cs@, j2 as int, "contracts:\n"@) {
                    assert(contracts@.map_values(|c: Contract| c@) =~= Seq::<
                        crate::model::ContractV,
                    >::empty());
                }
            }
        }

        // reputation section
        let (reputation, j4): (Vec<Reputation>, usize) = if e_at(&cs, j3, "reputation:\n") {
            proof {
                assert(j3 + "reputation:\n"@.len() <= cs@.len());
                assert(cs@.len() == cs.len());
            }
            let start: usize = j3 + ("reputation:\n").unicode_len();
            match e_parse_reps(&cs, start) {
                Some(p) => {
                    if p.0.len() == 0 {
                        return Err(IdpError::MalformedDocument);
                    }
                    p
                },
                None => {
                    return Err(IdpError::MalformedDocument);
                },
            }
        } else {
            (Vec::new(), j3)
        };
        proof {
            assert(parse_sec_reps(cs@, j3 as int) == Some(
                (reputation@.map_values(|x: Reputation| x@), j4 as int),
            )) by {
                if !at(cs@, j3 as int, "reputation:\n"@) {
                    assert(reputation@.map_values(|x: Reputation| x@) =~= Seq::<
                        crate::model::ReputationV,
                    >::empty());
                }
            }
        }

        // consent section
        let (consent, j5): (Vec<Consent>, usize) = if e_at(&cs, j4, "consent:\n") {
            proof {
                assert(j4 + "consent:\n"@.len() <= cs@.len());
                assert(cs@.len() == cs.len());
            }
            let start: usize = j4 + ("consent:\n").unicode_len();
            match e_parse_consents(&cs, start) {
                Some(p) => {
                    if p.0.len() == 0 {
                        return Err(IdpError::MalformedDocument);
                    }
                    p
                },
                None => {
                    return Err(IdpError::MalformedDocument);
                },
            }
        } else {
            (Vec::new(), j4)
        };
        proof {
            assert(parse_sec_consents(cs@, j4 as int) == Some(
                (consent@.map_values(|c: Consent| c@), j5 as int),
            )) by {
                if !at(cs@, j4 as int, "consent:\n"@) {
                    assert(consent@.map_values(|c: Consent| c@) =~= Seq::<
                        crate::model::ConsentV,
                    >::empty());
                }
            }
        }

        if j5 != n {
            return Err(IdpError::MalformedDocument);
        }
        let d = Identity {
            identity: IdentityBlock { id, version, schema_url, created_at, updated_at },
            system: SystemBlock { public_keys },
            core: CoreBlock { name, bio },
            credentials,
            proofs,
            contracts,
            reputation,
            consent,
        };
        proof {
            assert(parse_doc(text@) == Some(d@)) by {
                assert(d@ =~~= parse_doc(text@)->Some_0);
            }
        }
        Ok(d)
    }
}

} // verus!
