//! The typed path mutator: dotted-path addressing into the document tree
//! (`core.bio`, `system.public_keys[0].status`), with exact failure modes,
//! immutability of protected fields, and roll-back on any post-mutation
//! validation failure.

use vstd::prelude::*;

use crate::errors::IdpError;
use crate::model::{
    ConsentV, ContractV, CredentialV, Identity, IdentityV, ReputationEventV, ReputationV,
    Timestamp, ts_later,
};
use crate::text::{
    all_digits, dec_val, is_digit, is_digit_exec, parse_digits_u64, spec_parse_i64,
    spec_parse_ts, parse_i64, parse_ts,
};
use crate::validate::{doc_ok, spec_violations, validate, Violation};
use crate::crypto::str_eq;

verus! {

/// One path segment: an identifier with an optional sequence index.
pub struct Seg {
    pub name: String,
    pub index: Option<usize>,
}

#[verifier::ext_equal]
pub ghost struct SegV {
    pub name: Seq<char>,
    pub index: Option<int>,
}

impl View for Seg {
    type V = SegV;

    open spec fn view(&self) -> SegV {
        SegV {
            name: self.name@,
            index: match self.index {
                Some(i) => Some(i as int),
                None => None,
            },
        }
    }
}

/// The views of a parsed segment list.
pub open spec fn segs_view(v: Seq<Seg>) -> Seq<SegV> {
    v.map_values(|g: Seg| g@)
}

pub open spec fn is_ident_start(c: char) -> bool {
    (('a' as u32) <= (c as u32) && (c as u32) <= ('z' as u32)) || (('A' as u32) <= (c as u32)
        && (c as u32) <= ('Z' as u32)) || c == '_'
}

pub open spec fn is_ident_char(c: char) -> bool {
    is_ident_start(c) || is_digit(c)
}

fn is_ident_start_exec(c: char) -> (r: bool)
    ensures
        r == is_ident_start(c),
{
    (('a' as u32) <= (c as u32) && (c as u32) <= ('z' as u32)) || (('A' as u32) <= (c as u32)
        && (c as u32) <= ('Z' as u32)) || c == '_'
}

fn is_ident_char_exec(c: char) -> (r: bool)
    ensures
        r == is_ident_char(c),
{
    is_ident_start_exec(c) || is_digit_exec(c)
}

/// The end of the identifier-character run starting at `i`.
pub open spec fn ident_end(s: Seq<char>, i: int) -> int
    decreases s.len() - i,
    when 0 <= i <= s.len()
{
    if i < s.len() && is_ident_char(s[i]) {
        ident_end(s, i + 1)
    } else {
        i
    }
}

/// The end of the digit run starting at `i`.
pub open spec fn digits_end(s: Seq<char>, i: int) -> int
    decreases s.len() - i,
    when 0 <= i <= s.len()
{
    if i < s.len() && is_digit(s[i]) {
        digits_end(s, i + 1)
    } else {
        i
    }
}

pub proof fn lemma_ident_end(s: Seq<char>, i: int)
    requires
        0 <= i <= s.len(),
    ensures
        i <= ident_end(s, i) <= s.len(),
    decreases s.len() - i,
{
    if i < s.len() && is_ident_char(s[i]) {
        lemma_ident_end(s, i + 1);
    }
}

pub proof fn lemma_digits_end(s: Seq<char>, i: int)
    requires
        0 <= i <= s.len(),
    ensures
        i <= digits_end(s, i) <= s.len(),
        forall|k: int| i <= k < digits_end(s, i) ==> is_digit(#[trigger] s[k]),
    decreases s.len() - i,
{
    if i < s.len() && is_digit(s[i]) {
        lemma_digits_end(s, i + 1);
    }
}

/// Parses the segment list starting at `i`: identifier, optional
/// bracketed index (canonical decimal, within the signed 64-bit range),
/// further segments after each dot. `None` on any malformed shape.
pub open spec fn spec_parse_segs(s: Seq<char>, i: int) -> Option<Seq<SegV>>
    decreases s.len() - i,
    when 0 <= i <= s.len()
    via spec_parse_segs_dec
{
    if i >= s.len() {
        None
    } else if !is_ident_start(s[i]) {
        None
    } else {
        let e = ident_end(s, i);
        let name = s.subrange(i, e);
        if e >= s.len() {
            Some(seq![SegV { name, index: None }])
        } else if s[e] == '[' {
            let de = digits_end(s, e + 1);
            let digits = s.subrange(e + 1, de);
            if de == e + 1 {
                None
            } else if s[e + 1] == '0' && de > e + 2 {
                None
            } else if dec_val(digits) > 0x7fff_ffff_ffff_ffff || dec_val(digits) > usize::MAX
                as int {
                None
            } else if de >= s.len() || s[de] != ']' {
                None
            } else {
                let seg = SegV { name, index: Some(dec_val(digits)) };
                if de + 1 >= s.len() {
                    Some(seq![seg])
                } else if s[de + 1] == '.' {
                    match spec_parse_segs(s, de + 2) {
                        Some(r) => Some(seq![seg] + r),
                        None => None,
                    }
                } else {
                    None
                }
            }
        } else if s[e] == '.' {
            match spec_parse_segs(s, e + 1) {
                Some(r) => Some(seq![SegV { name, index: None }] + r),
                None => None,
            }
        } else {
            None
        }
    }
}

#[via_fn]
proof fn spec_parse_segs_dec(s: Seq<char>, i: int) {
    if 0 <= i && i < s.len() && is_ident_start(s[i]) {
        lemma_ident_end(s, i);
        let e = ident_end(s, i);
        assert(e >= i + 1) by {
            assert(is_ident_char(s[i]));
            assert(ident_end(s, i) == ident_end(s, i + 1));
            lemma_ident_end(s, i + 1);
        }
        if e < s.len() && s[e] == '[' {
            lemma_digits_end(s, e + 1);
        }
    }
}

/// The parse of a whole dotted path.
pub open spec fn spec_parse_path(s: Seq<char>) -> Option<Seq<SegV>> {
    spec_parse_segs(s, 0)
}

/// Parses a dotted path into its segments, mirroring `spec_parse_path`.
pub fn parse_path(s: &str) -> (r: Option<Vec<Seg>>)
    ensures
        r matches Some(v) ==> spec_parse_path(s@) matches Some(sv) && segs_view(v@) == sv,
        r is None ==> spec_parse_path(s@) is None,
{
    let cs = crate::text::chars_vec(s);
    let n: usize = cs.len();
    let mut segs: Vec<Seg> = Vec::new();
    let mut i: usize = 0;
    loop
        invariant
            0 <= i <= n,
            n == s@.len(),
            cs@ == s@,
            match spec_parse_segs(s@, i as int) {
                Some(rest) => spec_parse_path(s@) matches Some(whole) && whole == segs_view(
                    segs@,
                ) + rest,
                None => spec_parse_path(s@) is None,
            },
        decreases n - i,
    {
        if i >= n {
            return None;
        }
        if !is_ident_start_exec(cs[i]) {
            return None;
        }
        proof {
            lemma_ident_end(s@, i as int);
        }
        // Scan the identifier run.
        let mut e: usize = i;
        while e < n && is_ident_char_exec(cs[e])
            invariant
                i <= e <= n,
                n == s@.len(),
                cs@ == s@,
                ident_end(s@, i as int) == ident_end(s@, e as int),
            decreases n - e,
        {
            proof {
                assert(ident_end(s@, e as int) == ident_end(s@, e as int + 1));
            }
            e = e + 1;
        }
        proof {
            assert(ident_end(s@, e as int) == e as int);
            assert(ident_end(s@, i as int) == e as int);
            assert(e > i) by {
                assert(is_ident_char(s@[i as int]));
            }
        }
        let name: String = s.substring_char(i, e).to_owned();
        let ghost namev = s@.subrange(i as int, e as int);

        let seg: Seg;
        let after: usize;
        if e < n && cs[e] == '[' {
            proof {
                lemma_digits_end(s@, e as int + 1);
            }
            let ds: usize = e + 1;
            let mut de: usize = ds;
            while de < n && is_digit_exec(cs[de])
                invariant
                    ds <= de <= n,
                    n == s@.len(),
                    cs@ == s@,
                    digits_end(s@, ds as int) == digits_end(s@, de as int),
                decreases n - de,
            {
                proof {
                    assert(digits_end(s@, de as int) == digits_end(s@, de as int + 1));
                }
                de = de + 1;
            }
            proof {
                assert(digits_end(s@, de as int) == de as int);
                assert(digits_end(s@, ds as int) == de as int);
                lemma_digits_end(s@, ds as int);
            }
            if de == ds {
                return None;
            }
            if cs[ds] == '0' && de > ds + 1 {
                return None;
            }
            let mut run: Vec<char> = Vec::new();
            let mut k: usize = ds;
            while k < de
                invariant
                    ds <= k <= de <= n,
                    n == s@.len(),
                    cs@ == s@,
                    run@ == s@.subrange(ds as int, k as int),
                decreases de - k,
            {
                run.push(cs[k]);
                proof {
                    assert(run@ =~= s@.subrange(ds as int, k as int + 1));
                }
                k = k + 1;
            }
            let ghost digitsv = s@.subrange(ds as int, de as int);
            proof {
                assert(run@ =~= digitsv);
                assert(all_digits(digitsv)) by {
                    assert(forall|m: int|
                        0 <= m < digitsv.len() ==> digitsv[m] == s@[m + ds]);
                }
                assert(digitsv[0] == s@[ds as int]);
            }
            let idx: usize = match parse_digits_u64(&run) {
                Some(v) => {
                    if v > 0x7fff_ffff_ffff_ffffu64 {
                        return None;
                    }
                    if v > usize::MAX as u64 {
                        return None;
                    }
                    v as usize
                },
                None => {
                    return None;
                },
            };
            if de >= n {
                return None;
            }
            if cs[de] != ']' {
                return None;
            }
            seg = Seg { name, index: Some(idx) };
            after = de + 1;
            proof {
                assert(seg@ == SegV { name: namev, index: Some(dec_val(digitsv)) });
            }
        } else {
            seg = Seg { name, index: None };
            after = e;
            proof {
                assert(seg@ == SegV { name: namev, index: None });
            }
        }
        let ghost segv = seg@;
        if after >= n {
            segs.push(seg);
            proof {
                assert(spec_parse_segs(s@, i as int) == Some(seq![segv]));
                assert(segs_view(segs@) =~= segs_view(segs@.drop_last()) + seq![segv]) by {
                    assert(segs@.drop_last() =~= segs@.take(segs@.len() - 1));
                }
            }
            return Some(segs);
        }
        if cs[after] == '.' {
            segs.push(seg);
            proof {
                assert(segs_view(segs@) =~= segs_view(segs@.drop_last()) + seq![segv]) by {
                    assert(segs@.drop_last() =~= segs@.take(segs@.len() - 1));
                }
                if spec_parse_segs(s@, after as int + 1) is Some {
                    let r2 = spec_parse_segs(s@, after as int + 1)->Some_0;
                    assert(spec_parse_segs(s@, i as int) == Some(seq![segv] + r2));
                    assert(segs_view(segs@.drop_last()) + (seq![segv] + r2) =~= segs_view(segs@)
                        + r2);
                } else {
                    assert(spec_parse_segs(s@, i as int) is None);
                }
            }
            i = after + 1;
        } else {
            return None;
        }
    }
}

// ------------------------------------------------------------------
// The typed walk: what a segment list addresses in the tree, and the
// document after writing a value there.
// ------------------------------------------------------------------

/// The outcome of resolving a path and coercing a value.
pub ghost enum SpecSetOutcome {
    /// A segment does not address anything.
    NotFound,
    /// The value cannot be coerced to the addressed field's type.
    Mismatch,
    /// The addressed location is protected.
    Immutable,
    /// The document after the write.
    Applied(IdentityV),
}

/// Whether a parsed path addresses a protected location: `identity.id`,
/// `identity.created_at`, or anything under `system.public_keys`.
pub open spec fn is_protected(segs: Seq<SegV>) -> bool {
    ||| (segs.len() == 2 && segs[0] == (SegV { name: "identity"@, index: None }) && segs[1].index
        is None && (segs[1].name == "id"@ || segs[1].name == "created_at"@))
    ||| (segs.len() >= 2 && segs[0] == (SegV { name: "system"@, index: None }) && segs[1].name
        == "public_keys"@)
}

/// Resolves a segment list against the document and applies the value:
/// the exact, total description of the path mutator's walk.
pub open spec fn spec_set_segs(d: IdentityV, segs: Seq<SegV>, value: Seq<char>) -> SpecSetOutcome {
    if segs.len() == 0 {
        SpecSetOutcome::NotFound
    } else {
        let s0 = segs[0];
        if s0.name == "identity"@ {
            if s0.index is Some || segs.len() != 2 {
                SpecSetOutcome::NotFound
            } else {
                let s1 = segs[1];
                if s1.index is Some {
                    SpecSetOutcome::NotFound
                } else if s1.name == "id"@ || s1.name == "created_at"@ {
                    SpecSetOutcome::Immutable
                } else if s1.name == "version"@ {
                    SpecSetOutcome::Applied(
                        IdentityV {
                            identity: crate::model::IdentityBlockV { version: value, ..d.identity },
                            ..d
                        },
                    )
                } else if s1.name == "schema_url"@ {
                    SpecSetOutcome::Applied(
                        IdentityV {
                            identity: crate::model::IdentityBlockV {
                                schema_url: value,
                                ..d.identity
                            },
                            ..d
                        },
                    )
                } else if s1.name == "updated_at"@ {
                    match spec_parse_ts(value) {
                        Some(t) => SpecSetOutcome::Applied(
                            IdentityV {
                                identity: crate::model::IdentityBlockV {
                                    updated_at: t,
                                    ..d.identity
                                },
                                ..d
                            },
                        ),
                        None => SpecSetOutcome::Mismatch,
                    }
                } else {
                    SpecSetOutcome::NotFound
                }
            }
        } else if s0.name == "system"@ {
            if s0.index is Some {
                SpecSetOutcome::NotFound
            } else if segs.len() >= 2 && segs[1].name == "public_keys"@ {
                SpecSetOutcome::Immutable
            } else {
                SpecSetOutcome::NotFound
            }
        } else if s0.name == "core"@ {
            if s0.index is Some || segs.len() != 2 || segs[1].index is Some {
                SpecSetOutcome::NotFound
            } else if segs[1].name == "name"@ {
                SpecSetOutcome::Applied(
                    IdentityV { core: crate::model::CoreBlockV { name: value, ..d.core }, ..d },
                )
            } else if segs[1].name == "bio"@ {
                SpecSetOutcome::Applied(
                    IdentityV { core: crate::model::CoreBlockV { bio: value, ..d.core }, ..d },
                )
            } else {
                SpecSetOutcome::NotFound
            }
        } else if s0.name == "credentials"@ {
            match s0.index {
                None => SpecSetOutcome::NotFound,
                Some(i) => {
                    if !(0 <= i < d.credentials.len()) || segs.len() != 2 || segs[1].index
                        is Some {
                        SpecSetOutcome::NotFound
                    } else {
                        let c = d.credentials[i];
                        let s1 = segs[1];
                        if s1.name == "claim"@ {
                            SpecSetOutcome::Applied(
                                IdentityV {
                                    credentials: d.credentials.update(
                                        i,
                                        CredentialV { claim: value, ..c },
                                    ),
                                    ..d
                                },
                            )
                        } else if s1.name == "issued_by"@ {
                            SpecSetOutcome::Applied(
                                IdentityV {
                                    credentials: d.credentials.update(
                                        i,
                                        CredentialV { issued_by: value, ..c },
                                    ),
                                    ..d
                                },
                            )
                        } else if s1.name == "issued_at"@ {
                            SpecSetOutcome::Applied(
                                IdentityV {
                                    credentials: d.credentials.update(
                                        i,
                                        CredentialV { issued_at: value, ..c },
                                    ),
                                    ..d
                                },
                            )
                        } else if s1.name == "expires_at"@ {
                            SpecSetOutcome::Applied(
                                IdentityV {
                                    credentials: d.credentials.update(
                                        i,
                                        CredentialV { expires_at: Some(value), ..c },
                                    ),
                                    ..d
                                },
                            )
                        } else if s1.name == "proof_ref"@ {
                            SpecSetOutcome::Applied(
                                IdentityV {
                                    credentials: d.credentials.update(
                                        i,
                                        CredentialV { proof_ref: value, ..c },
                                    ),
                                    ..d
                                },
                            )
                        } else {
                            SpecSetOutcome::NotFound
                        }
                    }
                },
            }
        } else if s0.name == "contracts"@ {
            match s0.index {
                None => SpecSetOutcome::NotFound,
                Some(i) => {
                    if !(0 <= i < d.contracts.len()) {
                        SpecSetOutcome::NotFound
                    } else {
                        let c = d.contracts[i];
                        if segs.len() == 2 {
                            let s1 = segs[1];
                            if s1.name == "parties"@ {
                                match s1.index {
                                    Some(j) => {
                                        if 0 <= j < c.parties.len() {
                                            SpecSetOutcome::Applied(
                                                IdentityV {
                                                    contracts: d.contracts.update(
                                                        i,
                                                        ContractV {
                                                            parties: c.parties.update(j, value),
                                                            ..c
                                                        },
                                                    ),
                                                    ..d
                                                },
                                            )
                                        } else {
                                            SpecSetOutcome::NotFound
                                        }
                                    },
                                    None => SpecSetOutcome::NotFound,
                                }
                            } else if s1.index is Some {
                                SpecSetOutcome::NotFound
                            } else if s1.name == "contract_id"@ {
                                SpecSetOutcome::Applied(
                                    IdentityV {
                                        contracts: d.contracts.update(
                                            i,
                                            ContractV { contract_id: value, ..c },
                                        ),
                                        ..d
                                    },
                                )
                            } else if s1.name == "status"@ {
                                SpecSetOutcome::Applied(
                                    IdentityV {
                                        contracts: d.contracts.update(
                                            i,
                                            ContractV { status: value, ..c },
                                        ),
                                        ..d
                                    },
                                )
                            } else if s1.name == "terms"@ {
                                SpecSetOutcome::Applied(
                                    IdentityV {
                                        contracts: d.contracts.update(
                                            i,
                                            ContractV { terms: value, ..c },
                                        ),
                                        ..d
                                    },
                                )
                            } else {
                                SpecSetOutcome::NotFound
                            }
                        } else if segs.len() == 3 {
                            let s1 = segs[1];
                            let s2 = segs[2];
                            if s1.name == "consequence"@ && s1.index is None && s2.index
                                is None {
                                if s2.name == "on_success"@ {
                                    SpecSetOutcome::Applied(
                                        IdentityV {
                                            contracts: d.contracts.update(
                                                i,
                                                ContractV {
                                                    consequence: crate::model::ConsequenceV {
                                                        on_success: value,
                                                        ..c.consequence
                                                    },
                                                    ..c
                                                },
                                            ),
                                            ..d
                                        },
                                    )
                                } else if s2.name == "on_failure"@ {
                                    SpecSetOutcome::Applied(
                                        IdentityV {
                                            contracts: d.contracts.update(
                                                i,
                                                ContractV {
                                                    consequence: crate::model::ConsequenceV {
                                                        on_failure: value,
                                                        ..c.consequence
                                                    },
                                                    ..c
                                                },
                                            ),
                                            ..d
                                        },
                                    )
                                } else {
                                    SpecSetOutcome::NotFound
                                }
                            } else {
                                SpecSetOutcome::NotFound
                            }
                        } else {
                            SpecSetOutcome::NotFound
                        }
                    }
                },
            }
        } else if s0.name == "reputation"@ {
            match s0.index {
                None => SpecSetOutcome::NotFound,
                Some(i) => {
                    if !(0 <= i < d.reputation.len()) {
                        SpecSetOutcome::NotFound
                    } else {
                        let rp = d.reputation[i];
                        if segs.len() == 2 {
                            let s1 = segs[1];
                            if s1.index is Some {
                                SpecSetOutcome::NotFound
                            } else if s1.name == "score_name"@ {
                                SpecSetOutcome::Applied(
                                    IdentityV {
                                        reputation: d.reputation.update(
                                            i,
                                            ReputationV { score_name: value, ..rp },
                                        ),
                                        ..d
                                    },
                                )
                            } else if s1.name == "value"@ {
                                match spec_parse_i64(value) {
                                    Some(v) => SpecSetOutcome::Applied(
                                        IdentityV {
                                            reputation: d.reputation.update(
                                                i,
                                                ReputationV { value: v, ..rp },
                                            ),
                                            ..d
                                        },
                                    ),
                                    None => SpecSetOutcome::Mismatch,
                                }
                            } else {
                                SpecSetOutcome::NotFound
                            }
                        } else if segs.len() == 3 {
                            let s1 = segs[1];
                            let s2 = segs[2];
                            if s1.name == "history"@ && s1.index is Some && s2.index is None {
                                let j = s1.index->0;
                                if 0 <= j < rp.history.len() {
                                    let ev = rp.history[j];
                                    if s2.name == "event"@ {
                                        SpecSetOutcome::Applied(
                                            IdentityV {
                                                reputation: d.reputation.update(
                                                    i,
                                                    ReputationV {
                                                        history: rp.history.update(
                                                            j,
                                                            ReputationEventV { event: value, ..ev },
                                                        ),
                                                        ..rp
                                                    },
                                                ),
                                                ..d
                                            },
                                        )
                                    } else if s2.name == "change"@ {
                                        match spec_parse_i64(value) {
                                            Some(v) => SpecSetOutcome::Applied(
                                                IdentityV {
                                                    reputation: d.reputation.update(
                                                        i,
                                                        ReputationV {
                                                            history: rp.history.update(
                                                                j,
                                                                ReputationEventV {
                                                                    change: v,
                                                                    ..ev
                                                                },
                                                            ),
                                                            ..rp
                                                        },
                                                    ),
                                                    ..d
                                                },
                                            ),
                                            None => SpecSetOutcome::Mismatch,
                                        }
                                    } else if s2.name == "timestamp"@ {
                                        SpecSetOutcome::Applied(
                                            IdentityV {
                                                reputation: d.reputation.update(
                                                    i,
                                                    ReputationV {
                                                        history: rp.history.update(
                                                            j,
                                                            ReputationEventV {
                                                                timestamp: value,
                                                                ..ev
                                                            },
                                                        ),
                                                        ..rp
                                                    },
                                                ),
                                                ..d
                                            },
                                        )
                                    } else {
                                        SpecSetOutcome::NotFound
                                    }
                                } else {
                                    SpecSetOutcome::NotFound
                                }
                            } else {
                                SpecSetOutcome::NotFound
                            }
                        } else {
                            SpecSetOutcome::NotFound
                        }
                    }
                },
            }
        } else if s0.name == "consent"@ {
            match s0.index {
                None => SpecSetOutcome::NotFound,
                Some(i) => {
                    if !(0 <= i < d.consent.len()) || segs.len() != 2 {
                        SpecSetOutcome::NotFound
                    } else {
                        let c = d.consent[i];
                        let s1 = segs[1];
                        if s1.name == "fields"@ {
                            match s1.index {
                                Some(j) => {
                                    if 0 <= j < c.fields.len() {
                                        SpecSetOutcome::Applied(
                                            IdentityV {
                                                consent: d.consent.update(
                                                    i,
                                                    ConsentV { fields: c.fields.update(j, value), ..c },
                                                ),
                                                ..d
                                            },
                                        )
                                    } else {
                                        SpecSetOutcome::NotFound
                                    }
                                },
                                None => SpecSetOutcome::NotFound,
                            }
                        } else if s1.index is Some {
                            SpecSetOutcome::NotFound
                        } else if s1.name == "granted_to"@ {
                            SpecSetOutcome::Applied(
                                IdentityV {
                                    consent: d.consent.update(
                                        i,
                                        ConsentV { granted_to: value, ..c },
                                    ),
                                    ..d
                                },
                            )
                        } else if s1.name == "expires_at"@ {
                            SpecSetOutcome::Applied(
                                IdentityV {
                                    consent: d.consent.update(
                                        i,
                                        ConsentV { expires_at: value, ..c },
                                    ),
                                    ..d
                                },
                            )
                        } else if s1.name == "purpose"@ {
                            SpecSetOutcome::Applied(
                                IdentityV {
                                    consent: d.consent.update(i, ConsentV { purpose: value, ..c }),
                                    ..d
                                },
                            )
                        } else {
                            SpecSetOutcome::NotFound
                        }
                    }
                },
            }
        } else {
            SpecSetOutcome::NotFound
        }
    }
}

/// Every protected path resolves to `Immutable`, whatever the document,
/// the value, or the index the path carries under `system.public_keys`.
pub proof fn lemma_protected_immutable(d: IdentityV, segs: Seq<SegV>, value: Seq<char>)
    requires
        is_protected(segs),
    ensures
        spec_set_segs(d, segs, value) == SpecSetOutcome::Immutable,
{
    reveal_strlit("identity");
    reveal_strlit("system");
    assert("system"@.len() == 6 && "identity"@.len() == 8);
    assert("system"@ != "identity"@);
}

/// The exec outcome of the walk, payload-free.
#[derive(Debug, Clone, Copy, PartialEq, Eq, Structural)]
enum ApplyCode {
    Applied,
    NotFound,
    Mismatch,
    Immutable,
}

/// Walks the candidate document along the segments and writes the value,
/// mirroring `spec_set_segs` exactly; leaves the candidate untouched on
/// any failure.
fn apply_segs(cand: &mut Identity, segs: &Vec<Seg>, value: &str) -> (code: ApplyCode)
    ensures
        match spec_set_segs(old(cand)@, segs_view(segs@), value@) {
            SpecSetOutcome::Applied(d1) => code == ApplyCode::Applied && final(cand)@ == d1,
            SpecSetOutcome::NotFound => code == ApplyCode::NotFound && final(cand)@ == old(
                cand,
            )@,
            SpecSetOutcome::Mismatch => code == ApplyCode::Mismatch && final(cand)@ == old(
                cand,
            )@,
            SpecSetOutcome::Immutable => code == ApplyCode::Immutable && final(cand)@ == old(
                cand,
            )@,
        },
{
    let ghost d0 = cand@;
    let ghost sv = segs_view(segs@);
    if segs.len() == 0 {
        return ApplyCode::NotFound;
    }
    proof {
        assert(sv[0] == segs@[0]@);
        if segs@.len() >= 2 {
            assert(sv[1] == segs@[1]@);
        }
        if segs@.len() >= 3 {
            assert(sv[2] == segs@[2]@);
        }
    }
    let seg0 = &segs[0];
    if str_eq(seg0.name.as_str(), "identity") {
        if seg0.index.is_some() || segs.len() != 2 {
            return ApplyCode::NotFound;
        }
        let seg1 = &segs[1];
        if seg1.index.is_some() {
            return ApplyCode::NotFound;
        }
        if str_eq(seg1.name.as_str(), "id") || str_eq(seg1.name.as_str(), "created_at") {
            return ApplyCode::Immutable;
        }
        if str_eq(seg1.name.as_str(), "version") {
            cand.identity.version = value.to_owned();
            proof {
                assert(cand@ =~~= spec_set_segs(d0, sv, value@)->Applied_0);
            }
            return ApplyCode::Applied;
        }
        if str_eq(seg1.name.as_str(), "schema_url") {
            cand.identity.schema_url = value.to_owned();
            proof {
                assert(cand@ =~~= spec_set_segs(d0, sv, value@)->Applied_0);
            }
            return ApplyCode::Applied;
        }
        if str_eq(seg1.name.as_str(), "updated_at") {
            match parse_ts(value) {
                Some(t) => {
                    cand.identity.updated_at = t;
                    proof {
                        assert(cand@ =~~= spec_set_segs(d0, sv, value@)->Applied_0);
                    }
                    return ApplyCode::Applied;
                },
                None => {
                    return ApplyCode::Mismatch;
                },
            }
        }
        return ApplyCode::NotFound;
    }
    if str_eq(seg0.name.as_str(), "system") {
        if seg0.index.is_some() {
            return ApplyCode::NotFound;
        }
        if segs.len() >= 2 && str_eq(segs[1].name.as_str(), "public_keys") {
            return ApplyCode::Immutable;
        }
        return ApplyCode::NotFound;
    }
    if str_eq(seg0.name.as_str(), "core") {
        if seg0.index.is_some() || segs.len() != 2 || segs[1].index.is_some() {
            return ApplyCode::NotFound;
        }
        if str_eq(segs[1].name.as_str(), "name") {
            cand.core.name = value.to_owned();
            proof {
                assert(cand@ =~~= spec_set_segs(d0, sv, value@)->Applied_0);
            }
            return ApplyCode::Applied;
        }
        if str_eq(segs[1].name.as_str(), "bio") {
            cand.core.bio = value.to_owned();
            proof {
                assert(cand@ =~~= spec_set_segs(d0, sv, value@)->Applied_0);
            }
            return ApplyCode::Applied;
        }
        return ApplyCode::NotFound;
    }
    if str_eq(seg0.name.as_str(), "credentials") {
        let i: usize = match seg0.index {
            Some(i) => i,
            None => {
                return ApplyCode::NotFound;
            },
        };
        if !(i < cand.credentials.len()) || segs.len() != 2 || segs[1].index.is_some() {
            return ApplyCode::NotFound;
        }
        let seg1 = &segs[1];
        let mut c = cand.credentials.remove(i);
        let code: ApplyCode;
        if str_eq(seg1.name.as_str(), "claim") {
            c.claim = value.to_owned();
            code = ApplyCode::Applied;
        } else if str_eq(seg1.name.as_str(), "issued_by") {
            c.issued_by = value.to_owned();
            code = ApplyCode::Applied;
        } else if str_eq(seg1.name.as_str(), "issued_at") {
            c.issued_at = value.to_owned();
            code = ApplyCode::Applied;
        } else if str_eq(seg1.name.as_str(), "expires_at") {
            c.expires_at = Some(value.to_owned());
            code = ApplyCode::Applied;
        } else if str_eq(seg1.name.as_str(), "proof_ref") {
            c.proof_ref = value.to_owned();
            code = ApplyCode::Applied;
        } else {
            code = ApplyCode::NotFound;
        }
        cand.credentials.insert(i, c);
        proof {
            if code == ApplyCode::Applied {
                assert(cand@.credentials =~= spec_set_segs(
                    d0,
                    sv,
                    value@,
                )->Applied_0.credentials);
                assert(cand@ =~~= spec_set_segs(d0, sv, value@)->Applied_0);
            } else {
                assert(cand@.credentials =~= d0.credentials);
                assert(cand@ =~~= d0);
            }
        }
        return code;
    }
    if str_eq(seg0.name.as_str(), "contracts") {
        let i: usize = match seg0.index {
            Some(i) => i,
            None => {
                return ApplyCode::NotFound;
            },
        };
        if !(i < cand.contracts.len()) {
            return ApplyCode::NotFound;
        }
        if segs.len() == 2 {
            let seg1 = &segs[1];
            let mut c = cand.contracts.remove(i);
            let code: ApplyCode;
            if str_eq(seg1.name.as_str(), "parties") {
                match seg1.index {
                    Some(j) => {
                        if j < c.parties.len() {
                            let _ = c.parties.remove(j);
                            c.parties.insert(j, value.to_owned());
                            proof {
                                assert(c.parties@.map_values(|p: String| p@)
                                    =~= d0.contracts[i as int].parties.update(j as int, value@));
                            }
                            code = ApplyCode::Applied;
                        } else {
                            code = ApplyCode::NotFound;
                        }
                    },
                    None => {
                        code = ApplyCode::NotFound;
                    },
                }
            } else if seg1.index.is_some() {
                code = ApplyCode::NotFound;
            } else if str_eq(seg1.name.as_str(), "contract_id") {
                c.contract_id = value.to_owned();
                code = ApplyCode::Applied;
            } else if str_eq(seg1.name.as_str(), "status") {
                c.status = value.to_owned();
                code = ApplyCode::Applied;
            } else if str_eq(seg1.name.as_str(), "terms") {
                c.terms = value.to_owned();
                code = ApplyCode::Applied;
            } else {
                code = ApplyCode::NotFound;
            }
            cand.contracts.insert(i, c);
            proof {
                if code == ApplyCode::Applied {
                    assert(cand@.contracts =~= spec_set_segs(
                        d0,
                        sv,
                        value@,
                    )->Applied_0.contracts);
                    assert(cand@ =~~= spec_set_segs(d0, sv, value@)->Applied_0);
                } else {
                    assert(cand@.contracts =~= d0.contracts);
                    assert(cand@ =~~= d0);
                }
            }
            return code;
        }
        if segs.len() == 3 {
            let seg1 = &segs[1];
            let seg2 = &segs[2];
            if str_eq(seg1.name.as_str(), "consequence") && seg1.index.is_none()
                && seg2.index.is_none() {
                let mut c = cand.contracts.remove(i);
                let code: ApplyCode;
                if str_eq(seg2.name.as_str(), "on_success") {
                    c.consequence.on_success = value.to_owned();
                    code = ApplyCode::Applied;
                } else if str_eq(seg2.name.as_str(), "on_failure") {
                    c.consequence.on_failure = value.to_owned();
                    code = ApplyCode::Applied;
                } else {
                    code = ApplyCode::NotFound;
                }
                cand.contracts.insert(i, c);
                proof {
                    if code == ApplyCode::Applied {
                        assert(cand@.contracts =~= spec_set_segs(
                            d0,
                            sv,
                            value@,
                        )->Applied_0.contracts);
                        assert(cand@ =~~= spec_set_segs(d0, sv, value@)->Applied_0);
                    } else {
                        assert(cand@.contracts =~= d0.contracts);
                        assert(cand@ =~~= d0);
                    }
                }
                return code;
            }
            return ApplyCode::NotFound;
        }
        return ApplyCode::NotFound;
    }
    if str_eq(seg0.name.as_str(), "reputation") {
        let i: usize = match seg0.index {
            Some(i) => i,
            None => {
                return ApplyCode::NotFound;
            },
        };
        if !(i < cand.reputation.len()) {
            return ApplyCode::NotFound;
        }
        if segs.len() == 2 {
            let seg1 = &segs[1];
            if seg1.index.is_some() {
                return ApplyCode::NotFound;
            }
            if str_eq(seg1.name.as_str(), "score_name") {
                let mut rp = cand.reputation.remove(i);
                rp.score_name = value.to_owned();
                cand.reputation.insert(i, rp);
                proof {
                    assert(cand@.reputation =~= spec_set_segs(
                        d0,
                        sv,
                        value@,
                    )->Applied_0.reputation);
                    assert(cand@ =~~= spec_set_segs(d0, sv, value@)->Applied_0);
                }
                return ApplyCode::Applied;
            }
            if str_eq(seg1.name.as_str(), "value") {
                match parse_i64(value) {
                    Some(v) => {
                        let mut rp = cand.reputation.remove(i);
                        rp.value = v;
                        cand.reputation.insert(i, rp);
                        proof {
                            assert(cand@.reputation =~= spec_set_segs(
                                d0,
                                sv,
                                value@,
                            )->Applied_0.reputation);
                            assert(cand@ =~~= spec_set_segs(d0, sv, value@)->Applied_0);
                        }
                        return ApplyCode::Applied;
                    },
                    None => {
                        return ApplyCode::Mismatch;
                    },
                }
            }
            return ApplyCode::NotFound;
        }
        if segs.len() == 3 {
            let seg1 = &segs[1];
            let seg2 = &segs[2];
            if str_eq(seg1.name.as_str(), "history") && seg1.index.is_some()
                && seg2.index.is_none() {
                let j: usize = match seg1.index {
                    Some(j) => j,
                    None => {
                        return ApplyCode::NotFound;
                    },
                };
                let mut rp = cand.reputation.remove(i);
                if !(j < rp.history.len()) {
                    cand.reputation.insert(i, rp);
                    proof {
                        assert(cand@.reputation =~= d0.reputation);
                        assert(cand@ =~~= d0);
                    }
                    return ApplyCode::NotFound;
                }
                let mut ev = rp.history.remove(j);
                let code: ApplyCode;
                let mut mismatch: bool = false;
                if str_eq(seg2.name.as_str(), "event") {
                    ev.event = value.to_owned();
                    code = ApplyCode::Applied;
                } else if str_eq(seg2.name.as_str(), "change") {
                    match parse_i64(value) {
                        Some(v) => {
                            ev.change = v;
                            code = ApplyCode::Applied;
                        },
                        None => {
                            code = ApplyCode::Mismatch;
                            mismatch = true;
                        },
                    }
                } else if str_eq(seg2.name.as_str(), "timestamp") {
                    ev.timestamp = value.to_owned();
                    code = ApplyCode::Applied;
                } else {
                    code = ApplyCode::NotFound;
                }
                rp.history.insert(j, ev);
                cand.reputation.insert(i, rp);
                proof {
                    if code == ApplyCode::Applied {
                        assert(cand@.reputation[i as int].history =~= spec_set_segs(
                            d0,
                            sv,
                            value@,
                        )->Applied_0.reputation[i as int].history);
                        assert(cand@.reputation =~= spec_set_segs(
                            d0,
                            sv,
                            value@,
                        )->Applied_0.reputation);
                        assert(cand@ =~~= spec_set_segs(d0, sv, value@)->Applied_0);
                    } else {
                        assert(cand@.reputation[i as int].history =~= d0.reputation[
                            i as int].history);
                        assert(cand@.reputation =~= d0.reputation);
                        assert(cand@ =~~= d0);
                    }
                }
                return code;
            }
            return ApplyCode::NotFound;
        }
        return ApplyCode::NotFound;
    }
    if str_eq(seg0.name.as_str(), "consent") {
        let i: usize = match seg0.index {
            Some(i) => i,
            None => {
                return ApplyCode::NotFound;
            },
        };
        if !(i < cand.consent.len()) || segs.len() != 2 {
            return ApplyCode::NotFound;
        }
        let seg1 = &segs[1];
        let mut c = cand.consent.remove(i);
        let code: ApplyCode;
        if str_eq(seg1.name.as_str(), "fields") {
            match seg1.index {
                Some(j) => {
                    if j < c.fields.len() {
                        let _ = c.fields.remove(j);
                        c.fields.insert(j, value.to_owned());
                        proof {
                            assert(c.fields@.map_values(|p: String| p@) =~= d0.consent[
                                i as int].fields.update(j as int, value@));
                        }
                        code = ApplyCode::Applied;
                    } else {
                        code = ApplyCode::NotFound;
                    }
                },
                None => {
                    code = ApplyCode::NotFound;
                },
            }
        } else if seg1.index.is_some() {
            code = ApplyCode::NotFound;
        } else if str_eq(seg1.name.as_str(), "granted_to") {
            c.granted_to = value.to_owned();
            code = ApplyCode::Applied;
        } else if str_eq(seg1.name.as_str(), "expires_at") {
            c.expires_at = value.to_owned();
            code = ApplyCode::Applied;
        } else if str_eq(seg1.name.as_str(), "purpose") {
            c.purpose = value.to_owned();
            code = ApplyCode::Applied;
        } else {
            code = ApplyCode::NotFound;
        }
        cand.consent.insert(i, c);
        proof {
            if code == ApplyCode::Applied {
                assert(cand@.consent =~= spec_set_segs(d0, sv, value@)->Applied_0.consent);
                assert(cand@ =~~= spec_set_segs(d0, sv, value@)->Applied_0);
            } else {
                assert(cand@.consent =~= d0.consent);
                assert(cand@ =~~= d0);
            }
        }
        return code;
    }
    ApplyCode::NotFound
}

impl Identity {
    /// Typed path-based mutation: resolves the dotted path, coerces the
    /// value to the addressed field's type, applies it, advances
    /// `updated_at`, and re-validates. On any failure — an unknown path,
    /// a value of the wrong type, a protected field, or a document that
    /// would no longer validate — the document is left exactly as it was.
    pub fn set(&mut self, path: &str, value: &str, now: Timestamp) -> (r: Result<(), IdpError>)
        ensures
            ({
                let p = spec_parse_path(path@);
                if p is None {
                    r matches Err(e) && e == IdpError::PathNotFound && final(self)@ == old(
                        self,
                    )@
                } else {
                    match spec_set_segs(old(self)@, p->Some_0, value@) {
                        SpecSetOutcome::NotFound => r matches Err(e) && e
                            == IdpError::PathNotFound && final(self)@ == old(self)@,
                        SpecSetOutcome::Mismatch => r matches Err(e) && e
                            == IdpError::TypeMismatch && final(self)@ == old(self)@,
                        SpecSetOutcome::Immutable => r matches Err(e) && e
                            == IdpError::ImmutableField && final(self)@ == old(self)@,
                        SpecSetOutcome::Applied(d1) => {
                            let d2 = IdentityV {
                                identity: crate::model::IdentityBlockV {
                                    updated_at: ts_later(d1.identity.updated_at, now),
                                    ..d1.identity
                                },
                                ..d1
                            };
                            if doc_ok(d2) {
                                r is Ok && final(self)@ == d2
                            } else {
                                &&& r matches Err(IdpError::ValidationFailed(v)) && v@
                                    == spec_violations(d2)
                                &&& final(self)@ == old(self)@
                            }
                        },
                    }
                }
            }),
    {
        let segs = match parse_path(path) {
            Some(s) => s,
            None => {
                return Err(IdpError::PathNotFound);
            },
        };
        let mut cand = self.deep_clone();
        let code = apply_segs(&mut cand, &segs, value);
        match code {
            ApplyCode::NotFound => Err(IdpError::PathNotFound),
            ApplyCode::Mismatch => Err(IdpError::TypeMismatch),
            ApplyCode::Immutable => Err(IdpError::ImmutableField),
            ApplyCode::Applied => {
                cand.identity.updated_at = cand.identity.updated_at.later(&now);
                let ghost d1 = spec_set_segs(
                    old(self)@,
                    spec_parse_path(path@)->Some_0,
                    value@,
                )->Applied_0;
                proof {
                    assert(cand@ =~~= IdentityV {
                        identity: crate::model::IdentityBlockV {
                            updated_at: ts_later(d1.identity.updated_at, now),
                            ..d1.identity
                        },
                        ..d1
                    });
                }
                let viols = validate(&cand);
                if viols.len() == 0 {
                    *self = cand;
                    Ok(())
                } else {
                    Err(IdpError::ValidationFailed(viols))
                }
            },
        }
    }
}

// ------------------------------------------------------------------
// The immutability of the two identity fields, stated on the concrete
// dotted paths themselves.
// ------------------------------------------------------------------

/// `"identity.id"` parses to exactly its two segments.
pub proof fn lemma_identity_id_path()
    ensures
        spec_parse_path("identity.id"@) == Some(
            seq![
                SegV { name: "identity"@, index: None },
                SegV { name: "id"@, index: None },
            ],
        ),
{
    let s = "identity.id"@;
    reveal_strlit("identity.id");
    reveal_strlit("identity");
    reveal_strlit("id");
    assert(s.len() == 11);
    assert(ident_end(s, 11) == 11);
    assert(ident_end(s, 10) == 11);
    assert(ident_end(s, 9) == 11);
    assert(ident_end(s, 8) == 8);
    assert(ident_end(s, 7) == 8);
    assert(ident_end(s, 6) == 8);
    assert(ident_end(s, 5) == 8);
    assert(ident_end(s, 4) == 8);
    assert(ident_end(s, 3) == 8);
    assert(ident_end(s, 2) == 8);
    assert(ident_end(s, 1) == 8);
    assert(ident_end(s, 0) == 8);
    assert(s.subrange(9, 11) =~= "id"@);
    assert(spec_parse_segs(s, 9) == Some(seq![SegV { name: "id"@, index: None }]));
    assert(s.subrange(0, 8) =~= "identity"@);
    assert(spec_parse_segs(s, 0) == Some(
        seq![SegV { name: "identity"@, index: None }] + seq![SegV { name: "id"@, index: None }],
    ));
    assert(seq![SegV { name: "identity"@, index: None }] + seq![
        SegV { name: "id"@, index: None },
    ] =~= seq![
        SegV { name: "identity"@, index: None },
        SegV { name: "id"@, index: None },
    ]);
}

/// `"identity.created_at"` parses to exactly its two segments.
pub proof fn lemma_identity_created_at_path()
    ensures
        spec_parse_path("identity.created_at"@) == Some(
            seq![
                SegV { name: "identity"@, index: None },
                SegV { name: "created_at"@, index: None },
            ],
        ),
{
    let s = "identity.created_at"@;
    reveal_strlit("identity.created_at");
    reveal_strlit("identity");
    reveal_strlit("created_at");
    assert(s.len() == 19);
    assert(ident_end(s, 19) == 19);
    assert(ident_end(s, 18) == 19);
    assert(ident_end(s, 17) == 19);
    assert(ident_end(s, 16) == 19);
    assert(ident_end(s, 15) == 19);
    assert(ident_end(s, 14) == 19);
    assert(ident_end(s, 13) == 19);
    assert(ident_end(s, 12) == 19);
    assert(ident_end(s, 11) == 19);
    assert(ident_end(s, 10) == 19);
    assert(ident_end(s, 9) == 19);
    assert(ident_end(s, 8) == 8);
    assert(ident_end(s, 7) == 8);
    assert(ident_end(s, 6) == 8);
    assert(ident_end(s, 5) == 8);
    assert(ident_end(s, 4) == 8);
    assert(ident_end(s, 3) == 8);
    assert(ident_end(s, 2) == 8);
    assert(ident_end(s, 1) == 8);
    assert(ident_end(s, 0) == 8);
    assert(s.subrange(9, 19) =~= "created_at"@);
    assert(spec_parse_segs(s, 9) == Some(seq![SegV { name: "created_at"@, index: None }]));
    assert(s.subrange(0, 8) =~= "identity"@);
    assert(spec_parse_segs(s, 0) == Some(
        seq![SegV { name: "identity"@, index: None }] + seq![
            SegV { name: "created_at"@, index: None },
        ],
    ));
    assert(seq![SegV { name: "identity"@, index: None }] + seq![
        SegV { name: "created_at"@, index: None },
    ] =~= seq![
        SegV { name: "identity"@, index: None },
        SegV { name: "created_at"@, index: None },
    ]);
}

/// Immutability: for every document and every value, setting
/// `identity.id` or `identity.created_at` resolves to `Immutable` — so
/// `set` fails with `ImmutableField` and leaves the document unchanged.
pub proof fn lemma_identity_fields_immutable(d: IdentityV, value: Seq<char>)
    ensures
        ({
            let p = spec_parse_path("identity.id"@);
            p is Some && spec_set_segs(d, p->Some_0, value) == SpecSetOutcome::Immutable
        }),
        ({
            let p = spec_parse_path("identity.created_at"@);
            p is Some && spec_set_segs(d, p->Some_0, value) == SpecSetOutcome::Immutable
        }),
{
    lemma_identity_id_path();
    lemma_identity_created_at_path();
    let segs1 = seq![SegV { name: "identity"@, index: None }, SegV { name: "id"@, index: None }];
    let segs2 = seq![
        SegV { name: "identity"@, index: None },
        SegV { name: "created_at"@, index: None },
    ];
    assert(is_protected(segs1));
    assert(is_protected(segs2));
    lemma_protected_immutable(d, segs1, value);
    lemma_protected_immutable(d, segs2, value);
}

} // verus!
