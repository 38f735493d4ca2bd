//! The canonical text codec: a fixed field order, quoted-and-escaped
//! strings, fixed-width timestamps, canonical decimals, and omission of
//! empty trust-artifact sequences. The parser is strict: it accepts
//! exactly the canonical form and rejects unknown or misplaced fields.
//!
//! Both directions are specified at the mathematical level, and parsing
//! is proved to invert serialization.

use vstd::prelude::*;

use crate::model::{ReputationEvent, SignatureComponent, Timestamp};
use crate::text::{
    all_digits, chars_vec, dec_val, fmt_i64, fmt_ts, is_digit, lemma_dec_digits_ok,
    lemma_i64_roundtrip, lemma_ts_roundtrip, parse_i64, parse_ts, push_char, ser_i64, ser_ts,
    spec_parse_i64, spec_parse_ts, string_of_chars,
};

verus! {

// ------------------------------------------------------------------
// Escaping: backslash, double quote and newline are escaped so every
// value fits on one line between quotes.
// ------------------------------------------------------------------

pub open spec fn esc_char(c: char) -> Seq<char> {
    if c == '"' {
        seq!['\\', '"']
    } else if c == '\\' {
        seq!['\\', '\\']
    } else if c == '\n' {
        seq!['\\', 'n']
    } else {
        seq![c]
    }
}

pub open spec fn esc(s: Seq<char>) -> Seq<char>
    decreases s.len(),
{
    if s.len() == 0 {
        Seq::empty()
    } else {
        esc_char(s[0]) + esc(s.drop_first())
    }
}

/// The unescape of an escaped-form line body; `None` where the body is
/// not in canonical escaped form (a bare quote, a bare newline, or a
/// dangling or unknown escape).
pub open spec fn unesc_opt(m: Seq<char>) -> Option<Seq<char>>
    decreases m.len(),
{
    if m.len() == 0 {
        Some(Seq::empty())
    } else if m[0] == '\\' {
        if m.len() >= 2 && (m[1] == 'n' || m[1] == '"' || m[1] == '\\') {
            let decoded = if m[1] == 'n' {
                '\n'
            } else {
                m[1]
            };
            match unesc_opt(m.skip(2)) {
                Some(r) => Some(seq![decoded] + r),
                None => None,
            }
        } else {
            None
        }
    } else if m[0] == '"' || m[0] == '\n' {
        None
    } else {
        match unesc_opt(m.skip(1)) {
            Some(r) => Some(seq![m[0]] + r),
            None => None,
        }
    }
}

pub proof fn lemma_esc_no_newline(s: Seq<char>)
    ensures
        forall|k: int| 0 <= k < esc(s).len() ==> #[trigger] esc(s)[k] != '\n',
    decreases s.len(),
{
    if s.len() == 0 {
    } else {
        lemma_esc_no_newline(s.drop_first());
        assert(forall|k: int|
            0 <= k < esc_char(s[0]).len() ==> #[trigger] esc_char(s[0])[k] != '\n');
        assert(forall|k: int|
            0 <= k < esc(s).len() ==> #[trigger] esc(s)[k] == (esc_char(s[0]) + esc(
                s.drop_first(),
            ))[k]);
    }
}

/// Unescaping inverts escaping.
pub proof fn lemma_unesc_esc(s: Seq<char>)
    ensures
        unesc_opt(esc(s)) == Some(s),
    decreases s.len(),
{
    if s.len() == 0 {
    } else {
        lemma_unesc_esc(s.drop_first());
        let e = esc(s);
        let c = s[0];
        if c == '"' || c == '\\' || c == '\n' {
            assert(e.skip(2) =~= esc(s.drop_first()));
            assert(seq![c] + s.drop_first() =~= s);
        } else {
            assert(e[0] == c);
            assert(e.skip(1) =~= esc(s.drop_first()));
            assert(seq![c] + s.drop_first() =~= s);
        }
    }
}

// ------------------------------------------------------------------
// Positions and lines.
// ------------------------------------------------------------------

/// Whether the text holds exactly `p` at position `i`.
pub open spec fn at(t: Seq<char>, i: int, p: Seq<char>) -> bool {
    0 <= i && i + p.len() <= t.len() && t.subrange(i, i + p.len()) == p
}

pub proof fn lemma_at_concat(t: Seq<char>, i: int, a: Seq<char>, b: Seq<char>)
    requires
        at(t, i, a + b),
    ensures
        at(t, i, a),
        at(t, i + a.len(), b),
{
    let ab = a + b;
    assert(t.subrange(i, i + a.len()) =~= a) by {
        assert(forall|k: int|
            0 <= k < a.len() ==> t.subrange(i, i + ab.len() as int)[k] == #[trigger] t.subrange(
                i,
                i + a.len(),
            )[k]);
    }
    assert(t.subrange(i + a.len(), i + a.len() + b.len()) =~= b) by {
        assert(forall|k: int|
            0 <= k < b.len() ==> #[trigger] t.subrange(
                i + a.len(),
                i + a.len() + b.len(),
            )[k] == ab[k + a.len()]);
    }
}

/// Characters at and after `i`, up to the first newline.
pub open spec fn line_end(t: Seq<char>, i: int) -> int
    decreases t.len() - i,
    when 0 <= i <= t.len()
{
    if i >= t.len() {
        i
    } else if t[i] == '\n' {
        i
    } else {
        line_end(t, i + 1)
    }
}

pub proof fn lemma_line_end_at(t: Seq<char>, i: int, k: int)
    requires
        0 <= i <= k <= t.len(),
        forall|m: int| i <= m < k ==> #[trigger] t[m] != '\n',
        k == t.len() || t[k] == '\n',
    ensures
        line_end(t, i) == k,
    decreases k - i,
{
    if i < k {
        lemma_line_end_at(t, i + 1, k);
    }
}

// ------------------------------------------------------------------
// The three line forms: quoted string, signed decimal, timestamp.
// Each rendering carries its full prefix (indentation and key) and its
// trailing newline.
// ------------------------------------------------------------------

/// A quoted, escaped string line.
pub open spec fn fline(pre: Seq<char>, v: Seq<char>) -> Seq<char> {
    pre + seq!['"'] + esc(v) + seq!['"'] + seq!['\n']
}

/// A signed-decimal line.
pub open spec fn iline(pre: Seq<char>, v: int) -> Seq<char> {
    pre + ser_i64(v) + seq!['\n']
}

/// A timestamp line.
pub open spec fn tline(pre: Seq<char>, ts: Timestamp) -> Seq<char> {
    pre + ser_ts(ts) + seq!['\n']
}

pub open spec fn parse_fline(t: Seq<char>, i: int, pre: Seq<char>) -> Option<(Seq<char>, int)>
    recommends
        0 <= i <= t.len(),
{
    if !at(t, i, pre) {
        None
    } else {
        let j0 = i + pre.len();
        let nl = line_end(t, j0);
        if nl >= t.len() {
            None
        } else {
            let content = t.subrange(j0, nl);
            if content.len() >= 2 && content[0] == '"' && content.last() == '"' {
                match unesc_opt(content.subrange(1, content.len() - 1)) {
                    Some(v) => Some((v, nl + 1)),
                    None => None,
                }
            } else {
                None
            }
        }
    }
}

pub open spec fn parse_iline(t: Seq<char>, i: int, pre: Seq<char>) -> Option<(int, int)>
    recommends
        0 <= i <= t.len(),
{
    if !at(t, i, pre) {
        None
    } else {
        let j0 = i + pre.len();
        let nl = line_end(t, j0);
        if nl >= t.len() {
            None
        } else {
            match spec_parse_i64(t.subrange(j0, nl)) {
                Some(v) => Some((v, nl + 1)),
                None => None,
            }
        }
    }
}

pub open spec fn parse_tline(t: Seq<char>, i: int, pre: Seq<char>) -> Option<(Timestamp, int)>
    recommends
        0 <= i <= t.len(),
{
    if !at(t, i, pre) {
        None
    } else {
        let j0 = i + pre.len();
        let nl = line_end(t, j0);
        if nl >= t.len() {
            None
        } else {
            match spec_parse_ts(t.subrange(j0, nl)) {
                Some(ts) => Some((ts, nl + 1)),
                None => None,
            }
        }
    }
}

// Parse-of-print, for each line form.

pub proof fn lemma_fline_print(t: Seq<char>, i: int, pre: Seq<char>, v: Seq<char>)
    requires
        at(t, i, fline(pre, v)),
    ensures
        parse_fline(t, i, pre) == Some((v, i + fline(pre, v).len())),
{
    let body = seq!['"'] + esc(v) + seq!['"'];
    assert(fline(pre, v) =~= pre + (body + seq!['\n']));
    lemma_at_concat(t, i, pre, body + seq!['\n']);
    let j0 = i + pre.len();
    lemma_at_concat(t, j0, body, seq!['\n']);
    let nl = j0 + body.len();
    lemma_esc_no_newline(v);
    assert forall|m: int| j0 <= m < nl implies #[trigger] t[m] != '\n' by {
        let k = m - j0;
        assert(t.subrange(j0, j0 + body.len())[k] == body[k]);
        assert(t[m] == body[k]);
        if k == 0 || k == body.len() - 1 {
            assert(body[k] == '"');
        } else {
            assert(body[k] == esc(v)[k - 1]);
        }
    }
    assert(t[nl] == '\n') by {
        assert(t.subrange(nl, nl + 1)[0] == '\n');
    }
    lemma_line_end_at(t, j0, nl);
    assert(nl < t.len());
    let content = t.subrange(j0, nl);
    assert(content =~= body);
    assert(content.len() >= 2 && content[0] == '"' && content.last() == '"');
    assert(content.subrange(1, content.len() - 1) =~= esc(v));
    lemma_unesc_esc(v);
    assert(nl + 1 == i + fline(pre, v).len());
}

pub proof fn lemma_iline_print(t: Seq<char>, i: int, pre: Seq<char>, v: int)
    requires
        at(t, i, iline(pre, v)),
        -0x8000_0000_0000_0000 <= v <= 0x7fff_ffff_ffff_ffff,
    ensures
        parse_iline(t, i, pre) == Some((v, i + iline(pre, v).len())),
{
    let body = ser_i64(v);
    assert(iline(pre, v) =~= pre + (body + seq!['\n']));
    lemma_at_concat(t, i, pre, body + seq!['\n']);
    let j0 = i + pre.len();
    lemma_at_concat(t, j0, body, seq!['\n']);
    let nl = j0 + body.len();
    if v < 0 {
        lemma_dec_digits_ok((-v) as nat);
    } else {
        lemma_dec_digits_ok(v as nat);
    }
    assert forall|m: int| j0 <= m < nl implies #[trigger] t[m] != '\n' by {
        let k = m - j0;
        assert(t.subrange(j0, j0 + body.len())[k] == body[k]);
        assert(t[m] == body[k]);
        if v < 0 {
            if k == 0 {
                assert(body[k] == '-');
            } else {
                assert(body[k] == dec_digits_of(v)[k - 1]);
                assert(is_digit(dec_digits_of(v)[k - 1]));
            }
        } else {
            assert(body[k] == dec_digits_of(v)[k]);
            assert(is_digit(dec_digits_of(v)[k]));
        }
    }
    assert(t[nl] == '\n') by {
        assert(t.subrange(nl, nl + 1)[0] == '\n');
    }
    lemma_line_end_at(t, j0, nl);
    assert(t.subrange(j0, nl) =~= body);
    lemma_i64_roundtrip(v);
    assert(nl + 1 == i + iline(pre, v).len());
}

/// The digit part of a signed decimal rendering.
pub open spec fn dec_digits_of(v: int) -> Seq<char> {
    crate::text::dec_digits((if v < 0 {
        -v
    } else {
        v
    }) as nat)
}

pub proof fn lemma_ser_ts_chars(ts: Timestamp)
    ensures
        ser_ts(ts).len() == 20,
        forall|k: int| 0 <= k < 20 ==> #[trigger] ser_ts(ts)[k] != '\n',
{
    let s = ser_ts(ts);
    crate::text::lemma_d_fixed_ok(ts.year as nat, 4);
    crate::text::lemma_d_fixed_ok(ts.month as nat, 2);
    crate::text::lemma_d_fixed_ok(ts.day as nat, 2);
    crate::text::lemma_d_fixed_ok(ts.hour as nat, 2);
    crate::text::lemma_d_fixed_ok(ts.minute as nat, 2);
    crate::text::lemma_d_fixed_ok(ts.second as nat, 2);
    assert(s.len() == 20);
    assert(s.subrange(0, 4) =~= crate::text::d_fixed(ts.year as nat, 4));
    assert(s.subrange(5, 7) =~= crate::text::d_fixed(ts.month as nat, 2));
    assert(s.subrange(8, 10) =~= crate::text::d_fixed(ts.day as nat, 2));
    assert(s.subrange(11, 13) =~= crate::text::d_fixed(ts.hour as nat, 2));
    assert(s.subrange(14, 16) =~= crate::text::d_fixed(ts.minute as nat, 2));
    assert(s.subrange(17, 19) =~= crate::text::d_fixed(ts.second as nat, 2));
    assert(s[4] == '-' && s[7] == '-' && s[10] == 'T' && s[13] == ':' && s[16] == ':' && s[19]
        == 'Z');
    assert forall|k: int| 0 <= k < 20 implies #[trigger] s[k] != '\n' by {
        if k < 4 {
            assert(s[k] == s.subrange(0, 4)[k]);
            assert(is_digit(s[k]));
        } else if k == 4 || k == 7 || k == 10 || k == 13 || k == 16 || k == 19 {
        } else if 5 <= k < 7 {
            assert(s[k] == s.subrange(5, 7)[k - 5]);
            assert(is_digit(s[k]));
        } else if 8 <= k < 10 {
            assert(s[k] == s.subrange(8, 10)[k - 8]);
            assert(is_digit(s[k]));
        } else if 11 <= k < 13 {
            assert(s[k] == s.subrange(11, 13)[k - 11]);
            assert(is_digit(s[k]));
        } else if 14 <= k < 16 {
            assert(s[k] == s.subrange(14, 16)[k - 14]);
            assert(is_digit(s[k]));
        } else {
            assert(17 <= k < 19);
            assert(s[k] == s.subrange(17, 19)[k - 17]);
            assert(is_digit(s[k]));
        }
    }
}

pub proof fn lemma_tline_print(t: Seq<char>, i: int, pre: Seq<char>, ts: Timestamp)
    requires
        at(t, i, tline(pre, ts)),
        crate::model::ts_wf(ts),
    ensures
        parse_tline(t, i, pre) == Some((ts, i + tline(pre, ts).len())),
{
    let body = ser_ts(ts);
    assert(tline(pre, ts) =~= pre + (body + seq!['\n']));
    lemma_at_concat(t, i, pre, body + seq!['\n']);
    let j0 = i + pre.len();
    lemma_at_concat(t, j0, body, seq!['\n']);
    let nl = j0 + body.len();
    lemma_ser_ts_chars(ts);
    assert forall|m: int| j0 <= m < nl implies #[trigger] t[m] != '\n' by {
        let k = m - j0;
        assert(t.subrange(j0, j0 + body.len())[k] == body[k]);
        assert(t[m] == body[k]);
        assert(body[k] == ser_ts(ts)[k]);
    }
    assert(t[nl] == '\n') by {
        assert(t.subrange(nl, nl + 1)[0] == '\n');
    }
    lemma_line_end_at(t, j0, nl);
    assert(t.subrange(j0, nl) =~= body);
    lemma_ts_roundtrip(ts);
    assert(nl + 1 == i + tline(pre, ts).len());
}

/// A position cannot both start with `p` and carry `q` when the two
/// disagree at some shared offset.
pub proof fn lemma_not_at(t: Seq<char>, i: int, p: Seq<char>, q: Seq<char>, k: int)
    requires
        at(t, i, q),
        0 <= k < p.len(),
        k < q.len(),
        p[k] != q[k],
    ensures
        !at(t, i, p),
{
    if at(t, i, p) {
        assert(t.subrange(i, i + p.len())[k] == p[k]);
        assert(t.subrange(i, i + q.len())[k] == q[k]);
        assert(t[i + k] == p[k]);
        assert(t[i + k] == q[k]);
    }
}

pub proof fn lemma_fline_starts(t: Seq<char>, i: int, pre: Seq<char>, v: Seq<char>)
    requires
        at(t, i, fline(pre, v)),
    ensures
        at(t, i, pre),
{
    assert(fline(pre, v) =~= pre + (seq!['"'] + esc(v) + seq!['"'] + seq!['\n']));
    lemma_at_concat(t, i, pre, seq!['"'] + esc(v) + seq!['"'] + seq!['\n']);
}

pub proof fn lemma_at_prefix(t: Seq<char>, i: int, p: Seq<char>, q: Seq<char>)
    requires
        at(t, i, p),
        0 <= q.len() <= p.len(),
        forall|k: int| 0 <= k < q.len() ==> #[trigger] q[k] == p[k],
    ensures
        at(t, i, q),
{
    assert(t.subrange(i, i + q.len()) =~= q) by {
        assert(forall|k: int|
            0 <= k < q.len() ==> #[trigger] t.subrange(i, i + q.len())[k] == t.subrange(
                i,
                i + p.len(),
            )[k]);
    }
}

// ------------------------------------------------------------------
// Block serializations and their parsers. Every list is rendered as a
// run of elements and parsed while the element lead is in view.
// ------------------------------------------------------------------

use crate::model::{
    ConsentV, ContractV, CredentialV, IdentityV, ProofV, PublicKeyV, ReputationEventV,
    ReputationV, SignatureComponentV, SignerV,
};

pub open spec fn ser_pubkey(k: PublicKeyV) -> Seq<char> {
    fline("    - key_id: "@, k.key_id) + fline("      algorithm: "@, k.algorithm) + fline(
        "      value: "@,
        k.value,
    ) + fline("      status: "@, k.status)
}

pub open spec fn parse_pubkey(t: Seq<char>, i: int) -> Option<(PublicKeyV, int)> {
    match parse_fline(t, i, "    - key_id: "@) {
        None => None,
        Some((key_id, i1)) => match parse_fline(t, i1, "      algorithm: "@) {
            None => None,
            Some((algorithm, i2)) => match parse_fline(t, i2, "      value: "@) {
                None => None,
                Some((value, i3)) => match parse_fline(t, i3, "      status: "@) {
                    None => None,
                    Some((status, i4)) => Some(
                        (PublicKeyV { key_id, algorithm, value, status }, i4),
                    ),
                },
            },
        },
    }
}

pub proof fn lemma_pubkey_print(t: Seq<char>, i: int, k: PublicKeyV)
    requires
        at(t, i, ser_pubkey(k)),
    ensures
        parse_pubkey(t, i) == Some((k, i + ser_pubkey(k).len())),
{
    let l1 = fline("    - key_id: "@, k.key_id);
    let l2 = fline("      algorithm: "@, k.algorithm);
    let l3 = fline("      value: "@, k.value);
    let l4 = fline("      status: "@, k.status);
    assert(ser_pubkey(k) =~= l1 + (l2 + (l3 + l4)));
    lemma_at_concat(t, i, l1, l2 + (l3 + l4));
    lemma_fline_print(t, i, "    - key_id: "@, k.key_id);
    let i1 = i + l1.len();
    lemma_at_concat(t, i1, l2, l3 + l4);
    lemma_fline_print(t, i1, "      algorithm: "@, k.algorithm);
    let i2 = i1 + l2.len();
    lemma_at_concat(t, i2, l3, l4);
    lemma_fline_print(t, i2, "      value: "@, k.value);
    let i3 = i2 + l3.len();
    lemma_fline_print(t, i3, "      status: "@, k.status);
}

pub open spec fn ser_pubkeys(ks: Seq<PublicKeyV>) -> Seq<char>
    decreases ks.len(),
{
    if ks.len() == 0 {
        Seq::empty()
    } else {
        ser_pubkey(ks[0]) + ser_pubkeys(ks.drop_first())
    }
}

pub open spec fn parse_pubkeys(t: Seq<char>, i: int) -> Option<(Seq<PublicKeyV>, int)>
    decreases t.len() - i,
    when 0 <= i <= t.len()
{
    if !at(t, i, "    - "@) {
        Some((Seq::empty(), i))
    } else {
        match parse_pubkey(t, i) {
            None => None,
            Some((k, j)) => if i < j <= t.len() {
                match parse_pubkeys(t, j) {
                    Some((r, j2)) => Some((seq![k] + r, j2)),
                    None => None,
                }
            } else {
                None
            },
        }
    }
}

pub proof fn lemma_pubkeys_print(t: Seq<char>, i: int, ks: Seq<PublicKeyV>)
    requires
        at(t, i, ser_pubkeys(ks)),
        !at(t, i + ser_pubkeys(ks).len(), "    - "@),
    ensures
        parse_pubkeys(t, i) == Some((ks, i + ser_pubkeys(ks).len())),
    decreases ks.len(),
{
    reveal_strlit("    - ");
    reveal_strlit("    - key_id: ");
    if ks.len() == 0 {
    } else {
        let l1 = ser_pubkey(ks[0]);
        let rest = ser_pubkeys(ks.drop_first());
        assert(ser_pubkeys(ks) =~= l1 + rest);
        lemma_at_concat(t, i, l1, rest);
        assert(l1 =~= fline("    - key_id: "@, ks[0].key_id) + (fline(
            "      algorithm: "@,
            ks[0].algorithm,
        ) + (fline("      value: "@, ks[0].value) + fline("      status: "@, ks[0].status))));
        lemma_at_concat(
            t,
            i,
            fline("    - key_id: "@, ks[0].key_id),
            fline("      algorithm: "@, ks[0].algorithm) + (fline("      value: "@, ks[0].value)
                + fline("      status: "@, ks[0].status)),
        );
        lemma_fline_starts(t, i, "    - key_id: "@, ks[0].key_id);
        lemma_at_prefix(t, i, "    - key_id: "@, "    - "@);
        lemma_pubkey_print(t, i, ks[0]);
        let j = i + l1.len();
        assert(at(t, j, rest));
        assert(i + ser_pubkeys(ks).len() == j + rest.len());
        lemma_pubkeys_print(t, j, ks.drop_first());
        assert(l1.len() > 0);
        assert(seq![ks[0]] + ks.drop_first() =~= ks);
    }
}

pub open spec fn ser_cred(c: CredentialV) -> Seq<char> {
    fline("  - claim: "@, c.claim) + fline("    issued_by: "@, c.issued_by) + fline(
        "    issued_at: "@,
        c.issued_at,
    ) + (match c.expires_at {
        Some(e) => fline("    expires_at: "@, e),
        None => Seq::empty(),
    }) + fline("    proof_ref: "@, c.proof_ref)
}

pub open spec fn parse_cred(t: Seq<char>, i: int) -> Option<(CredentialV, int)>
    recommends
        0 <= i <= t.len(),
{
    match parse_fline(t, i, "  - claim: "@) {
        None => None,
        Some((claim, i1)) => match parse_fline(t, i1, "    issued_by: "@) {
            None => None,
            Some((issued_by, i2)) => match parse_fline(t, i2, "    issued_at: "@) {
                None => None,
                Some((issued_at, i3)) => {
                    if at(t, i3, "    expires_at: "@) {
                        match parse_fline(t, i3, "    expires_at: "@) {
                            None => None,
                            Some((e, i4)) => match parse_fline(t, i4, "    proof_ref: "@) {
                                None => None,
                                Some((proof_ref, i5)) => Some(
                                    (
                                        CredentialV {
                                            claim,
                                            issued_by,
                                            issued_at,
                                            expires_at: Some(e),
                                            proof_ref,
                                        },
                                        i5,
                                    ),
                                ),
                            },
                        }
                    } else {
                        match parse_fline(t, i3, "    proof_ref: "@) {
                            None => None,
                            Some((proof_ref, i4)) => Some(
                                (
                                    CredentialV {
                                        claim,
                                        issued_by,
                                        issued_at,
                                        expires_at: None,
                                        proof_ref,
                                    },
                                    i4,
                                ),
                            ),
                        }
                    }
                },
            },
        },
    }
}

pub proof fn lemma_cred_print(t: Seq<char>, i: int, c: CredentialV)
    requires
        at(t, i, ser_cred(c)),
    ensures
        parse_cred(t, i) == Some((c, i + ser_cred(c).len())),
{
    reveal_strlit("    expires_at: ");
    reveal_strlit("    proof_ref: ");
    let l1 = fline("  - claim: "@, c.claim);
    let l2 = fline("    issued_by: "@, c.issued_by);
    let l3 = fline("    issued_at: "@, c.issued_at);
    let le = match c.expires_at {
        Some(e) => fline("    expires_at: "@, e),
        None => Seq::<char>::empty(),
    };
    let l5 = fline("    proof_ref: "@, c.proof_ref);
    assert(ser_cred(c) =~= l1 + (l2 + (l3 + (le + l5))));
    lemma_at_concat(t, i, l1, l2 + (l3 + (le + l5)));
    lemma_fline_print(t, i, "  - claim: "@, c.claim);
    let i1 = i + l1.len();
    lemma_at_concat(t, i1, l2, l3 + (le + l5));
    lemma_fline_print(t, i1, "    issued_by: "@, c.issued_by);
    let i2 = i1 + l2.len();
    lemma_at_concat(t, i2, l3, le + l5);
    lemma_fline_print(t, i2, "    issued_at: "@, c.issued_at);
    let i3 = i2 + l3.len();
    lemma_at_concat(t, i3, le, l5);
    match c.expires_at {
        Some(e) => {
            lemma_fline_starts(t, i3, "    expires_at: "@, e);
            lemma_fline_print(t, i3, "    expires_at: "@, e);
            let i4 = i3 + le.len();
            lemma_fline_print(t, i4, "    proof_ref: "@, c.proof_ref);
        },
        None => {
            assert(at(t, i3, l5));
            lemma_fline_starts(t, i3, "    proof_ref: "@, c.proof_ref);
            lemma_not_at(t, i3, "    expires_at: "@, "    proof_ref: "@, 4);
            lemma_fline_print(t, i3, "    proof_ref: "@, c.proof_ref);
        },
    }
}

pub open spec fn ser_creds(cs: Seq<CredentialV>) -> Seq<char>
    decreases cs.len(),
{
    if cs.len() == 0 {
        Seq::empty()
    } else {
        ser_cred(cs[0]) + ser_creds(cs.drop_first())
    }
}

pub open spec fn parse_creds(t: Seq<char>, i: int) -> Option<(Seq<CredentialV>, int)>
    decreases t.len() - i,
    when 0 <= i <= t.len()
{
    if !at(t, i, "  - claim: "@) {
        Some((Seq::empty(), i))
    } else {
        match parse_cred(t, i) {
            None => None,
            Some((c, j)) => if i < j <= t.len() {
                match parse_creds(t, j) {
                    Some((r, j2)) => Some((seq![c] + r, j2)),
                    None => None,
                }
            } else {
                None
            },
        }
    }
}

#[verifier::rlimit(60)]
pub proof fn lemma_creds_print(t: Seq<char>, i: int, cs: Seq<CredentialV>)
    requires
        at(t, i, ser_creds(cs)),
        !at(t, i + ser_creds(cs).len(), "  - claim: "@),
    ensures
        parse_creds(t, i) == Some((cs, i + ser_creds(cs).len())),
    decreases cs.len(),
{
    if cs.len() == 0 {
    } else {
        let l1 = ser_cred(cs[0]);
        let rest = ser_creds(cs.drop_first());
        assert(ser_creds(cs) =~= l1 + rest);
        lemma_at_concat(t, i, l1, rest);
        assert(at(t, i, fline("  - claim: "@, cs[0].claim))) by {
            let tail = fline("    issued_by: "@, cs[0].issued_by) + (fline(
                "    issued_at: "@,
                cs[0].issued_at,
            ) + ((match cs[0].expires_at {
                Some(e) => fline("    expires_at: "@, e),
                None => Seq::<char>::empty(),
            }) + fline("    proof_ref: "@, cs[0].proof_ref)));
            assert(l1 =~= fline("  - claim: "@, cs[0].claim) + tail);
            lemma_at_concat(t, i, fline("  - claim: "@, cs[0].claim), tail);
        }
        lemma_fline_starts(t, i, "  - claim: "@, cs[0].claim);
        lemma_cred_print(t, i, cs[0]);
        let j = i + l1.len();
        lemma_creds_print(t, j, cs.drop_first());
        assert(l1.len() > 0);
        assert(seq![cs[0]] + cs.drop_first() =~= cs);
    }
}

// --- signature components ---

pub open spec fn ser_sig(c: SignatureComponentV) -> Seq<char> {
    fline("      - algorithm: "@, c.algorithm) + fline("        value: "@, c.value)
}

pub open spec fn parse_sig(t: Seq<char>, i: int) -> Option<(SignatureComponentV, int)> {
    match parse_fline(t, i, "      - algorithm: "@) {
        None => None,
        Some((algorithm, i1)) => match parse_fline(t, i1, "        value: "@) {
            None => None,
            Some((value, i2)) => Some((SignatureComponentV { algorithm, value }, i2)),
        },
    }
}

pub proof fn lemma_sig_print(t: Seq<char>, i: int, c: SignatureComponentV)
    requires
        at(t, i, ser_sig(c)),
    ensures
        parse_sig(t, i) == Some((c, i + ser_sig(c).len())),
{
    let l1 = fline("      - algorithm: "@, c.algorithm);
    let l2 = fline("        value: "@, c.value);
    assert(ser_sig(c) =~= l1 + l2);
    lemma_at_concat(t, i, l1, l2);
    lemma_fline_print(t, i, "      - algorithm: "@, c.algorithm);
    lemma_fline_print(t, i + l1.len(), "        value: "@, c.value);
}

pub open spec fn ser_sigs(cs: Seq<SignatureComponentV>) -> Seq<char>
    decreases cs.len(),
{
    if cs.len() == 0 {
        Seq::empty()
    } else {
        ser_sig(cs[0]) + ser_sigs(cs.drop_first())
    }
}

pub open spec fn parse_sigs(t: Seq<char>, i: int) -> Option<(Seq<SignatureComponentV>, int)>
    decreases t.len() - i,
    when 0 <= i <= t.len()
{
    if !at(t, i, "      - "@) {
        Some((Seq::empty(), i))
    } else {
        match parse_sig(t, i) {
            None => None,
            Some((c, j)) => if i < j <= t.len() {
                match parse_sigs(t, j) {
                    Some((r, j2)) => Some((seq![c] + r, j2)),
                    None => None,
                }
            } else {
                None
            },
        }
    }
}

pub proof fn lemma_sigs_print(t: Seq<char>, i: int, cs: Seq<SignatureComponentV>)
    requires
        at(t, i, ser_sigs(cs)),
        !at(t, i + ser_sigs(cs).len(), "      - "@),
    ensures
        parse_sigs(t, i) == Some((cs, i + ser_sigs(cs).len())),
    decreases cs.len(),
{
    reveal_strlit("      - ");
    reveal_strlit("      - algorithm: ");
    if cs.len() == 0 {
    } else {
        let l1 = ser_sig(cs[0]);
        let rest = ser_sigs(cs.drop_first());
        assert(ser_sigs(cs) =~= l1 + rest);
        lemma_at_concat(t, i, l1, rest);
        assert(at(t, i, fline("      - algorithm: "@, cs[0].algorithm))) by {
            assert(l1 =~= fline("      - algorithm: "@, cs[0].algorithm) + fline(
                "        value: "@,
                cs[0].value,
            ));
            lemma_at_concat(
                t,
                i,
                fline("      - algorithm: "@, cs[0].algorithm),
                fline("        value: "@, cs[0].value),
            );
        }
        lemma_fline_starts(t, i, "      - algorithm: "@, cs[0].algorithm);
        lemma_at_prefix(t, i, "      - algorithm: "@, "      - "@);
        lemma_sig_print(t, i, cs[0]);
        let j = i + l1.len();
        lemma_sigs_print(t, j, cs.drop_first());
        assert(l1.len() > 0);
        assert(seq![cs[0]] + cs.drop_first() =~= cs);
    }
}

// --- proofs ---

pub open spec fn ser_proofent(p: ProofV) -> Seq<char> {
    fline("  - proof_id: "@, p.proof_id) + fline("    type: "@, p.proof_type) + fline(
        "    claim_hash: "@,
        p.claim_hash,
    ) + "    signed_by:\n"@ + fline("      idp_id: "@, p.signed_by.idp_id) + fline(
        "      key_id: "@,
        p.signed_by.key_id,
    ) + "    signature:\n"@ + ser_sigs(p.signature)
}

pub open spec fn parse_proofent(t: Seq<char>, i: int) -> Option<(ProofV, int)>
    recommends
        0 <= i <= t.len(),
{
    match parse_fline(t, i, "  - proof_id: "@) {
        None => None,
        Some((proof_id, i1)) => match parse_fline(t, i1, "    type: "@) {
            None => None,
            Some((proof_type, i2)) => match parse_fline(t, i2, "    claim_hash: "@) {
                None => None,
                Some((claim_hash, i3)) => {
                    if !at(t, i3, "    signed_by:\n"@) {
                        None
                    } else {
                        let i4 = i3 + "    signed_by:\n"@.len();
                        match parse_fline(t, i4, "      idp_id: "@) {
                            None => None,
                            Some((idp_id, i5)) => match parse_fline(t, i5, "      key_id: "@) {
                                None => None,
                                Some((key_id, i6)) => {
                                    if !at(t, i6, "    signature:\n"@) {
                                        None
                                    } else {
                                        let i7 = i6 + "    signature:\n"@.len();
                                        if 0 <= i7 <= t.len() {
                                            match parse_sigs(t, i7) {
                                                None => None,
                                                Some((signature, i8)) => Some(
                                                    (
                                                        ProofV {
                                                            proof_id,
                                                            proof_type,
                                                            claim_hash,
                                                            signed_by: SignerV { idp_id, key_id },
                                                            signature,
                                                        },
                                                        i8,
                                                    ),
                                                ),
                                            }
                                        } else {
                                            None
                                        }
                                    }
                                },
                            },
                        }
                    }
                },
            },
        },
    }
}

#[verifier::rlimit(100)]
#[verifier::spinoff_prover]
pub proof fn lemma_proofent_print(t: Seq<char>, i: int, p: ProofV)
    requires
        at(t, i, ser_proofent(p)),
        !at(t, i + ser_proofent(p).len(), "      - "@),
    ensures
        parse_proofent(t, i) == Some((p, i + ser_proofent(p).len())),
{
    let l1 = fline("  - proof_id: "@, p.proof_id);
    let l2 = fline("    type: "@, p.proof_type);
    let l3 = fline("    claim_hash: "@, p.claim_hash);
    let h1 = "    signed_by:\n"@;
    let l4 = fline("      idp_id: "@, p.signed_by.idp_id);
    let l5 = fline("      key_id: "@, p.signed_by.key_id);
    let h2 = "    signature:\n"@;
    let ls = ser_sigs(p.signature);
    assert(ser_proofent(p) =~= l1 + (l2 + (l3 + (h1 + (l4 + (l5 + (h2 + ls)))))));
    lemma_at_concat(t, i, l1, l2 + (l3 + (h1 + (l4 + (l5 + (h2 + ls))))));
    lemma_fline_print(t, i, "  - proof_id: "@, p.proof_id);
    let i1 = i + l1.len();
    lemma_at_concat(t, i1, l2, l3 + (h1 + (l4 + (l5 + (h2 + ls)))));
    lemma_fline_print(t, i1, "    type: "@, p.proof_type);
    let i2 = i1 + l2.len();
    lemma_at_concat(t, i2, l3, h1 + (l4 + (l5 + (h2 + ls))));
    lemma_fline_print(t, i2, "    claim_hash: "@, p.claim_hash);
    let i3 = i2 + l3.len();
    lemma_at_concat(t, i3, h1, l4 + (l5 + (h2 + ls)));
    let i4 = i3 + h1.len();
    lemma_at_concat(t, i4, l4, l5 + (h2 + ls));
    lemma_fline_print(t, i4, "      idp_id: "@, p.signed_by.idp_id);
    let i5 = i4 + l4.len();
    lemma_at_concat(t, i5, l5, h2 + ls);
    lemma_fline_print(t, i5, "      key_id: "@, p.signed_by.key_id);
    let i6 = i5 + l5.len();
    lemma_at_concat(t, i6, h2, ls);
    let i7 = i6 + h2.len();
    lemma_sigs_print(t, i7, p.signature);
}

pub open spec fn ser_proofs(ps: Seq<ProofV>) -> Seq<char>
    decreases ps.len(),
{
    if ps.len() == 0 {
        Seq::empty()
    } else {
        ser_proofent(ps[0]) + ser_proofs(ps.drop_first())
    }
}

pub open spec fn parse_proofs(t: Seq<char>, i: int) -> Option<(Seq<ProofV>, int)>
    decreases t.len() - i,
    when 0 <= i <= t.len()
{
    if !at(t, i, "  - proof_id: "@) {
        Some((Seq::empty(), i))
    } else {
        match parse_proofent(t, i) {
            None => None,
            Some((p, j)) => if i < j <= t.len() {
                match parse_proofs(t, j) {
                    Some((r, j2)) => Some((seq![p] + r, j2)),
                    None => None,
                }
            } else {
                None
            },
        }
    }
}

#[verifier::rlimit(60)]
pub proof fn lemma_proofs_print(t: Seq<char>, i: int, ps: Seq<ProofV>)
    requires
        at(t, i, ser_proofs(ps)),
        !at(t, i + ser_proofs(ps).len(), "  - proof_id: "@),
        !at(t, i + ser_proofs(ps).len(), "      - "@),
    ensures
        parse_proofs(t, i) == Some((ps, i + ser_proofs(ps).len())),
    decreases ps.len(),
{
    reveal_strlit("  - proof_id: ");
    reveal_strlit("      - ");
    if ps.len() == 0 {
    } else {
        let l1 = ser_proofent(ps[0]);
        let rest = ser_proofs(ps.drop_first());
        assert(ser_proofs(ps) =~= l1 + rest);
        lemma_at_concat(t, i, l1, rest);
        let j = i + l1.len();
        // The element ends where the rest begins: the next element or the
        // given follower, neither of which begins like a signature entry.
        if ps.len() == 1 {
            assert(rest.len() == 0);
            assert(!at(t, j, "      - "@));
        } else {
            assert(at(t, j, ser_proofent(ps.drop_first()[0]))) by {
                assert(rest =~= ser_proofent(ps.drop_first()[0]) + ser_proofs(
                    ps.drop_first().drop_first(),
                ));
                lemma_at_concat(
                    t,
                    j,
                    ser_proofent(ps.drop_first()[0]),
                    ser_proofs(ps.drop_first().drop_first()),
                );
            }
            assert(at(t, j, "  - proof_id: "@)) by {
                let q = ps.drop_first()[0];
                assert(ser_proofent(q) =~= fline("  - proof_id: "@, q.proof_id) + (fline(
                    "    type: "@,
                    q.proof_type,
                ) + (fline("    claim_hash: "@, q.claim_hash) + ("    signed_by:\n"@ + (fline(
                    "      idp_id: "@,
                    q.signed_by.idp_id,
                ) + (fline("      key_id: "@, q.signed_by.key_id) + ("    signature:\n"@
                    + ser_sigs(q.signature))))))));
                lemma_at_concat(t, j, fline("  - proof_id: "@, q.proof_id), fline(
                    "    type: "@,
                    q.proof_type,
                ) + (fline("    claim_hash: "@, q.claim_hash) + ("    signed_by:\n"@ + (fline(
                    "      idp_id: "@,
                    q.signed_by.idp_id,
                ) + (fline("      key_id: "@, q.signed_by.key_id) + ("    signature:\n"@
                    + ser_sigs(q.signature)))))));
                lemma_fline_starts(t, j, "  - proof_id: "@, q.proof_id);
            }
            lemma_not_at(t, j, "      - "@, "  - proof_id: "@, 2);
        }
        lemma_proofent_print(t, i, ps[0]);
        assert(at(t, i, "  - proof_id: "@)) by {
            assert(l1 =~= fline("  - proof_id: "@, ps[0].proof_id) + (fline(
                "    type: "@,
                ps[0].proof_type,
            ) + (fline("    claim_hash: "@, ps[0].claim_hash) + ("    signed_by:\n"@ + (fline(
                "      idp_id: "@,
                ps[0].signed_by.idp_id,
            ) + (fline("      key_id: "@, ps[0].signed_by.key_id) + ("    signature:\n"@
                + ser_sigs(ps[0].signature))))))));
            lemma_at_concat(t, i, fline("  - proof_id: "@, ps[0].proof_id), fline(
                "    type: "@,
                ps[0].proof_type,
            ) + (fline("    claim_hash: "@, ps[0].claim_hash) + ("    signed_by:\n"@ + (fline(
                "      idp_id: "@,
                ps[0].signed_by.idp_id,
            ) + (fline("      key_id: "@, ps[0].signed_by.key_id) + ("    signature:\n"@
                + ser_sigs(ps[0].signature)))))));
            lemma_fline_starts(t, i, "  - proof_id: "@, ps[0].proof_id);
        }
        assert(l1.len() > 0);
        lemma_proofs_print(t, j, ps.drop_first());
        assert(seq![ps[0]] + ps.drop_first() =~= ps);
    }
}

// --- contracts ---

pub open spec fn ser_party(p: Seq<char>) -> Seq<char> {
    fline("      - "@, p)
}

pub open spec fn ser_parties(ps: Seq<Seq<char>>) -> Seq<char>
    decreases ps.len(),
{
    if ps.len() == 0 {
        Seq::empty()
    } else {
        ser_party(ps[0]) + ser_parties(ps.drop_first())
    }
}

pub open spec fn parse_parties(t: Seq<char>, i: int) -> Option<(Seq<Seq<char>>, int)>
    decreases t.len() - i,
    when 0 <= i <= t.len()
{
    if !at(t, i, "      - "@) {
        Some((Seq::empty(), i))
    } else {
        match parse_fline(t, i, "      - "@) {
            None => None,
            Some((p, j)) => if i < j <= t.len() {
                match parse_parties(t, j) {
                    Some((r, j2)) => Some((seq![p] + r, j2)),
                    None => None,
                }
            } else {
                None
            },
        }
    }
}

pub proof fn lemma_parties_print(t: Seq<char>, i: int, ps: Seq<Seq<char>>)
    requires
        at(t, i, ser_parties(ps)),
        !at(t, i + ser_parties(ps).len(), "      - "@),
    ensures
        parse_parties(t, i) == Some((ps, i + ser_parties(ps).len())),
    decreases ps.len(),
{
    if ps.len() == 0 {
    } else {
        let l1 = ser_party(ps[0]);
        let rest = ser_parties(ps.drop_first());
        assert(ser_parties(ps) =~= l1 + rest);
        lemma_at_concat(t, i, l1, rest);
        lemma_fline_starts(t, i, "      - "@, ps[0]);
        lemma_fline_print(t, i, "      - "@, ps[0]);
        let j = i + l1.len();
        lemma_parties_print(t, j, ps.drop_first());
        assert(l1.len() > 0);
        assert(seq![ps[0]] + ps.drop_first() =~= ps);
    }
}

pub open spec fn ser_contract(c: ContractV) -> Seq<char> {
    fline("  - contract_id: "@, c.contract_id) + fline("    status: "@, c.status)
        + "    parties:\n"@ + ser_parties(c.parties) + fline("    terms: "@, c.terms)
        + "    consequence:\n"@ + fline("      on_success: "@, c.consequence.on_success) + fline(
        "      on_failure: "@,
        c.consequence.on_failure,
    )
}

pub open spec fn parse_contract(t: Seq<char>, i: int) -> Option<(ContractV, int)>
    recommends
        0 <= i <= t.len(),
{
    match parse_fline(t, i, "  - contract_id: "@) {
        None => None,
        Some((contract_id, i1)) => match parse_fline(t, i1, "    status: "@) {
            None => None,
            Some((status, i2)) => {
                if !at(t, i2, "    parties:\n"@) {
                    None
                } else {
                    let i3 = i2 + "    parties:\n"@.len();
                    if 0 <= i3 <= t.len() {
                        match parse_parties(t, i3) {
                            None => None,
                            Some((parties, i4)) => match parse_fline(t, i4, "    terms: "@) {
                                None => None,
                                Some((terms, i5)) => {
                                    if !at(t, i5, "    consequence:\n"@) {
                                        None
                                    } else {
                                        let i6 = i5 + "    consequence:\n"@.len();
                                        match parse_fline(t, i6, "      on_success: "@) {
                                            None => None,
                                            Some((on_success, i7)) => match parse_fline(
                                                t,
                                                i7,
                                                "      on_failure: "@,
                                            ) {
                                                None => None,
                                                Some((on_failure, i8)) => Some(
                                                    (
                                                        ContractV {
                                                            contract_id,
                                                            status,
                                                            parties,
                                                            terms,
                                                            consequence: crate::model::ConsequenceV {
                                                                on_success,
                                                                on_failure,
                                                            },
                                                        },
                                                        i8,
                                                    ),
                                                ),
                                            },
                                        }
                                    }
                                },
                            },
                        }
                    } else {
                        None
                    }
                }
            },
        },
    }
}

pub proof fn lemma_contract_print(t: Seq<char>, i: int, c: ContractV)
    requires
        at(t, i, ser_contract(c)),
    ensures
        parse_contract(t, i) == Some((c, i + ser_contract(c).len())),
{
    reveal_strlit("      - ");
    reveal_strlit("    terms: ");
    let l1 = fline("  - contract_id: "@, c.contract_id);
    let l2 = fline("    status: "@, c.status);
    let h1 = "    parties:\n"@;
    let lp = ser_parties(c.parties);
    let l3 = fline("    terms: "@, c.terms);
    let h2 = "    consequence:\n"@;
    let l4 = fline("      on_success: "@, c.consequence.on_success);
    let l5 = fline("      on_failure: "@, c.consequence.on_failure);
    assert(ser_contract(c) =~= l1 + (l2 + (h1 + (lp + (l3 + (h2 + (l4 + l5)))))));
    lemma_at_concat(t, i, l1, l2 + (h1 + (lp + (l3 + (h2 + (l4 + l5))))));
    lemma_fline_print(t, i, "  - contract_id: "@, c.contract_id);
    let i1 = i + l1.len();
    lemma_at_concat(t, i1, l2, h1 + (lp + (l3 + (h2 + (l4 + l5)))));
    lemma_fline_print(t, i1, "    status: "@, c.status);
    let i2 = i1 + l2.len();
    lemma_at_concat(t, i2, h1, lp + (l3 + (h2 + (l4 + l5))));
    let i3 = i2 + h1.len();
    lemma_at_concat(t, i3, lp, l3 + (h2 + (l4 + l5)));
    let i4 = i3 + lp.len();
    assert(at(t, i4, "    terms: "@)) by {
        lemma_at_concat(t, i4, l3, h2 + (l4 + l5));
        lemma_fline_starts(t, i4, "    terms: "@, c.terms);
    }
    lemma_not_at(t, i4, "      - "@, "    terms: "@, 4);
    lemma_parties_print(t, i3, c.parties);
    lemma_at_concat(t, i4, l3, h2 + (l4 + l5));
    lemma_fline_print(t, i4, "    terms: "@, c.terms);
    let i5 = i4 + l3.len();
    lemma_at_concat(t, i5, h2, l4 + l5);
    let i6 = i5 + h2.len();
    lemma_at_concat(t, i6, l4, l5);
    lemma_fline_print(t, i6, "      on_success: "@, c.consequence.on_success);
    let i7 = i6 + l4.len();
    lemma_fline_print(t, i7, "      on_failure: "@, c.consequence.on_failure);
}

pub open spec fn ser_contracts(cs: Seq<ContractV>) -> Seq<char>
    decreases cs.len(),
{
    if cs.len() == 0 {
        Seq::empty()
    } else {
        ser_contract(cs[0]) + ser_contracts(cs.drop_first())
    }
}

pub open spec fn parse_contracts(t: Seq<char>, i: int) -> Option<(Seq<ContractV>, int)>
    decreases t.len() - i,
    when 0 <= i <= t.len()
{
    if !at(t, i, "  - contract_id: "@) {
        Some((Seq::empty(), i))
    } else {
        match parse_contract(t, i) {
            None => None,
            Some((c, j)) => if i < j <= t.len() {
                match parse_contracts(t, j) {
                    Some((r, j2)) => Some((seq![c] + r, j2)),
                    None => None,
                }
            } else {
                None
            },
        }
    }
}

#[verifier::rlimit(60)]
pub proof fn lemma_contracts_print(t: Seq<char>, i: int, cs: Seq<ContractV>)
    requires
        at(t, i, ser_contracts(cs)),
        !at(t, i + ser_contracts(cs).len(), "  - contract_id: "@),
    ensures
        parse_contracts(t, i) == Some((cs, i + ser_contracts(cs).len())),
    decreases cs.len(),
{
    if cs.len() == 0 {
    } else {
        let l1 = ser_contract(cs[0]);
        let rest = ser_contracts(cs.drop_first());
        assert(ser_contracts(cs) =~= l1 + rest);
        lemma_at_concat(t, i, l1, rest);
        assert(at(t, i, fline("  - contract_id: "@, cs[0].contract_id))) by {
            assert(l1 =~= fline("  - contract_id: "@, cs[0].contract_id) + (fline(
                "    status: "@,
                cs[0].status,
            ) + ("    parties:\n"@ + (ser_parties(cs[0].parties) + (fline(
                "    terms: "@,
                cs[0].terms,
            ) + ("    consequence:\n"@ + (fline(
                "      on_success: "@,
                cs[0].consequence.on_success,
            ) + fline("      on_failure: "@, cs[0].consequence.on_failure))))))));
            lemma_at_concat(t, i, fline("  - contract_id: "@, cs[0].contract_id), fline(
                "    status: "@,
                cs[0].status,
            ) + ("    parties:\n"@ + (ser_parties(cs[0].parties) + (fline(
                "    terms: "@,
                cs[0].terms,
            ) + ("    consequence:\n"@ + (fline(
                "      on_success: "@,
                cs[0].consequence.on_success,
            ) + fline("      on_failure: "@, cs[0].consequence.on_failure)))))));
        }
        lemma_fline_starts(t, i, "  - contract_id: "@, cs[0].contract_id);
        lemma_contract_print(t, i, cs[0]);
        let j = i + l1.len();
        lemma_contracts_print(t, j, cs.drop_first());
        assert(l1.len() > 0);
        assert(seq![cs[0]] + cs.drop_first() =~= cs);
    }
}

// --- reputation ---

pub open spec fn ser_repev(e: ReputationEventV) -> Seq<char> {
    fline("      - event: "@, e.event) + iline("        change: "@, e.change) + fline(
        "        timestamp: "@,
        e.timestamp,
    )
}

pub open spec fn parse_repev(t: Seq<char>, i: int) -> Option<(ReputationEventV, int)> {
    match parse_fline(t, i, "      - event: "@) {
        None => None,
        Some((event, i1)) => match parse_iline(t, i1, "        change: "@) {
            None => None,
            Some((change, i2)) => match parse_fline(t, i2, "        timestamp: "@) {
                None => None,
                Some((timestamp, i3)) => Some((ReputationEventV { event, change, timestamp }, i3)),
            },
        },
    }
}

pub proof fn lemma_repev_print(t: Seq<char>, i: int, e: ReputationEventV)
    requires
        at(t, i, ser_repev(e)),
        -0x8000_0000_0000_0000 <= e.change <= 0x7fff_ffff_ffff_ffff,
    ensures
        parse_repev(t, i) == Some((e, i + ser_repev(e).len())),
{
    let l1 = fline("      - event: "@, e.event);
    let l2 = iline("        change: "@, e.change);
    let l3 = fline("        timestamp: "@, e.timestamp);
    assert(ser_repev(e) =~= l1 + (l2 + l3));
    lemma_at_concat(t, i, l1, l2 + l3);
    lemma_fline_print(t, i, "      - event: "@, e.event);
    let i1 = i + l1.len();
    lemma_at_concat(t, i1, l2, l3);
    lemma_iline_print(t, i1, "        change: "@, e.change);
    let i2 = i1 + l2.len();
    lemma_fline_print(t, i2, "        timestamp: "@, e.timestamp);
}

pub open spec fn ser_repevs(es: Seq<ReputationEventV>) -> Seq<char>
    decreases es.len(),
{
    if es.len() == 0 {
        Seq::empty()
    } else {
        ser_repev(es[0]) + ser_repevs(es.drop_first())
    }
}

pub open spec fn parse_repevs(t: Seq<char>, i: int) -> Option<(Seq<ReputationEventV>, int)>
    decreases t.len() - i,
    when 0 <= i <= t.len()
{
    if !at(t, i, "      - "@) {
        Some((Seq::empty(), i))
    } else {
        match parse_repev(t, i) {
            None => None,
            Some((e, j)) => if i < j <= t.len() {
                match parse_repevs(t, j) {
                    Some((r, j2)) => Some((seq![e] + r, j2)),
                    None => None,
                }
            } else {
                None
            },
        }
    }
}

/// Every change within the signed 64-bit range.
pub open spec fn repevs_ranged(es: Seq<ReputationEventV>) -> bool {
    forall|k: int|
        0 <= k < es.len() ==> -0x8000_0000_0000_0000 <= (#[trigger] es[k]).change
            <= 0x7fff_ffff_ffff_ffff
}

pub proof fn lemma_repevs_print(t: Seq<char>, i: int, es: Seq<ReputationEventV>)
    requires
        at(t, i, ser_repevs(es)),
        !at(t, i + ser_repevs(es).len(), "      - "@),
        repevs_ranged(es),
    ensures
        parse_repevs(t, i) == Some((es, i + ser_repevs(es).len())),
    decreases es.len(),
{
    reveal_strlit("      - ");
    reveal_strlit("      - event: ");
    if es.len() == 0 {
    } else {
        let l1 = ser_repev(es[0]);
        let rest = ser_repevs(es.drop_first());
        assert(ser_repevs(es) =~= l1 + rest);
        lemma_at_concat(t, i, l1, rest);
        assert(at(t, i, fline("      - event: "@, es[0].event))) by {
            assert(l1 =~= fline("      - event: "@, es[0].event) + (iline(
                "        change: "@,
                es[0].change,
            ) + fline("        timestamp: "@, es[0].timestamp)));
            lemma_at_concat(t, i, fline("      - event: "@, es[0].event), iline(
                "        change: "@,
                es[0].change,
            ) + fline("        timestamp: "@, es[0].timestamp));
        }
        lemma_fline_starts(t, i, "      - event: "@, es[0].event);
        lemma_at_prefix(t, i, "      - event: "@, "      - "@);
        lemma_repev_print(t, i, es[0]);
        let j = i + l1.len();
        assert(es.drop_first().len() < es.len());
        assert(repevs_ranged(es.drop_first())) by {
            assert(forall|k: int|
                0 <= k < es.len() - 1 ==> #[trigger] es.drop_first()[k] == es[k + 1]);
        }
        lemma_repevs_print(t, j, es.drop_first());
        assert(l1.len() > 0);
        assert(seq![es[0]] + es.drop_first() =~= es);
    }
}

pub open spec fn ser_rep(r: ReputationV) -> Seq<char> {
    fline("  - score_name: "@, r.score_name) + iline("    value: "@, r.value)
        + "    history:\n"@ + ser_repevs(r.history)
}

pub open spec fn parse_rep(t: Seq<char>, i: int) -> Option<(ReputationV, int)>
    recommends
        0 <= i <= t.len(),
{
    match parse_fline(t, i, "  - score_name: "@) {
        None => None,
        Some((score_name, i1)) => match parse_iline(t, i1, "    value: "@) {
            None => None,
            Some((value, i2)) => {
                if !at(t, i2, "    history:\n"@) {
                    None
                } else {
                    let i3 = i2 + "    history:\n"@.len();
                    if 0 <= i3 <= t.len() {
                        match parse_repevs(t, i3) {
                            None => None,
                            Some((history, i4)) => Some(
                                (ReputationV { score_name, value, history }, i4),
                            ),
                        }
                    } else {
                        None
                    }
                }
            },
        },
    }
}

pub proof fn lemma_rep_print(t: Seq<char>, i: int, r: ReputationV)
    requires
        at(t, i, ser_rep(r)),
        !at(t, i + ser_rep(r).len(), "      - "@),
        -0x8000_0000_0000_0000 <= r.value <= 0x7fff_ffff_ffff_ffff,
        repevs_ranged(r.history),
    ensures
        parse_rep(t, i) == Some((r, i + ser_rep(r).len())),
{
    let l1 = fline("  - score_name: "@, r.score_name);
    let l2 = iline("    value: "@, r.value);
    let h1 = "    history:\n"@;
    let lh = ser_repevs(r.history);
    assert(ser_rep(r) =~= l1 + (l2 + (h1 + lh)));
    lemma_at_concat(t, i, l1, l2 + (h1 + lh));
    lemma_fline_print(t, i, "  - score_name: "@, r.score_name);
    let i1 = i + l1.len();
    lemma_at_concat(t, i1, l2, h1 + lh);
    lemma_iline_print(t, i1, "    value: "@, r.value);
    let i2 = i1 + l2.len();
    lemma_at_concat(t, i2, h1, lh);
    let i3 = i2 + h1.len();
    lemma_repevs_print(t, i3, r.history);
}

pub open spec fn ser_reps(rs: Seq<ReputationV>) -> Seq<char>
    decreases rs.len(),
{
    if rs.len() == 0 {
        Seq::empty()
    } else {
        ser_rep(rs[0]) + ser_reps(rs.drop_first())
    }
}

pub open spec fn parse_reps(t: Seq<char>, i: int) -> Option<(Seq<ReputationV>, int)>
    decreases t.len() - i,
    when 0 <= i <= t.len()
{
    if !at(t, i, "  - score_name: "@) {
        Some((Seq::empty(), i))
    } else {
        match parse_rep(t, i) {
            None => None,
            Some((r, j)) => if i < j <= t.len() {
                match parse_reps(t, j) {
                    Some((rr, j2)) => Some((seq![r] + rr, j2)),
                    None => None,
                }
            } else {
                None
            },
        }
    }
}

/// Every reputation value and change within the signed 64-bit range.
pub open spec fn reps_ranged(rs: Seq<ReputationV>) -> bool {
    forall|k: int|
        0 <= k < rs.len() ==> -0x8000_0000_0000_0000 <= (#[trigger] rs[k]).value
            <= 0x7fff_ffff_ffff_ffff && repevs_ranged(rs[k].history)
}

#[verifier::rlimit(60)]
pub proof fn lemma_reps_print(t: Seq<char>, i: int, rs: Seq<ReputationV>)
    requires
        at(t, i, ser_reps(rs)),
        !at(t, i + ser_reps(rs).len(), "  - score_name: "@),
        !at(t, i + ser_reps(rs).len(), "      - "@),
        reps_ranged(rs),
    ensures
        parse_reps(t, i) == Some((rs, i + ser_reps(rs).len())),
    decreases rs.len(),
{
    reveal_strlit("  - score_name: ");
    reveal_strlit("      - ");
    if rs.len() == 0 {
    } else {
        let l1 = ser_rep(rs[0]);
        let rest = ser_reps(rs.drop_first());
        assert(ser_reps(rs) =~= l1 + rest);
        lemma_at_concat(t, i, l1, rest);
        let j = i + l1.len();
        if rs.len() == 1 {
            assert(rest.len() == 0);
            assert(!at(t, j, "      - "@));
        } else {
            assert(at(t, j, ser_rep(rs.drop_first()[0]))) by {
                assert(rest =~= ser_rep(rs.drop_first()[0]) + ser_reps(
                    rs.drop_first().drop_first(),
                ));
                lemma_at_concat(t, j, ser_rep(rs.drop_first()[0]), ser_reps(
                    rs.drop_first().drop_first(),
                ));
            }
            assert(at(t, j, "  - score_name: "@)) by {
                let q = rs.drop_first()[0];
                assert(ser_rep(q) =~= fline("  - score_name: "@, q.score_name) + (iline(
                    "    value: "@,
                    q.value,
                ) + ("    history:\n"@ + ser_repevs(q.history))));
                lemma_at_concat(t, j, fline("  - score_name: "@, q.score_name), iline(
                    "    value: "@,
                    q.value,
                ) + ("    history:\n"@ + ser_repevs(q.history)));
                lemma_fline_starts(t, j, "  - score_name: "@, q.score_name);
            }
            lemma_not_at(t, j, "      - "@, "  - score_name: "@, 2);
        }
        assert(at(t, i, "  - score_name: "@)) by {
            assert(l1 =~= fline("  - score_name: "@, rs[0].score_name) + (iline(
                "    value: "@,
                rs[0].value,
            ) + ("    history:\n"@ + ser_repevs(rs[0].history))));
            lemma_at_concat(t, i, fline("  - score_name: "@, rs[0].score_name), iline(
                "    value: "@,
                rs[0].value,
            ) + ("    history:\n"@ + ser_repevs(rs[0].history)));
            lemma_fline_starts(t, i, "  - score_name: "@, rs[0].score_name);
        }
        lemma_rep_print(t, i, rs[0]);
        assert(reps_ranged(rs.drop_first())) by {
            assert(forall|k: int|
                0 <= k < rs.len() - 1 ==> #[trigger] rs.drop_first()[k] == rs[k + 1]);
        }
        assert(l1.len() > 0);
        lemma_reps_print(t, j, rs.drop_first());
        assert(seq![rs[0]] + rs.drop_first() =~= rs);
    }
}

// --- consent ---

pub open spec fn ser_consent1(c: ConsentV) -> Seq<char> {
    fline("  - granted_to: "@, c.granted_to) + "    fields:\n"@ + ser_parties(c.fields) + fline(
        "    expires_at: "@,
        c.expires_at,
    ) + fline("    purpose: "@, c.purpose)
}

pub open spec fn parse_consent1(t: Seq<char>, i: int) -> Option<(ConsentV, int)>
    recommends
        0 <= i <= t.len(),
{
    match parse_fline(t, i, "  - granted_to: "@) {
        None => None,
        Some((granted_to, i1)) => {
            if !at(t, i1, "    fields:\n"@) {
                None
            } else {
                let i2 = i1 + "    fields:\n"@.len();
                if 0 <= i2 <= t.len() {
                    match parse_parties(t, i2) {
                        None => None,
                        Some((fields, i3)) => match parse_fline(t, i3, "    expires_at: "@) {
                            None => None,
                            Some((expires_at, i4)) => match parse_fline(t, i4, "    purpose: "@) {
                                None => None,
                                Some((purpose, i5)) => Some(
                                    (ConsentV { granted_to, fields, expires_at, purpose }, i5),
                                ),
                            },
                        },
                    }
                } else {
                    None
                }
            }
        },
    }
}

pub proof fn lemma_consent1_print(t: Seq<char>, i: int, c: ConsentV)
    requires
        at(t, i, ser_consent1(c)),
    ensures
        parse_consent1(t, i) == Some((c, i + ser_consent1(c).len())),
{
    reveal_strlit("      - ");
    reveal_strlit("    expires_at: ");
    let l1 = fline("  - granted_to: "@, c.granted_to);
    let h1 = "    fields:\n"@;
    let lf = ser_parties(c.fields);
    let l2 = fline("    expires_at: "@, c.expires_at);
    let l3 = fline("    purpose: "@, c.purpose);
    assert(ser_consent1(c) =~= l1 + (h1 + (lf + (l2 + l3))));
    lemma_at_concat(t, i, l1, h1 + (lf + (l2 + l3)));
    lemma_fline_print(t, i, "  - granted_to: "@, c.granted_to);
    let i1 = i + l1.len();
    lemma_at_concat(t, i1, h1, lf + (l2 + l3));
    let i2 = i1 + h1.len();
    lemma_at_concat(t, i2, lf, l2 + l3);
    let i3 = i2 + lf.len();
    assert(at(t, i3, "    expires_at: "@)) by {
        lemma_at_concat(t, i3, l2, l3);
        lemma_fline_starts(t, i3, "    expires_at: "@, c.expires_at);
    }
    lemma_not_at(t, i3, "      - "@, "    expires_at: "@, 4);
    lemma_parties_print(t, i2, c.fields);
    lemma_at_concat(t, i3, l2, l3);
    lemma_fline_print(t, i3, "    expires_at: "@, c.expires_at);
    let i4 = i3 + l2.len();
    lemma_fline_print(t, i4, "    purpose: "@, c.purpose);
}

pub open spec fn ser_consents(cs: Seq<ConsentV>) -> Seq<char>
    decreases cs.len(),
{
    if cs.len() == 0 {
        Seq::empty()
    } else {
        ser_consent1(cs[0]) + ser_consents(cs.drop_first())
    }
}

pub open spec fn parse_consents(t: Seq<char>, i: int) -> Option<(Seq<ConsentV>, int)>
    decreases t.len() - i,
    when 0 <= i <= t.len()
{
    if !at(t, i, "  - granted_to: "@) {
        Some((Seq::empty(), i))
    } else {
        match parse_consent1(t, i) {
            None => None,
            Some((c, j)) => if i < j <= t.len() {
                match parse_consents(t, j) {
                    Some((r, j2)) => Some((seq![c] + r, j2)),
                    None => None,
                }
            } else {
                None
            },
        }
    }
}

pub proof fn lemma_consents_print(t: Seq<char>, i: int, cs: Seq<ConsentV>)
    requires
        at(t, i, ser_consents(cs)),
        !at(t, i + ser_consents(cs).len(), "  - granted_to: "@),
    ensures
        parse_consents(t, i) == Some((cs, i + ser_consents(cs).len())),
    decreases cs.len(),
{
    if cs.len() == 0 {
    } else {
        let l1 = ser_consent1(cs[0]);
        let rest = ser_consents(cs.drop_first());
        assert(ser_consents(cs) =~= l1 + rest);
        lemma_at_concat(t, i, l1, rest);
        assert(at(t, i, fline("  - granted_to: "@, cs[0].granted_to))) by {
            assert(l1 =~= fline("  - granted_to: "@, cs[0].granted_to) + ("    fields:\n"@
                + (ser_parties(cs[0].fields) + (fline("    expires_at: "@, cs[0].expires_at)
                + fline("    purpose: "@, cs[0].purpose)))));
            lemma_at_concat(t, i, fline("  - granted_to: "@, cs[0].granted_to), "    fields:\n"@
                + (ser_parties(cs[0].fields) + (fline("    expires_at: "@, cs[0].expires_at)
                + fline("    purpose: "@, cs[0].purpose))));
        }
        lemma_fline_starts(t, i, "  - granted_to: "@, cs[0].granted_to);
        lemma_consent1_print(t, i, cs[0]);
        let j = i + l1.len();
        lemma_consents_print(t, j, cs.drop_first());
        assert(l1.len() > 0);
        assert(seq![cs[0]] + cs.drop_first() =~= cs);
    }
}

// --- whole document ---

pub open spec fn sec_creds(cs: Seq<CredentialV>) -> Seq<char> {
    if cs.len() == 0 {
        Seq::empty()
    } else {
        "credentials:\n"@ + ser_creds(cs)
    }
}

pub open spec fn sec_proofs(ps: Seq<ProofV>) -> Seq<char> {
    if ps.len() == 0 {
        Seq::empty()
    } else {
        "proofs:\n"@ + ser_proofs(ps)
    }
}

pub open spec fn sec_contracts(cs: Seq<ContractV>) -> Seq<char> {
    if cs.len() == 0 {
        Seq::empty()
    } else {
        "contracts:\n"@ + ser_contracts(cs)
    }
}

pub open spec fn sec_reps(rs: Seq<ReputationV>) -> Seq<char> {
    if rs.len() == 0 {
        Seq::empty()
    } else {
        "reputation:\n"@ + ser_reps(rs)
    }
}

pub open spec fn sec_consents(cs: Seq<ConsentV>) -> Seq<char> {
    if cs.len() == 0 {
        Seq::empty()
    } else {
        "consent:\n"@ + ser_consents(cs)
    }
}

/// The canonical text of a document: fixed top-level order, empty
/// trust-artifact sequences omitted entirely.
pub open spec fn ser_doc(v: IdentityV) -> Seq<char> {
    "identity:\n"@ + fline("  id: "@, v.identity.id) + fline("  version: "@, v.identity.version)
        + fline("  schema_url: "@, v.identity.schema_url) + tline(
        "  created_at: "@,
        v.identity.created_at,
    ) + tline("  updated_at: "@, v.identity.updated_at) + "system:\n"@ + "  public_keys:\n"@
        + ser_pubkeys(v.system.public_keys) + "core:\n"@ + fline("  name: "@, v.core.name)
        + fline("  bio: "@, v.core.bio) + sec_creds(v.credentials) + sec_proofs(v.proofs)
        + sec_contracts(v.contracts) + sec_reps(v.reputation) + sec_consents(v.consent)
}

pub open spec fn parse_sec_creds(t: Seq<char>, i: int) -> Option<(Seq<CredentialV>, int)>
    recommends
        0 <= i <= t.len(),
{
    if at(t, i, "credentials:\n"@) {
        match parse_creds(t, i + "credentials:\n"@.len()) {
            Some((cs, j)) => if cs.len() > 0 {
                Some((cs, j))
            } else {
                None
            },
            None => None,
        }
    } else {
        Some((Seq::empty(), i))
    }
}

pub open spec fn parse_sec_proofs(t: Seq<char>, i: int) -> Option<(Seq<ProofV>, int)>
    recommends
        0 <= i <= t.len(),
{
    if at(t, i, "proofs:\n"@) {
        match parse_proofs(t, i + "proofs:\n"@.len()) {
            Some((ps, j)) => if ps.len() > 0 {
                Some((ps, j))
            } else {
                None
            },
            None => None,
        }
    } else {
        Some((Seq::empty(), i))
    }
}

pub open spec fn parse_sec_contracts(t: Seq<char>, i: int) -> Option<(Seq<ContractV>, int)>
    recommends
        0 <= i <= t.len(),
{
    if at(t, i, "contracts:\n"@) {
        match parse_contracts(t, i + "contracts:\n"@.len()) {
            Some((cs, j)) => if cs.len() > 0 {
                Some((cs, j))
            } else {
                None
            },
            None => None,
        }
    } else {
        Some((Seq::empty(), i))
    }
}

pub open spec fn parse_sec_reps(t: Seq<char>, i: int) -> Option<(Seq<ReputationV>, int)>
    recommends
        0 <= i <= t.len(),
{
    if at(t, i, "reputation:\n"@) {
        match parse_reps(t, i + "reputation:\n"@.len()) {
            Some((rs, j)) => if rs.len() > 0 {
                Some((rs, j))
            } else {
                None
            },
            None => None,
        }
    } else {
        Some((Seq::empty(), i))
    }
}

pub open spec fn parse_sec_consents(t: Seq<char>, i: int) -> Option<(Seq<ConsentV>, int)>
    recommends
        0 <= i <= t.len(),
{
    if at(t, i, "consent:\n"@) {
        match parse_consents(t, i + "consent:\n"@.len()) {
            Some((cs, j)) => if cs.len() > 0 {
                Some((cs, j))
            } else {
                None
            },
            None => None,
        }
    } else {
        Some((Seq::empty(), i))
    }
}

/// The strict parse of a whole document text: exactly the canonical form,
/// consumed to the end.
pub open spec fn parse_doc(t: Seq<char>) -> Option<IdentityV> {
    if !at(t, 0, "identity:\n"@) {
        None
    } else {
        let i1 = "identity:\n"@.len() as int;
        match parse_fline(t, i1, "  id: "@) {
            None => None,
            Some((id, i2)) => match parse_fline(t, i2, "  version: "@) {
                None => None,
                Some((version, i3)) => match parse_fline(t, i3, "  schema_url: "@) {
                    None => None,
                    Some((schema_url, i4)) => match parse_tline(t, i4, "  created_at: "@) {
                        None => None,
                        Some((created_at, i5)) => match parse_tline(t, i5, "  updated_at: "@) {
                            None => None,
                            Some((updated_at, i6)) => {
                                if !at(t, i6, "system:\n"@) {
                                    None
                                } else {
                                    let i7 = i6 + "system:\n"@.len();
                                    if !at(t, i7, "  public_keys:\n"@) {
                                        None
                                    } else {
                                        let i8 = i7 + "  public_keys:\n"@.len();
                                        match parse_pubkeys(t, i8) {
                                            None => None,
                                            Some((public_keys, i9)) => {
                                                if !at(t, i9, "core:\n"@) {
                                                    None
                                                } else {
                                                    let i10 = i9 + "core:\n"@.len();
                                                    match parse_fline(t, i10, "  name: "@) {
                                                        None => None,
                                                        Some((name, i11)) => match parse_fline(
                                                            t,
                                                            i11,
                                                            "  bio: "@,
                                                        ) {
                                                            None => None,
                                                            Some((bio, i12)) => parse_doc_tail(
                                                                t,
                                                                i12,
                                                                id,
                                                                version,
                                                                schema_url,
                                                                created_at,
                                                                updated_at,
                                                                public_keys,
                                                                name,
                                                                bio,
                                                            ),
                                                        },
                                                    }
                                                }
                                            },
                                        }
                                    }
                                }
                            },
                        },
                    },
                },
            },
        }
    }
}

pub open spec fn parse_doc_tail(
    t: Seq<char>,
    i: int,
    id: Seq<char>,
    version: Seq<char>,
    schema_url: Seq<char>,
    created_at: Timestamp,
    updated_at: Timestamp,
    public_keys: Seq<PublicKeyV>,
    name: Seq<char>,
    bio: Seq<char>,
) -> Option<IdentityV>
    recommends
        0 <= i <= t.len(),
{
    match parse_sec_creds(t, i) {
        None => None,
        Some((credentials, j1)) => match parse_sec_proofs(t, j1) {
            None => None,
            Some((proofs, j2)) => match parse_sec_contracts(t, j2) {
                None => None,
                Some((contracts, j3)) => match parse_sec_reps(t, j3) {
                    None => None,
                    Some((reputation, j4)) => match parse_sec_consents(t, j4) {
                        None => None,
                        Some((consent, j5)) => {
                            if j5 == t.len() {
                                Some(
                                    IdentityV {
                                        identity: crate::model::IdentityBlockV {
                                            id,
                                            version,
                                            schema_url,
                                            created_at,
                                            updated_at,
                                        },
                                        system: crate::model::SystemBlockV { public_keys },
                                        core: crate::model::CoreBlockV { name, bio },
                                        credentials,
                                        proofs,
                                        contracts,
                                        reputation,
                                        consent,
                                    },
                                )
                            } else {
                                None
                            }
                        },
                    },
                },
            },
        },
    }
}

/// A position that is at the end of the text, or whose character is not a
/// space, cannot begin an indented list element.
proof fn lemma_space_blocked(t: Seq<char>, j: int, p: Seq<char>)
    requires
        p.len() >= 1,
        p[0] == ' ',
        0 <= j <= t.len(),
        j == t.len() || t[j] != ' ',
    ensures
        !at(t, j, p),
{
    if at(t, j, p) {
        assert(t.subrange(j, j + p.len())[0] == p[0]);
    }
}

proof fn lemma_sec_creds_print(t: Seq<char>, i: int, cs: Seq<CredentialV>)
    requires
        at(t, i, sec_creds(cs)),
        cs.len() == 0 ==> !at(t, i, "credentials:\n"@),
        i + sec_creds(cs).len() == t.len() || t[i + sec_creds(cs).len()] != ' ',
        i + sec_creds(cs).len() <= t.len(),
    ensures
        parse_sec_creds(t, i) == Some((cs, i + sec_creds(cs).len())),
{
    reveal_strlit("  - claim: ");
    if cs.len() == 0 {
    } else {
        assert(sec_creds(cs) =~= "credentials:\n"@ + ser_creds(cs));
        lemma_at_concat(t, i, "credentials:\n"@, ser_creds(cs));
        lemma_space_blocked(t, i + sec_creds(cs).len(), "  - claim: "@);
        lemma_creds_print(t, i + "credentials:\n"@.len(), cs);
    }
}

proof fn lemma_sec_proofs_print(t: Seq<char>, i: int, ps: Seq<ProofV>)
    requires
        at(t, i, sec_proofs(ps)),
        ps.len() == 0 ==> !at(t, i, "proofs:\n"@),
        i + sec_proofs(ps).len() == t.len() || t[i + sec_proofs(ps).len()] != ' ',
        i + sec_proofs(ps).len() <= t.len(),
    ensures
        parse_sec_proofs(t, i) == Some((ps, i + sec_proofs(ps).len())),
{
    reveal_strlit("  - proof_id: ");
    reveal_strlit("      - ");
    if ps.len() == 0 {
    } else {
        assert(sec_proofs(ps) =~= "proofs:\n"@ + ser_proofs(ps));
        lemma_at_concat(t, i, "proofs:\n"@, ser_proofs(ps));
        lemma_space_blocked(t, i + sec_proofs(ps).len(), "  - proof_id: "@);
        lemma_space_blocked(t, i + sec_proofs(ps).len(), "      - "@);
        lemma_proofs_print(t, i + "proofs:\n"@.len(), ps);
    }
}

proof fn lemma_sec_contracts_print(t: Seq<char>, i: int, cs: Seq<ContractV>)
    requires
        at(t, i, sec_contracts(cs)),
        cs.len() == 0 ==> !at(t, i, "contracts:\n"@),
        i + sec_contracts(cs).len() == t.len() || t[i + sec_contracts(cs).len()] != ' ',
        i + sec_contracts(cs).len() <= t.len(),
    ensures
        parse_sec_contracts(t, i) == Some((cs, i + sec_contracts(cs).len())),
{
    reveal_strlit("  - contract_id: ");
    if cs.len() == 0 {
    } else {
        assert(sec_contracts(cs) =~= "contracts:\n"@ + ser_contracts(cs));
        lemma_at_concat(t, i, "contracts:\n"@, ser_contracts(cs));
        lemma_space_blocked(t, i + sec_contracts(cs).len(), "  - contract_id: "@);
        lemma_contracts_print(t, i + "contracts:\n"@.len(), cs);
    }
}

proof fn lemma_sec_reps_print(t: Seq<char>, i: int, rs: Seq<ReputationV>)
    requires
        at(t, i, sec_reps(rs)),
        rs.len() == 0 ==> !at(t, i, "reputation:\n"@),
        i + sec_reps(rs).len() == t.len() || t[i + sec_reps(rs).len()] != ' ',
        i + sec_reps(rs).len() <= t.len(),
        reps_ranged(rs),
    ensures
        parse_sec_reps(t, i) == Some((rs, i + sec_reps(rs).len())),
{
    reveal_strlit("  - score_name: ");
    reveal_strlit("      - ");
    if rs.len() == 0 {
    } else {
        assert(sec_reps(rs) =~= "reputation:\n"@ + ser_reps(rs));
        lemma_at_concat(t, i, "reputation:\n"@, ser_reps(rs));
        lemma_space_blocked(t, i + sec_reps(rs).len(), "  - score_name: "@);
        lemma_space_blocked(t, i + sec_reps(rs).len(), "      - "@);
        lemma_reps_print(t, i + "reputation:\n"@.len(), rs);
    }
}

proof fn lemma_sec_consents_print(t: Seq<char>, i: int, cs: Seq<ConsentV>)
    requires
        at(t, i, sec_consents(cs)),
        cs.len() == 0 ==> !at(t, i, "consent:\n"@),
        i + sec_consents(cs).len() == t.len() || t[i + sec_consents(cs).len()] != ' ',
        i + sec_consents(cs).len() <= t.len(),
    ensures
        parse_sec_consents(t, i) == Some((cs, i + sec_consents(cs).len())),
{
    reveal_strlit("  - granted_to: ");
    if cs.len() == 0 {
    } else {
        assert(sec_consents(cs) =~= "consent:\n"@ + ser_consents(cs));
        lemma_at_concat(t, i, "consent:\n"@, ser_consents(cs));
        lemma_space_blocked(t, i + sec_consents(cs).len(), "  - granted_to: "@);
        lemma_consents_print(t, i + "consent:\n"@.len(), cs);
    }
}

/// Positions where a remaining run of trailing sections begins carry one
/// of the section headers, or are the end of the text.
#[verifier::rlimit(100)]
#[verifier::spinoff_prover]
proof fn lemma_doc_tail_print(t: Seq<char>, i: int, v: IdentityV)
    requires
        at(t, i, sec_creds(v.credentials)),
        at(t, i + sec_creds(v.credentials).len(), sec_proofs(v.proofs)),
        at(
            t,
            i + sec_creds(v.credentials).len() + sec_proofs(v.proofs).len(),
            sec_contracts(v.contracts),
        ),
        at(
            t,
            i + sec_creds(v.credentials).len() + sec_proofs(v.proofs).len() + sec_contracts(
                v.contracts,
            ).len(),
            sec_reps(v.reputation),
        ),
        at(
            t,
            i + sec_creds(v.credentials).len() + sec_proofs(v.proofs).len() + sec_contracts(
                v.contracts,
            ).len() + sec_reps(v.reputation).len(),
            sec_consents(v.consent),
        ),
        i + sec_creds(v.credentials).len() + sec_proofs(v.proofs).len() + sec_contracts(
            v.contracts,
        ).len() + sec_reps(v.reputation).len() + sec_consents(v.consent).len() == t.len(),
        reps_ranged(v.reputation),
    ensures
        parse_sec_creds(t, i) == Some((v.credentials, i + sec_creds(v.credentials).len())),
        parse_sec_proofs(t, i + sec_creds(v.credentials).len()) == Some(
            (v.proofs, i + sec_creds(v.credentials).len() + sec_proofs(v.proofs).len()),
        ),
        parse_sec_contracts(
            t,
            i + sec_creds(v.credentials).len() + sec_proofs(v.proofs).len(),
        ) == Some(
            (
                v.contracts,
                i + sec_creds(v.credentials).len() + sec_proofs(v.proofs).len() + sec_contracts(
                    v.contracts,
                ).len(),
            ),
        ),
        parse_sec_reps(
            t,
            i + sec_creds(v.credentials).len() + sec_proofs(v.proofs).len() + sec_contracts(
                v.contracts,
            ).len(),
        ) == Some(
            (
                v.reputation,
                i + sec_creds(v.credentials).len() + sec_proofs(v.proofs).len() + sec_contracts(
                    v.contracts,
                ).len() + sec_reps(v.reputation).len(),
            ),
        ),
        parse_sec_consents(
            t,
            i + sec_creds(v.credentials).len() + sec_proofs(v.proofs).len() + sec_contracts(
                v.contracts,
            ).len() + sec_reps(v.reputation).len(),
        ) == Some((v.consent, t.len() as int)),
{
    reveal_strlit("credentials:\n");
    reveal_strlit("proofs:\n");
    reveal_strlit("contracts:\n");
    reveal_strlit("reputation:\n");
    reveal_strlit("consent:\n");
    let t1 = sec_creds(v.credentials);
    let t2 = sec_proofs(v.proofs);
    let t3 = sec_contracts(v.contracts);
    let t4 = sec_reps(v.reputation);
    let t5 = sec_consents(v.consent);
    let b1 = i + t1.len();
    let b2 = b1 + t2.len();
    let b3 = b2 + t3.len();
    let b4 = b3 + t4.len();
    let b5 = b4 + t5.len();
    assert(b5 == t.len());

    // Head facts at each boundary.
    if v.consent.len() > 0 {
        assert(t5 =~= "consent:\n"@ + ser_consents(v.consent));
        lemma_at_concat(t, b4, "consent:\n"@, ser_consents(v.consent));
        assert(at(t, b4, "consent:\n"@));
    } else {
        assert(b4 == t.len());
    }
    if v.reputation.len() > 0 {
        assert(t4 =~= "reputation:\n"@ + ser_reps(v.reputation));
        lemma_at_concat(t, b3, "reputation:\n"@, ser_reps(v.reputation));
        assert(at(t, b3, "reputation:\n"@));
    } else {
        assert(b3 == b4);
    }
    if v.contracts.len() > 0 {
        assert(t3 =~= "contracts:\n"@ + ser_contracts(v.contracts));
        lemma_at_concat(t, b2, "contracts:\n"@, ser_contracts(v.contracts));
        assert(at(t, b2, "contracts:\n"@));
    } else {
        assert(b2 == b3);
    }
    if v.proofs.len() > 0 {
        assert(t2 =~= "proofs:\n"@ + ser_proofs(v.proofs));
        lemma_at_concat(t, b1, "proofs:\n"@, ser_proofs(v.proofs));
        assert(at(t, b1, "proofs:\n"@));
    } else {
        assert(b1 == b2);
    }

    // First characters at the section boundaries.
    assert(b4 == t.len() || t[b4] != ' ') by {
        if b4 < t.len() {
            assert(at(t, b4, "consent:\n"@));
            assert(t.subrange(b4, b4 + "consent:\n"@.len())[0] == 'c');
        }
    }
    assert(b3 == t.len() || t[b3] != ' ') by {
        if b3 < t.len() {
            if v.reputation.len() > 0 {
                assert(t.subrange(b3, b3 + "reputation:\n"@.len())[0] == 'r');
            } else {
                assert(b3 == b4);
            }
        }
    }
    assert(b2 == t.len() || t[b2] != ' ') by {
        if b2 < t.len() {
            if v.contracts.len() > 0 {
                assert(t.subrange(b2, b2 + "contracts:\n"@.len())[0] == 'c');
            } else {
                assert(b2 == b3);
            }
        }
    }
    assert(b1 == t.len() || t[b1] != ' ') by {
        if b1 < t.len() {
            if v.proofs.len() > 0 {
                assert(t.subrange(b1, b1 + "proofs:\n"@.len())[0] == 'p');
            } else {
                assert(b1 == b2);
            }
        }
    }

    // Header-skip facts for absent sections.
    if v.credentials.len() == 0 {
        assert(!at(t, i, "credentials:\n"@)) by {
            if at(t, i, "credentials:\n"@) {
                if i == b5 {
                    assert(i + "credentials:\n"@.len() > t.len());
                } else if v.proofs.len() > 0 {
                    lemma_not_at(t, i, "credentials:\n"@, "proofs:\n"@, 0);
                } else if v.contracts.len() > 0 {
                    lemma_not_at(t, i, "credentials:\n"@, "contracts:\n"@, 1);
                } else if v.reputation.len() > 0 {
                    lemma_not_at(t, i, "credentials:\n"@, "reputation:\n"@, 0);
                } else if v.consent.len() > 0 {
                    lemma_not_at(t, i, "credentials:\n"@, "consent:\n"@, 2);
                }
            }
        }
    }
    if v.proofs.len() == 0 {
        assert(!at(t, b1, "proofs:\n"@)) by {
            if at(t, b1, "proofs:\n"@) {
                if b1 == b5 {
                    assert(b1 + "proofs:\n"@.len() > t.len());
                } else if v.contracts.len() > 0 {
                    lemma_not_at(t, b1, "proofs:\n"@, "contracts:\n"@, 0);
                } else if v.reputation.len() > 0 {
                    lemma_not_at(t, b1, "proofs:\n"@, "reputation:\n"@, 0);
                } else if v.consent.len() > 0 {
                    lemma_not_at(t, b1, "proofs:\n"@, "consent:\n"@, 0);
                }
            }
        }
    }
    if v.contracts.len() == 0 {
        assert(!at(t, b2, "contracts:\n"@)) by {
            if at(t, b2, "contracts:\n"@) {
                if b2 == b5 {
                    assert(b2 + "contracts:\n"@.len() > t.len());
                } else if v.reputation.len() > 0 {
                    lemma_not_at(t, b2, "contracts:\n"@, "reputation:\n"@, 0);
                } else if v.consent.len() > 0 {
                    lemma_not_at(t, b2, "contracts:\n"@, "consent:\n"@, 3);
                }
            }
        }
    }
    if v.reputation.len() == 0 {
        assert(!at(t, b3, "reputation:\n"@)) by {
            if at(t, b3, "reputation:\n"@) {
                if b3 == b5 {
                    assert(b3 + "reputation:\n"@.len() > t.len());
                } else if v.consent.len() > 0 {
                    lemma_not_at(t, b3, "reputation:\n"@, "consent:\n"@, 0);
                }
            }
        }
    }
    if v.consent.len() == 0 {
        assert(!at(t, b4, "consent:\n"@)) by {
            if at(t, b4, "consent:\n"@) {
                assert(b4 == b5);
                assert(b4 + "consent:\n"@.len() > t.len());
            }
        }
    }

    lemma_sec_creds_print(t, i, v.credentials);
    lemma_sec_proofs_print(t, b1, v.proofs);
    lemma_sec_contracts_print(t, b2, v.contracts);
    lemma_sec_reps_print(t, b3, v.reputation);
    lemma_sec_consents_print(t, b4, v.consent);
}

/// Round trip: parsing inverts serialization on every document whose two
/// identity timestamps are well-formed and whose reputation numbers fit
/// the signed 64-bit range — which every document the engine builds
/// satisfies by construction.
#[verifier::rlimit(100)]
#[verifier::spinoff_prover]
pub proof fn lemma_doc_roundtrip(v: IdentityV)
    requires
        crate::model::ts_wf(v.identity.created_at),
        crate::model::ts_wf(v.identity.updated_at),
        reps_ranged(v.reputation),
    ensures
        parse_doc(ser_doc(v)) == Some(v),
{
    reveal_strlit("identity:\n");
    reveal_strlit("system:\n");
    reveal_strlit("  public_keys:\n");
    reveal_strlit("core:\n");
    reveal_strlit("    - ");
    let t = ser_doc(v);
    let h0 = "identity:\n"@;
    let l1 = fline("  id: "@, v.identity.id);
    let l2 = fline("  version: "@, v.identity.version);
    let l3 = fline("  schema_url: "@, v.identity.schema_url);
    let l4 = tline("  created_at: "@, v.identity.created_at);
    let l5 = tline("  updated_at: "@, v.identity.updated_at);
    let h1 = "system:\n"@;
    let h2 = "  public_keys:\n"@;
    let lk = ser_pubkeys(v.system.public_keys);
    let h3 = "core:\n"@;
    let l6 = fline("  name: "@, v.core.name);
    let l7 = fline("  bio: "@, v.core.bio);
    let s1 = sec_creds(v.credentials);
    let s2 = sec_proofs(v.proofs);
    let s3 = sec_contracts(v.contracts);
    let s4 = sec_reps(v.reputation);
    let s5 = sec_consents(v.consent);
    assert(at(t, 0, t)) by {
        assert(t.subrange(0, t.len() as int) =~= t);
    }
    let a16 = h0 + l1 + l2 + l3 + l4 + l5 + h1 + h2 + lk + h3 + l6 + l7 + s1 + s2 + s3 + s4;
    assert(t == a16 + s5);
    lemma_at_concat(t, 0, a16, s5);
    let a15 = h0 + l1 + l2 + l3 + l4 + l5 + h1 + h2 + lk + h3 + l6 + l7 + s1 + s2 + s3;
    assert(a16 == a15 + s4);
    lemma_at_concat(t, 0, a15, s4);
    let a14 = h0 + l1 + l2 + l3 + l4 + l5 + h1 + h2 + lk + h3 + l6 + l7 + s1 + s2;
    assert(a15 == a14 + s3);
    lemma_at_concat(t, 0, a14, s3);
    let a13 = h0 + l1 + l2 + l3 + l4 + l5 + h1 + h2 + lk + h3 + l6 + l7 + s1;
    assert(a14 == a13 + s2);
    lemma_at_concat(t, 0, a13, s2);
    let a12 = h0 + l1 + l2 + l3 + l4 + l5 + h1 + h2 + lk + h3 + l6 + l7;
    assert(a13 == a12 + s1);
    lemma_at_concat(t, 0, a12, s1);
    let a11 = h0 + l1 + l2 + l3 + l4 + l5 + h1 + h2 + lk + h3 + l6;
    assert(a12 == a11 + l7);
    lemma_at_concat(t, 0, a11, l7);
    let a10 = h0 + l1 + l2 + l3 + l4 + l5 + h1 + h2 + lk + h3;
    assert(a11 == a10 + l6);
    lemma_at_concat(t, 0, a10, l6);
    let a9 = h0 + l1 + l2 + l3 + l4 + l5 + h1 + h2 + lk;
    assert(a10 == a9 + h3);
    lemma_at_concat(t, 0, a9, h3);
    let a8 = h0 + l1 + l2 + l3 + l4 + l5 + h1 + h2;
    assert(a9 == a8 + lk);
    lemma_at_concat(t, 0, a8, lk);
    let a7 = h0 + l1 + l2 + l3 + l4 + l5 + h1;
    assert(a8 == a7 + h2);
    lemma_at_concat(t, 0, a7, h2);
    let a6 = h0 + l1 + l2 + l3 + l4 + l5;
    assert(a7 == a6 + h1);
    lemma_at_concat(t, 0, a6, h1);
    let a5 = h0 + l1 + l2 + l3 + l4;
    assert(a6 == a5 + l5);
    lemma_at_concat(t, 0, a5, l5);
    let a4 = h0 + l1 + l2 + l3;
    assert(a5 == a4 + l4);
    lemma_at_concat(t, 0, a4, l4);
    let a3 = h0 + l1 + l2;
    assert(a4 == a3 + l3);
    lemma_at_concat(t, 0, a3, l3);
    let a2 = h0 + l1;
    assert(a3 == a2 + l2);
    lemma_at_concat(t, 0, a2, l2);
    lemma_at_concat(t, 0, h0, l1);

    let i1 = 0 + h0.len() as int;
    lemma_fline_print(t, i1, "  id: "@, v.identity.id);
    let i2 = i1 + l1.len();
    lemma_fline_print(t, i2, "  version: "@, v.identity.version);
    let i3 = i2 + l2.len();
    lemma_fline_print(t, i3, "  schema_url: "@, v.identity.schema_url);
    let i4 = i3 + l3.len();
    lemma_tline_print(t, i4, "  created_at: "@, v.identity.created_at);
    let i5 = i4 + l4.len();
    lemma_tline_print(t, i5, "  updated_at: "@, v.identity.updated_at);
    let i6 = i5 + l5.len();
    let i7 = i6 + h1.len();
    let i8 = i7 + h2.len();
    let i9 = i8 + lk.len();
    assert(at(t, i9, "core:\n"@));
    lemma_not_at(t, i9, "    - "@, "core:\n"@, 0);
    lemma_pubkeys_print(t, i8, v.system.public_keys);
    let i10 = i9 + h3.len();
    lemma_fline_print(t, i10, "  name: "@, v.core.name);
    let i11 = i10 + l6.len();
    lemma_fline_print(t, i11, "  bio: "@, v.core.bio);
    let i12 = i11 + l7.len();
    assert(i12 + s1.len() + s2.len() + s3.len() + s4.len() + s5.len() == t.len());
    lemma_doc_tail_print(t, i12, v);
    let assembled = IdentityV {
        identity: crate::model::IdentityBlockV {
            id: v.identity.id,
            version: v.identity.version,
            schema_url: v.identity.schema_url,
            created_at: v.identity.created_at,
            updated_at: v.identity.updated_at,
        },
        system: crate::model::SystemBlockV { public_keys: v.system.public_keys },
        core: crate::model::CoreBlockV { name: v.core.name, bio: v.core.bio },
        credentials: v.credentials,
        proofs: v.proofs,
        contracts: v.contracts,
        reputation: v.reputation,
        consent: v.consent,
    };
    assert(parse_doc_tail(
        t,
        i12,
        v.identity.id,
        v.identity.version,
        v.identity.schema_url,
        v.identity.created_at,
        v.identity.updated_at,
        v.system.public_keys,
        v.core.name,
        v.core.bio,
    ) == Some(assembled));
    assert(assembled =~~= v);
    assert(parse_doc(t) == Some(v));
}

/// The views of a concrete document always keep reputation numbers in
/// the signed 64-bit range, since the fields themselves are 64-bit.
pub proof fn lemma_identity_views_ranged(d: crate::model::Identity)
    ensures
        reps_ranged(d@.reputation),
{
    let rs = d@.reputation;
    assert forall|k: int| 0 <= k < rs.len() implies -0x8000_0000_0000_0000 <= (
    #[trigger] rs[k]).value <= 0x7fff_ffff_ffff_ffff && repevs_ranged(rs[k].history) by {
        assert(rs[k] == d.reputation@[k]@);
        let h = rs[k].history;
        assert forall|m: int| 0 <= m < h.len() implies -0x8000_0000_0000_0000 <= (
        #[trigger] h[m]).change <= 0x7fff_ffff_ffff_ffff by {
            assert(h[m] == d.reputation@[k].history@[m]@);
        }
    }
}

/// Round trip for concrete documents: any document whose two identity
/// timestamps are well-formed — every document the engine constructs —
/// serializes to a text that parses back to exactly its view.
pub proof fn lemma_identity_roundtrip(d: crate::model::Identity)
    requires
        crate::model::ts_wf(d@.identity.created_at),
        crate::model::ts_wf(d@.identity.updated_at),
    ensures
        parse_doc(ser_doc(d@)) == Some(d@),
{
    lemma_identity_views_ranged(d);
    lemma_doc_roundtrip(d@);
}

// ------------------------------------------------------------------
// Executable serialization.
// ------------------------------------------------------------------

proof fn lemma_esc_snoc(s: Seq<char>, c: char)
    ensures
        esc(s.push(c)) == esc(s) + esc_char(c),
    decreases s.len(),
{
    if s.len() == 0 {
        assert(s.push(c).drop_first() =~= s);
        assert(esc(s.push(c)) =~= esc(s) + esc_char(c));
    } else {
        assert(s.push(c).drop_first() =~= s.drop_first().push(c));
        lemma_esc_snoc(s.drop_first(), c);
        assert(esc(s.push(c)) =~= esc(s) + esc_char(c));
    }
}

fn append_escaped(out: &mut String, v: &str)
    ensures
        final(out)@ == old(out)@ + esc(v@),
{
    let ghost start = out@;
    let cs = chars_vec(v);
    let mut i: usize = 0;
    while i < cs.len()
        invariant
            0 <= i <= cs@.len(),
            cs@ == v@,
            out@ == start + esc(v@.take(i as int)),
        decreases cs@.len() - i,
    {
        let c = cs[i];
        proof {
            assert(v@.take(i as int + 1) =~= v@.take(i as int).push(v@[i as int]));
            lemma_esc_snoc(v@.take(i as int), v@[i as int]);
        }
        if c == '"' {
            push_char(out, '\\');
            push_char(out, '"');
        } else if c == '\\' {
            push_char(out, '\\');
            push_char(out, '\\');
        } else if c == '\n' {
            push_char(out, '\\');
            push_char(out, 'n');
        } else {
            push_char(out, c);
        }
        proof {
            assert(out@ =~= start + esc(v@.take(i as int + 1)));
        }
        i = i + 1;
    }
    proof {
        assert(v@.take(v@.len() as int) =~= v@);
    }
}

fn put_fline(out: &mut String, pre: &str, v: &str)
    ensures
        final(out)@ == old(out)@ + fline(pre@, v@),
{
    out.append(pre);
    push_char(out, '"');
    append_escaped(out, v);
    push_char(out, '"');
    push_char(out, '\n');
    proof {
        assert(out@ =~= old(out)@ + fline(pre@, v@));
    }
}

fn put_iline(out: &mut String, pre: &str, v: i64)
    ensures
        final(out)@ == old(out)@ + iline(pre@, v as int),
{
    out.append(pre);
    let d = fmt_i64(v);
    out.append(d.as_str());
    push_char(out, '\n');
    proof {
        assert(out@ =~= old(out)@ + iline(pre@, v as int));
    }
}

fn put_tline(out: &mut String, pre: &str, ts: &Timestamp)
    ensures
        final(out)@ == old(out)@ + tline(pre@, *ts),
{
    out.append(pre);
    let d = fmt_ts(ts);
    out.append(d.as_str());
    push_char(out, '\n');
    proof {
        assert(out@ =~= old(out)@ + tline(pre@, *ts));
    }
}

proof fn lemma_ser_pubkeys_snoc(ks: Seq<PublicKeyV>, k: PublicKeyV)
    ensures
        ser_pubkeys(ks.push(k)) == ser_pubkeys(ks) + ser_pubkey(k),
    decreases ks.len(),
{
    if ks.len() == 0 {
        assert(ks.push(k).drop_first() =~= ks);
        assert(ks.push(k)[0] == k);
        assert(ser_pubkeys(ks.push(k)) =~= ser_pubkeys(ks) + ser_pubkey(k));
    } else {
        assert(ks.push(k).drop_first() =~= ks.drop_first().push(k));
        assert(ks.push(k)[0] == ks[0]);
        lemma_ser_pubkeys_snoc(ks.drop_first(), k);
        assert(ser_pubkeys(ks.push(k)) =~= ser_pubkeys(ks) + ser_pubkey(k));
    }
}

proof fn lemma_ser_creds_snoc(cs: Seq<CredentialV>, c: CredentialV)
    ensures
        ser_creds(cs.push(c)) == ser_creds(cs) + ser_cred(c),
    decreases cs.len(),
{
    if cs.len() == 0 {
        assert(cs.push(c).drop_first() =~= cs);
        assert(cs.push(c)[0] == c);
        assert(ser_creds(cs.push(c)) =~= ser_creds(cs) + ser_cred(c));
    } else {
        assert(cs.push(c).drop_first() =~= cs.drop_first().push(c));
        assert(cs.push(c)[0] == cs[0]);
        lemma_ser_creds_snoc(cs.drop_first(), c);
        assert(ser_creds(cs.push(c)) =~= ser_creds(cs) + ser_cred(c));
    }
}

proof fn lemma_ser_sigs_snoc(cs: Seq<SignatureComponentV>, c: SignatureComponentV)
    ensures
        ser_sigs(cs.push(c)) == ser_sigs(cs) + ser_sig(c),
    decreases cs.len(),
{
    if cs.len() == 0 {
        assert(cs.push(c).drop_first() =~= cs);
        assert(cs.push(c)[0] == c);
        assert(ser_sigs(cs.push(c)) =~= ser_sigs(cs) + ser_sig(c));
    } else {
        assert(cs.push(c).drop_first() =~= cs.drop_first().push(c));
        assert(cs.push(c)[0] == cs[0]);
        lemma_ser_sigs_snoc(cs.drop_first(), c);
        assert(ser_sigs(cs.push(c)) =~= ser_sigs(cs) + ser_sig(c));
    }
}

proof fn lemma_ser_proofs_snoc(ps: Seq<ProofV>, p: ProofV)
    ensures
        ser_proofs(ps.push(p)) == ser_proofs(ps) + ser_proofent(p),
    decreases ps.len(),
{
    if ps.len() == 0 {
        assert(ps.push(p).drop_first() =~= ps);
        assert(ps.push(p)[0] == p);
        assert(ser_proofs(ps.push(p)) =~= ser_proofs(ps) + ser_proofent(p));
    } else {
        assert(ps.push(p).drop_first() =~= ps.drop_first().push(p));
        assert(ps.push(p)[0] == ps[0]);
        lemma_ser_proofs_snoc(ps.drop_first(), p);
        assert(ser_proofs(ps.push(p)) =~= ser_proofs(ps) + ser_proofent(p));
    }
}

proof fn lemma_ser_parties_snoc(ps: Seq<Seq<char>>, p: Seq<char>)
    ensures
        ser_parties(ps.push(p)) == ser_parties(ps) + ser_party(p),
    decreases ps.len(),
{
    if ps.len() == 0 {
        assert(ps.push(p).drop_first() =~= ps);
        assert(ps.push(p)[0] == p);
        assert(ser_parties(ps.push(p)) =~= ser_parties(ps) + ser_party(p));
    } else {
        assert(ps.push(p).drop_first() =~= ps.drop_first().push(p));
        assert(ps.push(p)[0] == ps[0]);
        lemma_ser_parties_snoc(ps.drop_first(), p);
        assert(ser_parties(ps.push(p)) =~= ser_parties(ps) + ser_party(p));
    }
}

proof fn lemma_ser_contracts_snoc(cs: Seq<ContractV>, c: ContractV)
    ensures
        ser_contracts(cs.push(c)) == ser_contracts(cs) + ser_contract(c),
    decreases cs.len(),
{
    if cs.len() == 0 {
        assert(cs.push(c).drop_first() =~= cs);
        assert(cs.push(c)[0] == c);
        assert(ser_contracts(cs.push(c)) =~= ser_contracts(cs) + ser_contract(c));
    } else {
        assert(cs.push(c).drop_first() =~= cs.drop_first().push(c));
        assert(cs.push(c)[0] == cs[0]);
        lemma_ser_contracts_snoc(cs.drop_first(), c);
        assert(ser_contracts(cs.push(c)) =~= ser_contracts(cs) + ser_contract(c));
    }
}

proof fn lemma_ser_repevs_snoc(es: Seq<ReputationEventV>, e: ReputationEventV)
    ensures
        ser_repevs(es.push(e)) == ser_repevs(es) + ser_repev(e),
    decreases es.len(),
{
    if es.len() == 0 {
        assert(es.push(e).drop_first() =~= es);
        assert(es.push(e)[0] == e);
        assert(ser_repevs(es.push(e)) =~= ser_repevs(es) + ser_repev(e));
    } else {
        assert(es.push(e).drop_first() =~= es.drop_first().push(e));
        assert(es.push(e)[0] == es[0]);
        lemma_ser_repevs_snoc(es.drop_first(), e);
        assert(ser_repevs(es.push(e)) =~= ser_repevs(es) + ser_repev(e));
    }
}

proof fn lemma_ser_reps_snoc(rs: Seq<ReputationV>, r: ReputationV)
    ensures
        ser_reps(rs.push(r)) == ser_reps(rs) + ser_rep(r),
    decreases rs.len(),
{
    if rs.len() == 0 {
        assert(rs.push(r).drop_first() =~= rs);
        assert(rs.push(r)[0] == r);
        assert(ser_reps(rs.push(r)) =~= ser_reps(rs) + ser_rep(r));
    } else {
        assert(rs.push(r).drop_first() =~= rs.drop_first().push(r));
        assert(rs.push(r)[0] == rs[0]);
        lemma_ser_reps_snoc(rs.drop_first(), r);
        assert(ser_reps(rs.push(r)) =~= ser_reps(rs) + ser_rep(r));
    }
}

proof fn lemma_ser_consents_snoc(cs: Seq<ConsentV>, c: ConsentV)
    ensures
        ser_consents(cs.push(c)) == ser_consents(cs) + ser_consent1(c),
    decreases cs.len(),
{
    if cs.len() == 0 {
        assert(cs.push(c).drop_first() =~= cs);
        assert(cs.push(c)[0] == c);
        assert(ser_consents(cs.push(c)) =~= ser_consents(cs) + ser_consent1(c));
    } else {
        assert(cs.push(c).drop_first() =~= cs.drop_first().push(c));
        assert(cs.push(c)[0] == cs[0]);
        lemma_ser_consents_snoc(cs.drop_first(), c);
        assert(ser_consents(cs.push(c)) =~= ser_consents(cs) + ser_consent1(c));
    }
}

fn put_string_list(out: &mut String, items: &Vec<String>, pre: &str)
    requires
        pre@ == "      - "@,
    ensures
        final(out)@ == old(out)@ + ser_parties(items@.map_values(|s: String| s@)),
{
    let ghost start = out@;
    let ghost itemsv = items@.map_values(|s: String| s@);
    let mut i: usize = 0;
    while i < items.len()
        invariant
            0 <= i <= items@.len(),
            pre@ == "      - "@,
            itemsv == items@.map_values(|s: String| s@),
            itemsv.len() == items@.len(),
            out@ == start + ser_parties(itemsv.take(i as int)),
        decreases items@.len() - i,
    {
        proof {
            assert(itemsv[i as int] == items@[i as int]@);
            assert(itemsv.take(i as int + 1) =~= itemsv.take(i as int).push(itemsv[i as int]));
            lemma_ser_parties_snoc(itemsv.take(i as int), itemsv[i as int]);
        }
        put_fline(out, pre, items[i].as_str());
        i = i + 1;
    }
    proof {
        assert(itemsv.take(itemsv.len() as int) =~= itemsv);
    }
}

fn put_pubkey(out: &mut String, k: &crate::model::PublicKey)
    ensures
        final(out)@ == old(out)@ + ser_pubkey(k@),
{
    put_fline(out, "    - key_id: ", k.key_id.as_str());
    put_fline(out, "      algorithm: ", k.algorithm.as_str());
    put_fline(out, "      value: ", k.value.as_str());
    put_fline(out, "      status: ", k.status.as_str());
    proof {
        assert(out@ =~= old(out)@ + ser_pubkey(k@));
    }
}

fn put_pubkeys(out: &mut String, keys: &Vec<crate::model::PublicKey>)
    ensures
        final(out)@ == old(out)@ + ser_pubkeys(keys@.map_values(|k: crate::model::PublicKey| k@)),
{
    let ghost mark = out@;
    let ghost keysv = keys@.map_values(|k: crate::model::PublicKey| k@);
    let mut i: usize = 0;
    while i < keys.len()
        invariant
            0 <= i <= keys@.len(),
            keysv == keys@.map_values(|k: crate::model::PublicKey| k@),
            keysv.len() == keys@.len(),
            out@ == mark + ser_pubkeys(keysv.take(i as int)),
        decreases keys@.len() - i,
    {
        proof {
            assert(keysv[i as int] == keys@[i as int]@);
            assert(keysv.take(i as int + 1) =~= keysv.take(i as int).push(keysv[i as int]));
            lemma_ser_pubkeys_snoc(keysv.take(i as int), keysv[i as int]);
        }
        put_pubkey(out, &keys[i]);
        i = i + 1;
    }
    proof {
        assert(keysv.take(keysv.len() as int) =~= keysv);
    }
}

fn put_credential(out: &mut String, c: &crate::model::Credential)
    ensures
        final(out)@ == old(out)@ + ser_cred(c@),
{
    put_fline(out, "  - claim: ", c.claim.as_str());
    put_fline(out, "    issued_by: ", c.issued_by.as_str());
    put_fline(out, "    issued_at: ", c.issued_at.as_str());
    match &c.expires_at {
        Some(e) => {
            put_fline(out, "    expires_at: ", e.as_str());
        },
        None => {},
    }
    put_fline(out, "    proof_ref: ", c.proof_ref.as_str());
    proof {
        assert(out@ =~= old(out)@ + ser_cred(c@));
    }
}

fn put_creds_section(out: &mut String, cs: &Vec<crate::model::Credential>)
    ensures
        final(out)@ == old(out)@ + sec_creds(cs@.map_values(|c: crate::model::Credential| c@)),
{
    let ghost csv = cs@.map_values(|c: crate::model::Credential| c@);
    if cs.len() > 0 {
        out.append("credentials:\n");
        let ghost mark = out@;
        let mut i: usize = 0;
        while i < cs.len()
            invariant
                0 <= i <= cs@.len(),
                csv == cs@.map_values(|c: crate::model::Credential| c@),
                csv.len() == cs@.len(),
                out@ == mark + ser_creds(csv.take(i as int)),
            decreases cs@.len() - i,
        {
            proof {
                assert(csv[i as int] == cs@[i as int]@);
                assert(csv.take(i as int + 1) =~= csv.take(i as int).push(csv[i as int]));
                lemma_ser_creds_snoc(csv.take(i as int), csv[i as int]);
            }
            put_credential(out, &cs[i]);
            i = i + 1;
        }
        proof {
            assert(csv.take(csv.len() as int) =~= csv);
            assert(out@ =~= old(out)@ + sec_creds(csv));
        }
    } else {
        proof {
            assert(out@ =~= old(out)@ + sec_creds(csv));
        }
    }
}

fn put_proofent(out: &mut String, p: &crate::model::Proof)
    ensures
        final(out)@ == old(out)@ + ser_proofent(p@),
{
    put_fline(out, "  - proof_id: ", p.proof_id.as_str());
    put_fline(out, "    type: ", p.proof_type.as_str());
    put_fline(out, "    claim_hash: ", p.claim_hash.as_str());
    out.append("    signed_by:\n");
    put_fline(out, "      idp_id: ", p.signed_by.idp_id.as_str());
    put_fline(out, "      key_id: ", p.signed_by.key_id.as_str());
    out.append("    signature:\n");
    let ghost sigsv = p.signature@.map_values(|c: SignatureComponent| c@);
    let ghost mark2 = out@;
    let mut si: usize = 0;
    while si < p.signature.len()
        invariant
            0 <= si <= p.signature@.len(),
            sigsv == p.signature@.map_values(|c: SignatureComponent| c@),
            sigsv.len() == p.signature@.len(),
            out@ == mark2 + ser_sigs(sigsv.take(si as int)),
        decreases p.signature@.len() - si,
    {
        let sc = &p.signature[si];
        proof {
            assert(sigsv[si as int] == p.signature@[si as int]@);
            assert(sigsv.take(si as int + 1) =~= sigsv.take(si as int).push(sigsv[si as int]));
            lemma_ser_sigs_snoc(sigsv.take(si as int), sigsv[si as int]);
        }
        put_fline(out, "      - algorithm: ", sc.algorithm.as_str());
        put_fline(out, "        value: ", sc.value.as_str());
        proof {
            assert(out@ =~= mark2 + ser_sigs(sigsv.take(si as int + 1)));
        }
        si = si + 1;
    }
    proof {
        assert(sigsv.take(sigsv.len() as int) =~= sigsv);
        assert(out@ =~= old(out)@ + ser_proofent(p@));
    }
}

fn put_proofs_section(out: &mut String, ps: &Vec<crate::model::Proof>)
    ensures
        final(out)@ == old(out)@ + sec_proofs(ps@.map_values(|p: crate::model::Proof| p@)),
{
    let ghost psv = ps@.map_values(|p: crate::model::Proof| p@);
    if ps.len() > 0 {
        out.append("proofs:\n");
        let ghost mark = out@;
        let mut i: usize = 0;
        while i < ps.len()
            invariant
                0 <= i <= ps@.len(),
                psv == ps@.map_values(|p: crate::model::Proof| p@),
                psv.len() == ps@.len(),
                out@ == mark + ser_proofs(psv.take(i as int)),
            decreases ps@.len() - i,
        {
            proof {
                assert(psv[i as int] == ps@[i as int]@);
                assert(psv.take(i as int + 1) =~= psv.take(i as int).push(psv[i as int]));
                lemma_ser_proofs_snoc(psv.take(i as int), psv[i as int]);
            }
            put_proofent(out, &ps[i]);
            i = i + 1;
        }
        proof {
            assert(psv.take(psv.len() as int) =~= psv);
            assert(out@ =~= old(out)@ + sec_proofs(psv));
        }
    } else {
        proof {
            assert(out@ =~= old(out)@ + sec_proofs(psv));
        }
    }
}

fn put_contract(out: &mut String, c: &crate::model::Contract)
    ensures
        final(out)@ == old(out)@ + ser_contract(c@),
{
    put_fline(out, "  - contract_id: ", c.contract_id.as_str());
    put_fline(out, "    status: ", c.status.as_str());
    out.append("    parties:\n");
    put_string_list(out, &c.parties, "      - ");
    put_fline(out, "    terms: ", c.terms.as_str());
    out.append("    consequence:\n");
    put_fline(out, "      on_success: ", c.consequence.on_success.as_str());
    put_fline(out, "      on_failure: ", c.consequence.on_failure.as_str());
    proof {
        assert(out@ =~= old(out)@ + ser_contract(c@));
    }
}

fn put_contracts_section(out: &mut String, cs: &Vec<crate::model::Contract>)
    ensures
        final(out)@ == old(out)@ + sec_contracts(cs@.map_values(|c: crate::model::Contract| c@)),
{
    let ghost csv = cs@.map_values(|c: crate::model::Contract| c@);
    if cs.len() > 0 {
        out.append("contracts:\n");
        let ghost mark = out@;
        let mut i: usize = 0;
        while i < cs.len()
            invariant
                0 <= i <= cs@.len(),
                csv == cs@.map_values(|c: crate::model::Contract| c@),
                csv.len() == cs@.len(),
                out@ == mark + ser_contracts(csv.take(i as int)),
            decreases cs@.len() - i,
        {
            proof {
                assert(csv[i as int] == cs@[i as int]@);
                assert(csv.take(i as int + 1) =~= csv.take(i as int).push(csv[i as int]));
                lemma_ser_contracts_snoc(csv.take(i as int), csv[i as int]);
            }
            put_contract(out, &cs[i]);
            i = i + 1;
        }
        proof {
            assert(csv.take(csv.len() as int) =~= csv);
            assert(out@ =~= old(out)@ + sec_contracts(csv));
        }
    } else {
        proof {
            assert(out@ =~= old(out)@ + sec_contracts(csv));
        }
    }
}

fn put_rep(out: &mut String, rp: &crate::model::Reputation)
    ensures
        final(out)@ == old(out)@ + ser_rep(rp@),
{
    put_fline(out, "  - score_name: ", rp.score_name.as_str());
    put_iline(out, "    value: ", rp.value);
    out.append("    history:\n");
    let ghost evsv = rp.history@.map_values(|e: ReputationEvent| e@);
    let ghost mark2 = out@;
    let mut ei: usize = 0;
    while ei < rp.history.len()
        invariant
            0 <= ei <= rp.history@.len(),
            evsv == rp.history@.map_values(|e: ReputationEvent| e@),
            evsv.len() == rp.history@.len(),
            out@ == mark2 + ser_repevs(evsv.take(ei as int)),
        decreases rp.history@.len() - ei,
    {
        let ev = &rp.history[ei];
        proof {
            assert(evsv[ei as int] == rp.history@[ei as int]@);
            assert(evsv.take(ei as int + 1) =~= evsv.take(ei as int).push(evsv[ei as int]));
            lemma_ser_repevs_snoc(evsv.take(ei as int), evsv[ei as int]);
        }
        put_fline(out, "      - event: ", ev.event.as_str());
        put_iline(out, "        change: ", ev.change);
        put_fline(out, "        timestamp: ", ev.timestamp.as_str());
        proof {
            assert(out@ =~= mark2 + ser_repevs(evsv.take(ei as int + 1)));
        }
        ei = ei + 1;
    }
    proof {
        assert(evsv.take(evsv.len() as int) =~= evsv);
        assert(out@ =~= old(out)@ + ser_rep(rp@));
    }
}

fn put_reps_section(out: &mut String, rs: &Vec<crate::model::Reputation>)
    ensures
        final(out)@ == old(out)@ + sec_reps(rs@.map_values(|r: crate::model::Reputation| r@)),
{
    let ghost rsv = rs@.map_values(|r: crate::model::Reputation| r@);
    if rs.len() > 0 {
        out.append("reputation:\n");
        let ghost mark = out@;
        let mut i: usize = 0;
        while i < rs.len()
            invariant
                0 <= i <= rs@.len(),
                rsv == rs@.map_values(|r: crate::model::Reputation| r@),
                rsv.len() == rs@.len(),
                out@ == mark + ser_reps(rsv.take(i as int)),
            decreases rs@.len() - i,
        {
            proof {
                assert(rsv[i as int] == rs@[i as int]@);
                assert(rsv.take(i as int + 1) =~= rsv.take(i as int).push(rsv[i as int]));
                lemma_ser_reps_snoc(rsv.take(i as int), rsv[i as int]);
            }
            put_rep(out, &rs[i]);
            i = i + 1;
        }
        proof {
            assert(rsv.take(rsv.len() as int) =~= rsv);
            assert(out@ =~= old(out)@ + sec_reps(rsv));
        }
    } else {
        proof {
            assert(out@ =~= old(out)@ + sec_reps(rsv));
        }
    }
}

fn put_consent(out: &mut String, c: &crate::model::Consent)
    ensures
        final(out)@ == old(out)@ + ser_consent1(c@),
{
    put_fline(out, "  - granted_to: ", c.granted_to.as_str());
    out.append("    fields:\n");
    put_string_list(out, &c.fields, "      - ");
    put_fline(out, "    expires_at: ", c.expires_at.as_str());
    put_fline(out, "    purpose: ", c.purpose.as_str());
    proof {
        assert(out@ =~= old(out)@ + ser_consent1(c@));
    }
}

fn put_consents_section(out: &mut String, cs: &Vec<crate::model::Consent>)
    ensures
        final(out)@ == old(out)@ + sec_consents(cs@.map_values(|c: crate::model::Consent| c@)),
{
    let ghost csv = cs@.map_values(|c: crate::model::Consent| c@);
    if cs.len() > 0 {
        out.append("consent:\n");
        let ghost mark = out@;
        let mut i: usize = 0;
        while i < cs.len()
            invariant
                0 <= i <= cs@.len(),
                csv == cs@.map_values(|c: crate::model::Consent| c@),
                csv.len() == cs@.len(),
                out@ == mark + ser_consents(csv.take(i as int)),
            decreases cs@.len() - i,
        {
            proof {
                assert(csv[i as int] == cs@[i as int]@);
                assert(csv.take(i as int + 1) =~= csv.take(i as int).push(csv[i as int]));
                lemma_ser_consents_snoc(csv.take(i as int), csv[i as int]);
            }
            put_consent(out, &cs[i]);
            i = i + 1;
        }
        proof {
            assert(csv.take(csv.len() as int) =~= csv);
            assert(out@ =~= old(out)@ + sec_consents(csv));
        }
    } else {
        proof {
            assert(out@ =~= old(out)@ + sec_consents(csv));
        }
    }
}

impl crate::model::Identity {
    /// Emits the canonical text of the document: the fixed field order,
    /// with empty trust-artifact sequences omitted entirely.
    #[verifier::rlimit(60)]
    pub fn serialize(&self) -> (r: String)
        ensures
            r@ == ser_doc(self@),
    {
        let mut out = String::new();
        out.append("identity:\n");
        put_fline(&mut out, "  id: ", self.identity.id.as_str());
        put_fline(&mut out, "  version: ", self.identity.version.as_str());
        put_fline(&mut out, "  schema_url: ", self.identity.schema_url.as_str());
        put_tline(&mut out, "  created_at: ", &self.identity.created_at);
        put_tline(&mut out, "  updated_at: ", &self.identity.updated_at);
        out.append("system:\n");
        out.append("  public_keys:\n");
        put_pubkeys(&mut out, &self.system.public_keys);
        out.append("core:\n");
        put_fline(&mut out, "  name: ", self.core.name.as_str());
        put_fline(&mut out, "  bio: ", self.core.bio.as_str());
        put_creds_section(&mut out, &self.credentials);
        put_proofs_section(&mut out, &self.proofs);
        put_contracts_section(&mut out, &self.contracts);
        put_reps_section(&mut out, &self.reputation);
        put_consents_section(&mut out, &self.consent);
        proof {
            assert(out@ =~= ser_doc(self@));
        }
        out
    }
}

} // verus!
