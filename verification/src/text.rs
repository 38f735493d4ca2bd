//! Verified text primitives shared by the canonical codec and the path
//! mutator: decimal rendering and parsing of integers, the fixed-width
//! timestamp form, and character-level string building.

use vstd::prelude::*;

use crate::model::{Timestamp, ts_wf};

verus! {

/// Relies on `String::push`: appends exactly the one character.
#[verifier::external_body]
pub fn push_char(s: &mut String, c: char)
    ensures
        final(s)@ == old(s)@.push(c),
{
    s.push(c);
}

/// The characters of a string slice, in order.
pub fn chars_vec(s: &str) -> (r: Vec<char>)
    ensures
        r@ == s@,
{
    let n: usize = s.unicode_len();
    let mut out: Vec<char> = Vec::new();
    let mut i: usize = 0;
    while i < n
        invariant
            0 <= i <= n,
            n == s@.len(),
            out@ == s@.take(i as int),
        decreases n - i,
    {
        let c = s.get_char(i);
        out.push(c);
        proof {
            assert(out@ =~= s@.take(i as int + 1));
        }
        i = i + 1;
    }
    proof {
        assert(out@ =~= s@);
    }
    out
}

/// A string holding exactly the given characters.
pub fn string_of_chars(v: &Vec<char>) -> (r: String)
    ensures
        r@ == v@,
{
    let mut out = String::new();
    let mut i: usize = 0;
    while i < v.len()
        invariant
            0 <= i <= v@.len(),
            out@ == v@.take(i as int),
        decreases v@.len() - i,
    {
        push_char(&mut out, v[i]);
        proof {
            assert(out@ =~= v@.take(i as int + 1));
        }
        i = i + 1;
    }
    proof {
        assert(out@ =~= v@);
    }
    out
}

pub open spec fn is_digit(c: char) -> bool {
    c == '0' || c == '1' || c == '2' || c == '3' || c == '4' || c == '5' || c == '6' || c == '7'
        || c == '8' || c == '9'
}

pub open spec fn digit_val(c: char) -> int {
    if c == '0' {
        0
    } else if c == '1' {
        1
    } else if c == '2' {
        2
    } else if c == '3' {
        3
    } else if c == '4' {
        4
    } else if c == '5' {
        5
    } else if c == '6' {
        6
    } else if c == '7' {
        7
    } else if c == '8' {
        8
    } else {
        9
    }
}

pub open spec fn digit_char(n: int) -> char {
    if n == 0 {
        '0'
    } else if n == 1 {
        '1'
    } else if n == 2 {
        '2'
    } else if n == 3 {
        '3'
    } else if n == 4 {
        '4'
    } else if n == 5 {
        '5'
    } else if n == 6 {
        '6'
    } else if n == 7 {
        '7'
    } else if n == 8 {
        '8'
    } else {
        '9'
    }
}

/// Decides `is_digit`.
pub fn is_digit_exec(c: char) -> (r: bool)
    ensures
        r == is_digit(c),
{
    c == '0' || c == '1' || c == '2' || c == '3' || c == '4' || c == '5' || c == '6' || c == '7'
        || c == '8' || c == '9'
}

/// The numeric value of a digit character.
pub fn digit_val_exec(c: char) -> (r: u64)
    requires
        is_digit(c),
    ensures
        r as int == digit_val(c),
        r < 10,
{
    if c == '0' {
        0
    } else if c == '1' {
        1
    } else if c == '2' {
        2
    } else if c == '3' {
        3
    } else if c == '4' {
        4
    } else if c == '5' {
        5
    } else if c == '6' {
        6
    } else if c == '7' {
        7
    } else if c == '8' {
        8
    } else {
        9
    }
}

/// The character for a digit value.
pub fn digit_char_exec(n: u64) -> (r: char)
    requires
        n < 10,
    ensures
        r == digit_char(n as int),
{
    if n == 0 {
        '0'
    } else if n == 1 {
        '1'
    } else if n == 2 {
        '2'
    } else if n == 3 {
        '3'
    } else if n == 4 {
        '4'
    } else if n == 5 {
        '5'
    } else if n == 6 {
        '6'
    } else if n == 7 {
        '7'
    } else if n == 8 {
        '8'
    } else {
        '9'
    }
}

pub proof fn lemma_digit_roundtrip(n: int)
    requires
        0 <= n < 10,
    ensures
        is_digit(digit_char(n)),
        digit_val(digit_char(n)) == n,
{
}

/// Whether every character is a decimal digit.
pub open spec fn all_digits(s: Seq<char>) -> bool {
    forall|i: int| 0 <= i < s.len() ==> is_digit(#[trigger] s[i])
}

/// The value of a digit string, most significant first.
pub open spec fn dec_val(s: Seq<char>) -> int
    decreases s.len(),
{
    if s.len() == 0 {
        0
    } else {
        dec_val(s.drop_last()) * 10 + digit_val(s.last())
    }
}

pub open spec fn pow10(k: nat) -> nat
    decreases k,
{
    if k == 0 {
        1
    } else {
        10 * pow10((k - 1) as nat)
    }
}

/// The canonical decimal rendering of a natural number: no leading zeros.
pub open spec fn dec_digits(n: nat) -> Seq<char>
    decreases n,
{
    if n < 10 {
        seq![digit_char(n as int)]
    } else {
        dec_digits(n / 10).push(digit_char((n % 10) as int))
    }
}

/// The canonical rendering of a signed integer.
pub open spec fn ser_i64(v: int) -> Seq<char> {
    if v < 0 {
        seq!['-'] + dec_digits((-v) as nat)
    } else {
        dec_digits(v as nat)
    }
}

pub proof fn lemma_dec_val_bound(s: Seq<char>)
    requires
        all_digits(s),
    ensures
        0 <= dec_val(s) < pow10(s.len() as nat),
    decreases s.len(),
{
    if s.len() == 0 {
    } else {
        assert(all_digits(s.drop_last())) by {
            assert(forall|i: int|
                0 <= i < s.len() - 1 ==> s.drop_last()[i] == #[trigger] s[i]);
        }
        lemma_dec_val_bound(s.drop_last());
        assert(is_digit(s.last()));
        assert(0 <= digit_val(s.last()) < 10);
    }
}

pub proof fn lemma_dec_val_lead(s: Seq<char>)
    requires
        all_digits(s),
        s.len() >= 1,
        s[0] != '0',
    ensures
        dec_val(s) >= pow10((s.len() - 1) as nat),
    decreases s.len(),
{
    if s.len() == 1 {
        assert(is_digit(s[0]));
        assert(digit_val(s[0]) >= 1);
        assert(s.last() == s[0]);
        assert(s.drop_last().len() == 0);
        assert(dec_val(s.drop_last()) == 0);
        assert(pow10(0) == 1);
    } else {
        assert(all_digits(s.drop_last())) by {
            assert(forall|i: int|
                0 <= i < s.len() - 1 ==> s.drop_last()[i] == #[trigger] s[i]);
        }
        assert(s.drop_last()[0] == s[0]);
        lemma_dec_val_lead(s.drop_last());
        assert(is_digit(s.last()));
        assert(digit_val(s.last()) >= 0);
        assert(pow10((s.len() - 1) as nat) == 10 * pow10((s.len() - 2) as nat));
        assert(dec_val(s) == dec_val(s.drop_last()) * 10 + digit_val(s.last()));
        assert(dec_val(s.drop_last()) * 10 >= pow10((s.len() - 2) as nat) * 10) by (nonlinear_arith)
            requires
                dec_val(s.drop_last()) >= pow10((s.len() - 2) as nat),
        ;
    }
}

/// The canonical rendering is made of digits, is never empty, starts with
/// a non-zero digit unless the value is zero, and evaluates back to the
/// value it renders.
pub proof fn lemma_dec_digits_ok(n: nat)
    ensures
        all_digits(dec_digits(n)),
        dec_digits(n).len() >= 1,
        n > 0 ==> dec_digits(n)[0] != '0',
        n < pow10(dec_digits(n).len() as nat),
        dec_val(dec_digits(n)) == n,
    decreases n,
{
    if n < 10 {
        assert(dec_digits(n) =~= seq![digit_char(n as int)]);
        lemma_digit_roundtrip(n as int);
        assert(dec_val(dec_digits(n)) == dec_val(seq![digit_char(n as int)].drop_last()) * 10
            + digit_val(digit_char(n as int)));
        assert(seq![digit_char(n as int)].drop_last() =~= Seq::<char>::empty());
        assert(pow10(0) == 1);
        assert(pow10(1) == 10);
    } else {
        lemma_dec_digits_ok(n / 10);
        let p = dec_digits(n / 10);
        let d = digit_char((n % 10) as int);
        lemma_digit_roundtrip((n % 10) as int);
        assert(dec_digits(n) =~= p.push(d));
        assert(p.push(d).drop_last() =~= p);
        assert(p.push(d).last() == d);
        assert(all_digits(p.push(d))) by {
            assert(forall|i: int| 0 <= i < p.len() ==> p.push(d)[i] == #[trigger] p[i]);
            assert(p.push(d)[p.len() as int] == d);
        }
        assert(p.push(d)[0] == p[0]);
        assert(dec_val(dec_digits(n)) == dec_val(p) * 10 + digit_val(d));
        assert(dec_val(p) == n / 10);
        assert((n / 10) * 10 + n % 10 == n);
        assert(n < pow10((p.len() + 1) as nat)) by {
            assert(n / 10 < pow10(p.len() as nat));
            assert(n / 10 <= pow10(p.len() as nat) - 1);
            assert(pow10((p.len() + 1) as nat) == 10 * pow10(p.len() as nat));
            assert(n == (n / 10) * 10 + n % 10);
            assert((n / 10) * 10 <= (pow10(p.len() as nat) - 1) * 10) by (nonlinear_arith)
                requires
                    n / 10 <= pow10(p.len() as nat) - 1,
            ;
        }
    }
}

/// Renders a natural number in canonical decimal.
pub fn fmt_u64(n: u64) -> (r: String)
    ensures
        r@ == dec_digits(n as nat),
    decreases n,
{
    if n < 10 {
        let mut s = String::new();
        push_char(&mut s, digit_char_exec(n));
        proof {
            assert(s@ =~= seq![digit_char(n as int)]);
        }
        s
    } else {
        let mut s = fmt_u64(n / 10);
        push_char(&mut s, digit_char_exec(n % 10));
        s
    }
}

/// Renders a signed integer in canonical decimal.
pub fn fmt_i64(v: i64) -> (r: String)
    ensures
        r@ == ser_i64(v as int),
{
    if v < 0 {
        let mag: u64 = if v == i64::MIN {
            0x8000_0000_0000_0000u64
        } else {
            (-v) as u64
        };
        let mut s = String::new();
        push_char(&mut s, '-');
        let tail = fmt_u64(mag);
        s.append(tail.as_str());
        proof {
            assert(s@ =~= seq!['-'] + dec_digits(mag as nat));
        }
        s
    } else {
        fmt_u64(v as u64)
    }
}

/// The whole-string canonical signed-decimal parse: digits with no
/// leading zero, an optional leading minus, a value within the signed
/// 64-bit range; `None` otherwise.
pub open spec fn spec_parse_i64(s: Seq<char>) -> Option<int> {
    if s.len() >= 1 && s[0] == '-' {
        let t = s.subrange(1, s.len() as int);
        if t.len() >= 1 && all_digits(t) && (t[0] != '0' || t.len() == 1) && dec_val(t)
            <= 0x8000_0000_0000_0000 {
            Some(-dec_val(t))
        } else {
            None
        }
    } else {
        if s.len() >= 1 && all_digits(s) && (s[0] != '0' || s.len() == 1) && dec_val(s)
            <= 0x7fff_ffff_ffff_ffff {
            Some(dec_val(s))
        } else {
            None
        }
    }
}

proof fn lemma_pow10_19()
    ensures
        pow10(19) == 10_000_000_000_000_000_000,
{
    reveal_with_fuel(pow10, 21);
}

/// Parses the digit run `t` (all digits, no leading zero unless single)
/// into a magnitude, or reports the value out of unsigned 64-bit decimal
/// range.
pub(crate) fn parse_digits_u64(t: &Vec<char>) -> (r: Option<u64>)
    requires
        t@.len() >= 1,
        all_digits(t@),
        t@[0] != '0' || t@.len() == 1,
    ensures
        r matches Some(v) ==> v as int == dec_val(t@),
        r is None ==> dec_val(t@) > 0x8000_0000_0000_0000,
{
    if t.len() > 19 {
        proof {
            lemma_dec_val_lead(t@);
            lemma_pow10_19();
            assert(pow10((t@.len() - 1) as nat) >= pow10(19)) by {
                lemma_pow10_mono(19, (t@.len() - 1) as nat);
            }
        }
        return None;
    }
    let mut acc: u64 = 0;
    let mut i: usize = 0;
    while i < t.len()
        invariant
            0 <= i <= t@.len() <= 19,
            all_digits(t@),
            acc as int == dec_val(t@.take(i as int)),
            (acc as int) < pow10(i as nat),
        decreases t@.len() - i,
    {
        proof {
            assert(is_digit(t@[i as int]));
            assert(t@.take(i as int + 1).drop_last() =~= t@.take(i as int));
            assert(t@.take(i as int + 1).last() == t@[i as int]);
            lemma_pow10_mono(i as nat + 1, 19);
            lemma_pow10_19();
            assert(acc as int * 10 + 9 < pow10((i + 1) as nat)) by {
                assert(pow10((i + 1) as nat) == 10 * pow10(i as nat));
                assert((acc as int) <= pow10(i as nat) - 1);
                assert(acc as int * 10 <= (pow10(i as nat) - 1) * 10) by (nonlinear_arith)
                    requires
                        (acc as int) <= pow10(i as nat) - 1,
                ;
            }
        }
        let d = digit_val_exec(t[i]);
        acc = acc * 10 + d;
        i = i + 1;
    }
    proof {
        assert(t@.take(t@.len() as int) =~= t@);
    }
    if acc > 0x8000_0000_0000_0000u64 {
        None
    } else {
        Some(acc)
    }
}

pub proof fn lemma_pow10_mono(a: nat, b: nat)
    requires
        a <= b,
    ensures
        pow10(a) <= pow10(b),
    decreases b,
{
    if a < b {
        lemma_pow10_mono(a, (b - 1) as nat);
        assert(pow10(b) == 10 * pow10((b - 1) as nat));
    }
}

/// Parses a whole string as a canonical signed 64-bit decimal.
pub fn parse_i64(s: &str) -> (r: Option<i64>)
    ensures
        r matches Some(v) ==> spec_parse_i64(s@) == Some(v as int),
        r is None ==> spec_parse_i64(s@) is None,
{
    let cs = chars_vec(s);
    let neg: bool = cs.len() >= 1 && cs[0] == '-';
    let start: usize = if neg {
        1
    } else {
        0
    };
    let ghost t = if neg {
        s@.subrange(1, s@.len() as int)
    } else {
        s@
    };
    let n: usize = cs.len();
    if n <= start {
        return None;
    }
    // Digit run and leading-zero checks.
    let mut i: usize = start;
    while i < n
        invariant
            start <= i <= n,
            n == cs@.len(),
            cs@ == s@,
            t == (if neg {
                s@.subrange(1, s@.len() as int)
            } else {
                s@
            }),
            neg ==> start == 1,
            !neg ==> start == 0,
            neg == (s@.len() >= 1 && s@[0] == '-'),
            n > start,
            forall|k: int| start <= k < i ==> is_digit(#[trigger] cs@[k]),
        decreases n - i,
    {
        if !is_digit_exec(cs[i]) {
            proof {
                assert(t[(i - start) as int] == s@[i as int]);
                assert(!is_digit(t[(i - start) as int]));
                assert(!all_digits(t));
                assert(spec_parse_i64(s@) is None);
            }
            return None;
        }
        i = i + 1;
    }
    proof {
        assert(forall|k: int| 0 <= k < t.len() ==> t[k] == s@[k + start]);
        assert(all_digits(t));
    }
    let digit_count: usize = n - start;
    if digit_count > 1 && cs[start] == '0' {
        proof {
            assert(t[0] == '0' && t.len() > 1);
        }
        return None;
    }
    let mut run: Vec<char> = Vec::new();
    let mut j: usize = start;
    while j < n
        invariant
            start <= j <= n,
            n == cs@.len(),
            cs@ == s@,
            run@ == s@.subrange(start as int, j as int),
        decreases n - j,
    {
        run.push(cs[j]);
        proof {
            assert(run@ =~= s@.subrange(start as int, j as int + 1));
        }
        j = j + 1;
    }
    proof {
        assert(run@ =~= t);
    }
    let mag = match parse_digits_u64(&run) {
        Some(v) => v,
        None => {
            return None;
        },
    };
    if neg {
        if mag > 0x8000_0000_0000_0000u64 {
            return None;
        }
        if mag == 0x8000_0000_0000_0000u64 {
            Some(i64::MIN)
        } else {
            Some(-(mag as i64))
        }
    } else {
        if mag > 0x7fff_ffff_ffff_ffffu64 {
            return None;
        }
        Some(mag as i64)
    }
}

/// Parsing inverts canonical rendering on every signed 64-bit value.
pub proof fn lemma_i64_roundtrip(v: int)
    requires
        -0x8000_0000_0000_0000 <= v <= 0x7fff_ffff_ffff_ffff,
    ensures
        spec_parse_i64(ser_i64(v)) == Some(v),
{
    if v < 0 {
        let mag = (-v) as nat;
        lemma_dec_digits_ok(mag);
        let s = seq!['-'] + dec_digits(mag);
        assert(s[0] == '-');
        assert(s.subrange(1, s.len() as int) =~= dec_digits(mag));
    } else {
        lemma_dec_digits_ok(v as nat);
        let s = dec_digits(v as nat);
        assert(s[0] != '-') by {
            assert(is_digit(s[0]));
        }
    }
}

// ------------------------------------------------------------------
// Timestamps: the fixed-width UTC form `YYYY-MM-DDThh:mm:ssZ`.
// ------------------------------------------------------------------

/// Fixed-width zero-padded decimal: the lowest `w` digits of `n`.
pub open spec fn d_fixed(n: nat, w: nat) -> Seq<char>
    decreases w,
{
    if w == 0 {
        Seq::empty()
    } else {
        d_fixed(n / 10, (w - 1) as nat).push(digit_char((n % 10) as int))
    }
}

pub proof fn lemma_d_fixed_ok(n: nat, w: nat)
    ensures
        d_fixed(n, w).len() == w,
        all_digits(d_fixed(n, w)),
        n < pow10(w) ==> dec_val(d_fixed(n, w)) == n,
    decreases w,
{
    if w == 0 {
    } else {
        lemma_d_fixed_ok(n / 10, (w - 1) as nat);
        let p = d_fixed(n / 10, (w - 1) as nat);
        let d = digit_char((n % 10) as int);
        lemma_digit_roundtrip((n % 10) as int);
        assert(all_digits(p.push(d))) by {
            assert(forall|i: int| 0 <= i < p.len() ==> p.push(d)[i] == #[trigger] p[i]);
            assert(p.push(d)[p.len() as int] == d);
        }
        assert(p.push(d).drop_last() =~= p);
        assert(p.push(d).last() == d);
        if n < pow10(w) {
            assert(n / 10 < pow10((w - 1) as nat)) by {
                assert(pow10(w) == 10 * pow10((w - 1) as nat));
                assert(n < 10 * pow10((w - 1) as nat));
                assert(n / 10 < pow10((w - 1) as nat)) by (nonlinear_arith)
                    requires
                        n < 10 * pow10((w - 1) as nat),
                        pow10((w - 1) as nat) >= 1,
                ;
            }
            assert(dec_val(p.push(d)) == dec_val(p) * 10 + digit_val(d));
            assert((n / 10) * 10 + n % 10 == n);
        }
    }
}

/// Renders the lowest `w` digits of `n`, zero padded.
pub fn fmt_fixed(n: u64, w: usize) -> (r: String)
    ensures
        r@ == d_fixed(n as nat, w as nat),
    decreases w,
{
    if w == 0 {
        let s = String::new();
        proof {
            assert(s@ =~= d_fixed(n as nat, 0));
        }
        s
    } else {
        let mut s = fmt_fixed(n / 10, w - 1);
        push_char(&mut s, digit_char_exec(n % 10));
        s
    }
}

/// The canonical text of a timestamp.
pub open spec fn ser_ts(t: Timestamp) -> Seq<char> {
    d_fixed(t.year as nat, 4) + seq!['-'] + d_fixed(t.month as nat, 2) + seq!['-'] + d_fixed(
        t.day as nat,
        2,
    ) + seq!['T'] + d_fixed(t.hour as nat, 2) + seq![':'] + d_fixed(t.minute as nat, 2)
        + seq![':'] + d_fixed(t.second as nat, 2) + seq!['Z']
}

/// Renders a timestamp in its canonical text form.
pub fn fmt_ts(t: &Timestamp) -> (r: String)
    ensures
        r@ == ser_ts(*t),
{
    let mut s = fmt_fixed(t.year as u64, 4);
    push_char(&mut s, '-');
    let p1 = fmt_fixed(t.month as u64, 2);
    s.append(p1.as_str());
    push_char(&mut s, '-');
    let p2 = fmt_fixed(t.day as u64, 2);
    s.append(p2.as_str());
    push_char(&mut s, 'T');
    let p3 = fmt_fixed(t.hour as u64, 2);
    s.append(p3.as_str());
    push_char(&mut s, ':');
    let p4 = fmt_fixed(t.minute as u64, 2);
    s.append(p4.as_str());
    push_char(&mut s, ':');
    let p5 = fmt_fixed(t.second as u64, 2);
    s.append(p5.as_str());
    push_char(&mut s, 'Z');
    proof {
        assert(s@ =~= ser_ts(*t));
    }
    s
}

/// The whole-string parse of the canonical timestamp form, accepting only
/// well-formed field ranges.
pub open spec fn spec_parse_ts(s: Seq<char>) -> Option<Timestamp> {
    if s.len() == 20 && s[4] == '-' && s[7] == '-' && s[10] == 'T' && s[13] == ':' && s[16]
        == ':' && s[19] == 'Z' && all_digits(s.subrange(0, 4)) && all_digits(s.subrange(5, 7))
        && all_digits(s.subrange(8, 10)) && all_digits(s.subrange(11, 13)) && all_digits(
        s.subrange(14, 16),
    ) && all_digits(s.subrange(17, 19)) {
        let t = Timestamp {
            year: dec_val(s.subrange(0, 4)) as u16,
            month: dec_val(s.subrange(5, 7)) as u8,
            day: dec_val(s.subrange(8, 10)) as u8,
            hour: dec_val(s.subrange(11, 13)) as u8,
            minute: dec_val(s.subrange(14, 16)) as u8,
            second: dec_val(s.subrange(17, 19)) as u8,
        };
        if ts_wf(t) {
            Some(t)
        } else {
            None
        }
    } else {
        None
    }
}

/// Reads the digit group `cs[at .. at + w]` (with `w` 2 or 4).
fn read_group(cs: &Vec<char>, at: usize, w: usize) -> (r: Option<u64>)
    requires
        at + w <= cs@.len(),
        w == 2 || w == 4,
    ensures
        r matches Some(v) ==> all_digits(cs@.subrange(at as int, (at + w) as int)) && v as int
            == dec_val(cs@.subrange(at as int, (at + w) as int)) && v < 10000,
        r is None ==> !all_digits(cs@.subrange(at as int, (at + w) as int)),
{
    let ghost g = cs@.subrange(at as int, (at + w) as int);
    let len: usize = cs.len();
    let mut acc: u64 = 0;
    let mut i: usize = 0;
    while i < w
        invariant
            0 <= i <= w,
            at + w <= len,
            len == cs@.len(),
            w == 2 || w == 4,
            g == cs@.subrange(at as int, (at + w) as int),
            all_digits(g.take(i as int)),
            acc as int == dec_val(g.take(i as int)),
            acc < 10000,
        decreases w - i,
    {
        let c = cs[at + i];
        proof {
            assert(g[i as int] == cs@[(at + i) as int]);
        }
        if !is_digit_exec(c) {
            proof {
                assert(!is_digit(g[i as int]));
            }
            return None;
        }
        let d = digit_val_exec(c);
        proof {
            assert(g.take(i as int + 1).drop_last() =~= g.take(i as int));
            assert(g.take(i as int + 1).last() == g[i as int]);
            lemma_dec_val_bound(g.take(i as int));
            lemma_pow10_mono(i as nat, 3);
            reveal_with_fuel(pow10, 5);
        }
        acc = acc * 10 + d;
        i = i + 1;
    }
    proof {
        assert(g.take(w as int) =~= g);
        assert(forall|k: int| 0 <= k < g.len() ==> g.take(w as int)[k] == #[trigger] g[k]);
    }
    Some(acc)
}

/// Parses a whole string as a canonical, well-formed timestamp.
pub fn parse_ts(s: &str) -> (r: Option<Timestamp>)
    ensures
        r == spec_parse_ts(s@),
{
    let cs = chars_vec(s);
    if cs.len() != 20 {
        return None;
    }
    if !(cs[4] == '-' && cs[7] == '-' && cs[10] == 'T' && cs[13] == ':' && cs[16] == ':'
        && cs[19] == 'Z') {
        return None;
    }
    let year = match read_group(&cs, 0, 4) {
        Some(v) => v,
        None => {
            return None;
        },
    };
    let month = match read_group(&cs, 5, 2) {
        Some(v) => v,
        None => {
            return None;
        },
    };
    let day = match read_group(&cs, 8, 2) {
        Some(v) => v,
        None => {
            return None;
        },
    };
    let hour = match read_group(&cs, 11, 2) {
        Some(v) => v,
        None => {
            return None;
        },
    };
    let minute = match read_group(&cs, 14, 2) {
        Some(v) => v,
        None => {
            return None;
        },
    };
    let second = match read_group(&cs, 17, 2) {
        Some(v) => v,
        None => {
            return None;
        },
    };
    let t = Timestamp {
        year: year as u16,
        month: month as u8,
        day: day as u8,
        hour: hour as u8,
        minute: minute as u8,
        second: second as u8,
    };
    proof {
        lemma_dec_val_bound(s@.subrange(5, 7));
        lemma_dec_val_bound(s@.subrange(8, 10));
        lemma_dec_val_bound(s@.subrange(11, 13));
        lemma_dec_val_bound(s@.subrange(14, 16));
        lemma_dec_val_bound(s@.subrange(17, 19));
        reveal_with_fuel(pow10, 5);
    }
    let wf: bool = 1 <= t.year && t.year <= 9999 && 1 <= t.month && t.month <= 12 && 1 <= t.day
        && t.day <= 31 && t.hour < 24 && t.minute < 60 && t.second < 60;
    if wf {
        Some(t)
    } else {
        None
    }
}

/// Timestamp parsing inverts canonical rendering on every well-formed
/// timestamp.
pub proof fn lemma_ts_roundtrip(t: Timestamp)
    requires
        ts_wf(t),
    ensures
        spec_parse_ts(ser_ts(t)) == Some(t),
{
    let s = ser_ts(t);
    lemma_d_fixed_ok(t.year as nat, 4);
    lemma_d_fixed_ok(t.month as nat, 2);
    lemma_d_fixed_ok(t.day as nat, 2);
    lemma_d_fixed_ok(t.hour as nat, 2);
    lemma_d_fixed_ok(t.minute as nat, 2);
    lemma_d_fixed_ok(t.second as nat, 2);
    reveal_with_fuel(pow10, 5);
    assert(s.len() == 20);
    assert(s.subrange(0, 4) =~= d_fixed(t.year as nat, 4));
    assert(s[4] == '-');
    assert(s.subrange(5, 7) =~= d_fixed(t.month as nat, 2));
    assert(s[7] == '-');
    assert(s.subrange(8, 10) =~= d_fixed(t.day as nat, 2));
    assert(s[10] == 'T');
    assert(s.subrange(11, 13) =~= d_fixed(t.hour as nat, 2));
    assert(s[13] == ':');
    assert(s.subrange(14, 16) =~= d_fixed(t.minute as nat, 2));
    assert(s[16] == ':');
    assert(s.subrange(17, 19) =~= d_fixed(t.second as nat, 2));
    assert(s[19] == 'Z');
}

} // verus!
