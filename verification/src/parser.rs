//! The script parser: turns the line-oriented script text into an ordered
//! command list.
//!
//! Each non-blank line is classified on its own: `@` starts a directive,
//! `#` a comment, `$` a typed-text line whose bracketed key specifications
//! are expanded by the key resolver. A malformed line aborts the whole parse
//! with its 1-based line number.

use vstd::prelude::*;

use crate::keys::{find_char, find_from, resolve_key, resolve_key_spec};
use crate::text::{append_all, chars_of, lemma_chars_deep_view, string_of, subvec};
use crate::types::{Command, CommandV, Decimal, Script};

verus! {

/// The whitespace the parser trims: the ASCII blank characters.
pub open spec fn is_space_char(c: char) -> bool {
    c == ' ' || c == '\t' || c == '\n' || c == '\r' || c == '\u{0b}' || c == '\u{0c}'
}

fn is_space(c: char) -> (r: bool)
    ensures
        r == is_space_char(c),
{
    c == ' ' || c == '\t' || c == '\n' || c == '\r' || c == '\u{0b}' || c == '\u{0c}'
}

/// `s` with leading and trailing whitespace removed.
pub open spec fn trim_spec(s: Seq<char>) -> Seq<char>
    decreases s.len(),
{
    if s.len() == 0 {
        s
    } else if is_space_char(s[0]) {
        trim_spec(s.drop_first())
    } else if is_space_char(s.last()) {
        trim_spec(s.drop_last())
    } else {
        s
    }
}

fn trim_vec(v: &Vec<char>) -> (r: Vec<char>)
    ensures
        r@ == trim_spec(v@),
    decreases v@.len(),
{
    if v.len() == 0 {
        Vec::new()
    } else if is_space(v[0]) {
        let t = subvec(v, 1, v.len());
        proof {
            assert(t@ =~= v@.drop_first());
        }
        trim_vec(&t)
    } else if is_space(v[v.len() - 1]) {
        let t = subvec(v, 0, v.len() - 1);
        proof {
            assert(t@ =~= v@.drop_last());
        }
        trim_vec(&t)
    } else {
        let t = subvec(v, 0, v.len());
        proof {
            assert(t@ =~= v@);
        }
        t
    }
}

/// The first index at or after `i` holding neither a space nor a tab, or
/// `s.len()`.
pub open spec fn skip_blanks(s: Seq<char>, i: nat) -> nat
    decreases s.len() - i,
{
    if i >= s.len() {
        s.len()
    } else if s[i as int] == ' ' || s[i as int] == '\t' {
        skip_blanks(s, i + 1)
    } else {
        i
    }
}

fn skip_blanks_vec(v: &Vec<char>, i: usize) -> (r: usize)
    requires
        i <= v.len(),
    ensures
        r == skip_blanks(v@, i as nat),
        i <= r <= v@.len(),
    decreases v@.len() - i,
{
    if i == v.len() {
        v.len()
    } else if v[i] == ' ' || v[i] == '\t' {
        skip_blanks_vec(v, i + 1)
    } else {
        i
    }
}

pub open spec fn is_digit(c: char) -> bool {
    '0' <= c && c <= '9'
}

pub open spec fn digit_val(c: char) -> int {
    c as u32 - 48
}

/// The end of the run of decimal digits starting at `i`.
pub open spec fn digits_end(s: Seq<char>, i: nat) -> nat
    decreases s.len() - i,
{
    if i >= s.len() {
        s.len()
    } else if is_digit(s[i as int]) {
        digits_end(s, i + 1)
    } else {
        i
    }
}

fn digits_end_vec(v: &Vec<char>, i: usize) -> (r: usize)
    requires
        i <= v.len(),
    ensures
        r == digits_end(v@, i as nat),
        i <= r <= v@.len(),
        forall|k: int| i <= k < r ==> is_digit(v@[k]),
    decreases v@.len() - i,
{
    if i == v.len() {
        v.len()
    } else if '0' <= v[i] && v[i] <= '9' {
        digits_end_vec(v, i + 1)
    } else {
        i
    }
}

/// The value of the digit run `s[i..j)`, read in base ten.
pub open spec fn digits_val(s: Seq<char>, i: nat, j: nat) -> int
    decreases j - i,
{
    if i >= j {
        0
    } else {
        digits_val(s, i, (j - 1) as nat) * 10 + digit_val(s[j - 1])
    }
}

proof fn lemma_digits_val_bounds(s: Seq<char>, i: nat, j: nat)
    requires
        forall|k: int| i <= k < j ==> is_digit(s[k]),
    ensures
        digits_val(s, i, j) >= 0,
        forall|k: nat| i <= k <= j ==> digits_val(s, i, j) >= digits_val(s, i, k),
    decreases j - i,
{
    if i < j {
        lemma_digits_val_bounds(s, i, (j - 1) as nat);
        assert forall|k: nat| i <= k <= j implies digits_val(s, i, j) >= digits_val(s, i, k) by {
            if k < j {
                assert(digits_val(s, i, j) == digits_val(s, i, (j - 1) as nat) * 10 + digit_val(
                    s[j - 1],
                ));
                assert(digit_val(s[j - 1]) >= 0);
                assert(digits_val(s, i, (j - 1) as nat) >= digits_val(s, i, k));
            }
        }
    }
}

/// `x` clamped into `u64`; the parser saturates instead of overflowing.
pub open spec fn clamp_u64(x: int) -> u64 {
    if x > u64::MAX {
        u64::MAX
    } else if x < 0 {
        0
    } else {
        x as u64
    }
}

/// The clamped value of the digit run `s[i..j)`.
fn digits_val_vec(v: &Vec<char>, i: usize, j: usize) -> (r: u64)
    requires
        i <= j <= v.len(),
        forall|k: int| i <= k < j ==> is_digit(v@[k]),
    ensures
        r == clamp_u64(digits_val(v@, i as nat, j as nat)),
{
    let mut acc: u64 = 0;
    let mut k: usize = i;
    proof {
        lemma_digits_val_bounds(v@, i as nat, i as nat);
    }
    while k < j
        invariant
            i <= k <= j <= v@.len(),
            forall|t: int| i <= t < j ==> is_digit(v@[t]),
            acc == clamp_u64(digits_val(v@, i as nat, k as nat)),
        decreases j - k,
    {
        let d: u64 = (v[k] as u32 - 48) as u64;
        proof {
            lemma_digits_val_bounds(v@, i as nat, k as nat);
            lemma_digits_val_bounds(v@, i as nat, (k + 1) as nat);
            assert(digits_val(v@, i as nat, (k + 1) as nat) == digits_val(v@, i as nat, k as nat)
                * 10 + digit_val(v@[k as int]));
        }
        acc = match acc.checked_mul(10) {
            Some(x) => x.saturating_add(d),
            None => u64::MAX,
        };
        k = k + 1;
    }
    acc
}

/// The scale that turns the value of `k` fraction digits into millionths.
pub open spec fn frac_scale(k: int) -> int {
    if k <= 0 {
        1000000
    } else if k == 1 {
        100000
    } else if k == 2 {
        10000
    } else if k == 3 {
        1000
    } else if k == 4 {
        100
    } else if k == 5 {
        10
    } else {
        1
    }
}

/// The fraction digits `s[a..b)` as millionths, truncated past the sixth
/// digit.
pub open spec fn frac_micros(s: Seq<char>, a: nat, b: nat) -> int {
    let k = if b > a + 6 {
        (a + 6) as nat
    } else {
        b
    };
    digits_val(s, a, k) * frac_scale(k - a)
}

/// A decimal number read at `i`: an optional sign, then digits, an optional
/// point and more digits, with at least one digit in all. The result is the
/// value in millionths (negative values clamp to zero, huge ones saturate)
/// and the position after the number.
pub open spec fn decimal_spec(s: Seq<char>, i: nat) -> Option<(int, nat)> {
    let neg = i < s.len() && s[i as int] == '-';
    let p = if i < s.len() && (s[i as int] == '+' || s[i as int] == '-') {
        i + 1
    } else {
        i
    };
    let q = digits_end(s, p);
    if q < s.len() && s[q as int] == '.' {
        let f = digits_end(s, (q + 1) as nat);
        if q > p || f > q + 1 {
            let raw = digits_val(s, p, q) * 1000000 + frac_micros(s, (q + 1) as nat, f);
            Some(
                (
                    if neg {
                        0
                    } else {
                        raw
                    },
                    f,
                ),
            )
        } else {
            None
        }
    } else {
        if q > p {
            Some(
                (
                    if neg {
                        0
                    } else {
                        digits_val(s, p, q) * 1000000
                    },
                    q,
                ),
            )
        } else {
            None
        }
    }
}

#[verifier::rlimit(60)]
fn parse_decimal(v: &Vec<char>, i: usize) -> (r: Option<(Decimal, usize)>)
    requires
        i <= v.len(),
    ensures
        match r {
            Some((d, end)) => ({
                let parsed = decimal_spec(v@, i as nat);
                &&& parsed is Some
                &&& d.micros == clamp_u64((parsed->0).0)
                &&& end == (parsed->0).1
                &&& end <= v@.len()
            }),
            None => decimal_spec(v@, i as nat) is None,
        },
{
    let ghost s = v@;
    let neg = i < v.len() && v[i] == '-';
    let p: usize = if i < v.len() && (v[i] == '+' || v[i] == '-') {
        i + 1
    } else {
        i
    };
    let q = digits_end_vec(v, p);
    if q < v.len() && v[q] == '.' {
        let f = digits_end_vec(v, q + 1);
        if q > p || f > q + 1 {
            if neg {
                return Some((Decimal { micros: 0 }, f));
            }
            let whole = digits_val_vec(v, p, q);
            // at most six fraction digits count; the rest only move `f`
            let fe: usize = if f - (q + 1) > 6 {
                q + 7
            } else {
                f
            };
            let fv = digits_val_vec(v, q + 1, fe);
            let k: usize = fe - (q + 1);
            let scale: u64 = if k == 0 {
                1000000
            } else if k == 1 {
                100000
            } else if k == 2 {
                10000
            } else if k == 3 {
                1000
            } else if k == 4 {
                100
            } else if k == 5 {
                10
            } else {
                1
            };
            proof {
                lemma_digits_val_bounds(s, (q + 1) as nat, fe as nat);
                lemma_digits_val_upper(s, (q + 1) as nat, fe as nat);
                assert(scale == frac_scale(k as int));
                assert(frac_micros(s, (q + 1) as nat, f as nat) == digits_val(
                    s,
                    (q + 1) as nat,
                    fe as nat,
                ) * frac_scale(k as int));
                let dv = digits_val(s, (q + 1) as nat, fe as nat);
                let sc = frac_scale(k as int);
                assert(sc >= 1);
                assert(dv <= dv * sc) by (nonlinear_arith)
                    requires
                        dv >= 0,
                        sc >= 1,
                ;
                assert(fv == dv);
                assert(fv * scale < 1000000);
            }
            let frac: u64 = fv * scale;
            let micros = match whole.checked_mul(1000000) {
                Some(x) => x.saturating_add(frac),
                None => u64::MAX,
            };
            proof {
                lemma_digits_val_bounds(s, p as nat, q as nat);
                assert(micros == clamp_u64(
                    digits_val(s, p as nat, q as nat) * 1000000 + frac_micros(
                        s,
                        (q + 1) as nat,
                        f as nat,
                    ),
                ));
            }
            Some((Decimal { micros }, f))
        } else {
            None
        }
    } else {
        if q > p {
            if neg {
                return Some((Decimal { micros: 0 }, q));
            }
            let whole = digits_val_vec(v, p, q);
            let micros = match whole.checked_mul(1000000) {
                Some(x) => x,
                None => u64::MAX,
            };
            proof {
                lemma_digits_val_bounds(s, p as nat, q as nat);
            }
            Some((Decimal { micros }, q))
        } else {
            None
        }
    }
}

/// Up to six digits read in base ten, scaled to millionths, stay under a
/// million.
proof fn lemma_digits_val_upper(s: Seq<char>, a: nat, e: nat)
    requires
        forall|k: int| a <= k < e ==> is_digit(s[k]),
        e <= a + 6,
    ensures
        a <= e ==> digits_val(s, a, e) * frac_scale((e - a) as int) < 1000000,
        e < a ==> digits_val(s, a, e) == 0,
    decreases e - a,
{
    if e <= a {
    } else {
        lemma_digits_val_upper(s, a, (e - 1) as nat);
        lemma_digits_val_bounds(s, a, (e - 1) as nat);
        assert(digit_val(s[e - 1]) <= 9);
        assert(digits_val(s, a, e) == digits_val(s, a, (e - 1) as nat) * 10 + digit_val(s[e - 1]));
    }
}

/// A `u16` read at `i`: a run of digits whose value fits; overflow is a
/// parse failure, not a clamp.
pub open spec fn u16_spec(s: Seq<char>, i: nat) -> Option<(u16, nat)> {
    let q = digits_end(s, i);
    if q > i && digits_val(s, i, q) <= 65535 {
        Some((digits_val(s, i, q) as u16, q))
    } else {
        None
    }
}

fn parse_u16(v: &Vec<char>, i: usize) -> (r: Option<(u16, usize)>)
    requires
        i <= v.len(),
    ensures
        match r {
            Some((x, end)) => u16_spec(v@, i as nat) == Some((x, end as nat)) && end <= v@.len(),
            None => u16_spec(v@, i as nat) is None,
        },
{
    let q = digits_end_vec(v, i);
    if q == i {
        return None;
    }
    let val = digits_val_vec(v, i, q);
    proof {
        lemma_digits_val_bounds(v@, i as nat, q as nat);
    }
    if val > 65535 {
        proof {
            assert(digits_val(v@, i as nat, q as nat) > 65535);
        }
        None
    } else {
        Some((val as u16, q))
    }
}

/// The typed-text scanner: `\<` and `\>` unescape to the bare bracket, a
/// `<` with a closing `>` on the line has its content resolved as a key
/// specification, a `<` without one is kept literally, and every other
/// character is copied through unchanged.
pub open spec fn type_content_spec(s: Seq<char>) -> Seq<char>
    decreases s.len(),
{
    if s.len() == 0 {
        Seq::empty()
    } else if s.len() >= 2 && s[0] == '\\' && (s[1] == '<' || s[1] == '>') {
        seq![s[1]] + type_content_spec(s.subrange(2, s.len() as int))
    } else if s[0] == '<' {
        let j = find_from(s, '>', 1);
        if j < s.len() {
            resolve_key_spec(s.subrange(1, j as int)) + type_content_spec(
                s.subrange(j as int + 1, s.len() as int),
            )
        } else {
            seq!['<'] + type_content_spec(s.subrange(1, s.len() as int))
        }
    } else {
        seq![s[0]] + type_content_spec(s.subrange(1, s.len() as int))
    }
}

fn type_content_vec(v: &Vec<char>) -> (r: Vec<char>)
    ensures
        r@ == type_content_spec(v@),
    decreases v@.len(),
{
    if v.len() == 0 {
        Vec::new()
    } else if v.len() >= 2 && v[0] == '\\' && (v[1] == '<' || v[1] == '>') {
        let rest = subvec(v, 2, v.len());
        let t = type_content_vec(&rest);
        let mut r: Vec<char> = Vec::new();
        r.push(v[1]);
        append_all(&mut r, &t);
        proof {
            assert(r@ =~= type_content_spec(v@));
        }
        r
    } else if v[0] == '<' {
        let j = find_char(v, '>', 1);
        if j < v.len() {
            let inner = subvec(v, 1, j);
            let mut r = resolve_key(&inner);
            let rest = subvec(v, j + 1, v.len());
            let t = type_content_vec(&rest);
            append_all(&mut r, &t);
            proof {
                assert(r@ =~= type_content_spec(v@));
            }
            r
        } else {
            let rest = subvec(v, 1, v.len());
            let t = type_content_vec(&rest);
            let mut r: Vec<char> = Vec::new();
            r.push('<');
            append_all(&mut r, &t);
            proof {
                assert(r@ =~= type_content_spec(v@));
            }
            r
        }
    } else {
        let rest = subvec(v, 1, v.len());
        let t = type_content_vec(&rest);
        let mut r: Vec<char> = Vec::new();
        r.push(v[0]);
        append_all(&mut r, &t);
        proof {
            assert(r@ =~= type_content_spec(v@));
        }
        r
    }
}

/// Expands the content of a typed-text line (everything after the `$`
/// prefix and its following blanks) into the fully resolved literal text.
pub fn parse_type_content(input: &str) -> (r: String)
    ensures
        r@ == type_content_spec(input@),
{
    let v = chars_of(input);
    let out = type_content_vec(&v);
    string_of(&out)
}

/// Law: an escaped bracket at the head of typed text always comes out as
/// the bare bracket, with no key expansion attempted on it, whatever
/// follows.
pub proof fn lemma_escaped_bracket(tail: Seq<char>)
    ensures
        type_content_spec(seq!['\\', '<'] + tail) == seq!['<'] + type_content_spec(tail),
        type_content_spec(seq!['\\', '>'] + tail) == seq!['>'] + type_content_spec(tail),
{
    let s1 = seq!['\\', '<'] + tail;
    assert(s1.len() >= 2 && s1[0] == '\\' && s1[1] == '<');
    assert(s1.subrange(2, s1.len() as int) =~= tail);
    let s2 = seq!['\\', '>'] + tail;
    assert(s2.len() >= 2 && s2[0] == '\\' && s2[1] == '>');
    assert(s2.subrange(2, s2.len() as int) =~= tail);
}

/// Whether `p` occurs in `s` starting at `i`.
pub open spec fn has_prefix(s: Seq<char>, i: nat, p: Seq<char>) -> bool {
    i + p.len() <= s.len() && s.subrange(i as int, i as int + p.len() as int) == p
}

fn has_prefix_lit(v: &Vec<char>, i: usize, p: &str) -> (r: bool)
    requires
        i <= v.len(),
    ensures
        r == has_prefix(v@, i as nat, p@),
{
    let n = p.unicode_len();
    if v.len() - i < n {
        return false;
    }
    let mut k: usize = 0;
    while k < n
        invariant
            k <= n,
            n == p@.len(),
            i + n <= v@.len(),
            v@.len() <= usize::MAX,
            forall|t: int| 0 <= t < k ==> v@[i + t] == p@[t],
        decreases n - k,
    {
        if v[i + k] != p.get_char(k) {
            return false;
        }
        k = k + 1;
    }
    proof {
        assert(v@.subrange(i as int, i as int + p@.len() as int) =~= p@);
    }
    true
}

/// A directive line, after trimming: `@`, optional blanks, a keyword and
/// its value. The result carries the position after the value, so that the
/// caller can reject trailing text.
pub open spec fn directive_spec(t: Seq<char>) -> Option<(CommandV, nat)> {
    let j = skip_blanks(t, 1);
    if has_prefix(t, j, "speed:"@) {
        match decimal_spec(t, j + "speed:"@.len()) {
            Some((val, end)) => Some((CommandV::SetSpeed { micros: clamp_u64(val) as int }, end)),
            None => None,
        }
    } else if has_prefix(t, j, "jitter:"@) {
        match decimal_spec(t, j + "jitter:"@.len()) {
            Some((val, end)) => Some((CommandV::SetJitter { micros: clamp_u64(val) as int }, end)),
            None => None,
        }
    } else if has_prefix(t, j, "wait:"@) {
        match decimal_spec(t, j + "wait:"@.len()) {
            Some((val, end)) => Some((CommandV::Wait { micros: clamp_u64(val) as int }, end)),
            None => None,
        }
    } else if has_prefix(t, j, "shell:"@) {
        let rest = t.subrange(j as int + "shell:"@.len() as int, t.len() as int);
        Some((CommandV::SetShell { path: trim_spec(rest) }, t.len()))
    } else if has_prefix(t, j, "size:"@) {
        match u16_spec(t, j + "size:"@.len()) {
            Some((cols, q)) => {
                if q < t.len() && t[q as int] == ':' {
                    match u16_spec(t, q + 1) {
                        Some((rows, e)) => Some((CommandV::SetSize { cols, rows }, e)),
                        None => None,
                    }
                } else {
                    None
                }
            },
            None => None,
        }
    } else {
        None
    }
}

fn parse_directive_vec(t: &Vec<char>) -> (r: Option<(Command, usize)>)
    requires
        t@.len() >= 1,
    ensures
        match r {
            Some((cmd, end)) => directive_spec(t@) == Some((cmd@, end as nat)) && end <= t@.len(),
            None => directive_spec(t@) is None,
        },
{
    let tl = t.len();
    proof {
        assert(t@.len() == tl);
    }
    let j = skip_blanks_vec(t, 1);
    if has_prefix_lit(t, j, "speed:") {
        proof {
            reveal_strlit("speed:");
        }
        match parse_decimal(t, j + 6) {
            Some((d, end)) => Some((Command::SetSpeed(d), end)),
            None => None,
        }
    } else if has_prefix_lit(t, j, "jitter:") {
        proof {
            reveal_strlit("jitter:");
        }
        match parse_decimal(t, j + 7) {
            Some((d, end)) => Some((Command::SetJitter(d), end)),
            None => None,
        }
    } else if has_prefix_lit(t, j, "wait:") {
        proof {
            reveal_strlit("wait:");
        }
        match parse_decimal(t, j + 5) {
            Some((d, end)) => Some((Command::Wait(d), end)),
            None => None,
        }
    } else if has_prefix_lit(t, j, "shell:") {
        proof {
            reveal_strlit("shell:");
        }
        let rest = subvec(t, j + 6, t.len());
        let sh = trim_vec(&rest);
        Some((Command::SetShell(string_of(&sh)), t.len()))
    } else if has_prefix_lit(t, j, "size:") {
        proof {
            reveal_strlit("size:");
        }
        match parse_u16(t, j + 5) {
            Some((cols, q)) => {
                if q < t.len() && t[q] == ':' {
                    match parse_u16(t, q + 1) {
                        Some((rows, e)) => Some((Command::SetSize(cols, rows), e)),
                        None => None,
                    }
                } else {
                    None
                }
            },
            None => None,
        }
    } else {
        None
    }
}

/// What one line contributes: nothing (blank or comment), one command, or
/// one of the two parse failures.
pub ghost enum LineClass {
    Nothing,
    Cmd { c: CommandV },
    BadSyntax,
    BadTrailing { rest: Seq<char> },
}

/// Classifies one line, as the parser does: trim it; a blank line or a `#`
/// comment contributes nothing; `@` starts a directive, which must consume
/// the rest of the trimmed line up to whitespace; `$` starts typed text,
/// expanded by the scanner; anything else is malformed.
pub open spec fn classify_spec(line: Seq<char>) -> LineClass {
    let t = trim_spec(line);
    if t.len() == 0 {
        LineClass::Nothing
    } else if t[0] == '@' {
        match directive_spec(t) {
            Some((c, end)) => {
                let rest = t.subrange(end as int, t.len() as int);
                if trim_spec(rest).len() == 0 {
                    LineClass::Cmd { c }
                } else {
                    LineClass::BadTrailing { rest }
                }
            },
            None => LineClass::BadSyntax,
        }
    } else if t[0] == '#' {
        LineClass::Nothing
    } else if t[0] == '$' {
        let j = skip_blanks(t, 1);
        LineClass::Cmd {
            c: CommandV::Type { text: type_content_spec(t.subrange(j as int, t.len() as int)) },
        }
    } else {
        LineClass::BadSyntax
    }
}

enum LineOutcome {
    Nothing,
    Cmd(Command),
    BadSyntax,
    BadTrailing(Vec<char>),
}

fn classify_line(line: &Vec<char>) -> (r: LineOutcome)
    ensures
        ({
            let c = classify_spec(line@);
            match r {
                LineOutcome::Nothing => c is Nothing,
                LineOutcome::Cmd(cmd) => c == (LineClass::Cmd { c: cmd@ }),
                LineOutcome::BadSyntax => c is BadSyntax,
                LineOutcome::BadTrailing(rest) => c == (LineClass::BadTrailing { rest: rest@ }),
            }
        }),
{
    let t = trim_vec(line);
    if t.len() == 0 {
        LineOutcome::Nothing
    } else if t[0] == '@' {
        match parse_directive_vec(&t) {
            Some((cmd, end)) => {
                let rest = subvec(&t, end, t.len());
                let rt = trim_vec(&rest);
                if rt.len() == 0 {
                    LineOutcome::Cmd(cmd)
                } else {
                    LineOutcome::BadTrailing(rest)
                }
            },
            None => LineOutcome::BadSyntax,
        }
    } else if t[0] == '#' {
        LineOutcome::Nothing
    } else if t[0] == '$' {
        let j = skip_blanks_vec(&t, 1);
        let content = subvec(&t, j, t.len());
        let txt = type_content_vec(&content);
        LineOutcome::Cmd(Command::Type(string_of(&txt)))
    } else {
        LineOutcome::BadSyntax
    }
}

/// One trailing carriage return removed, as line splitting strips `\r\n`.
pub open spec fn strip_cr(t: Seq<char>) -> Seq<char> {
    if t.len() > 0 && t.last() == '\r' {
        t.drop_last()
    } else {
        t
    }
}

/// The lines of `s`: split at every newline, a carriage return before a
/// newline stripped, and no final empty line for text ending in a newline.
pub open spec fn lines_spec(s: Seq<char>) -> Seq<Seq<char>>
    decreases s.len(),
{
    let i = find_from(s, '\n', 0);
    if i >= s.len() {
        if s.len() == 0 {
            Seq::empty()
        } else {
            seq![s]
        }
    } else {
        seq![strip_cr(s.subrange(0, i as int))] + lines_spec(
            s.subrange(i as int + 1, s.len() as int),
        )
    }
}

fn split_lines_vec(v: &Vec<char>) -> (r: Vec<Vec<char>>)
    ensures
        r.deep_view() == lines_spec(v@),
    decreases v@.len(),
{
    let i = find_char(v, '\n', 0);
    if i == v.len() {
        let mut r: Vec<Vec<char>> = Vec::new();
        if v.len() > 0 {
            let whole = subvec(v, 0, v.len());
            proof {
                assert(whole@ =~= v@);
            }
            r.push(whole);
        }
        proof {
            if v@.len() > 0 {
                lemma_chars_deep_view(r@[0]);
            }
            assert(r.deep_view() =~~= lines_spec(v@));
        }
        r
    } else {
        let head_end: usize = if i > 0 && v[i - 1] == '\r' {
            i - 1
        } else {
            i
        };
        let head = subvec(v, 0, head_end);
        proof {
            assert(head@ =~= strip_cr(v@.subrange(0, i as int)));
        }
        let tail = subvec(v, i + 1, v.len());
        let mut r = split_lines_vec(&tail);
        r.insert(0, head);
        proof {
            lemma_chars_deep_view(r@[0]);
            assert(r.deep_view() =~~= seq![strip_cr(v@.subrange(0, i as int))] + lines_spec(
                v@.subrange(i as int + 1, v@.len() as int),
            ));
            assert(r.deep_view() =~~= lines_spec(v@));
        }
        r
    }
}

/// A parse failure: the 1-based number of the first malformed line, with
/// the unexpected trailing text where a directive left some.
pub ghost enum ParseErrV {
    Syntax { line: nat },
    Trailing { line: nat, rest: Seq<char> },
}

/// Runs the parse from line `i` on: blank and comment lines contribute
/// nothing, command lines append in source order, and the first malformed
/// line aborts the whole parse with its 1-based number.
pub open spec fn run_parse(lines: Seq<Seq<char>>, i: nat) -> Result<Seq<CommandV>, ParseErrV>
    decreases lines.len() - i,
{
    if i >= lines.len() {
        Ok(Seq::empty())
    } else {
        match classify_spec(lines[i as int]) {
            LineClass::Nothing => run_parse(lines, i + 1),
            LineClass::Cmd { c } => match run_parse(lines, i + 1) {
                Ok(rest) => Ok(seq![c] + rest),
                Err(e) => Err(e),
            },
            LineClass::BadSyntax => Err(ParseErrV::Syntax { line: i + 1 }),
            LineClass::BadTrailing { rest } => Err(ParseErrV::Trailing { line: i + 1, rest }),
        }
    }
}

/// The whole parse of a script text.
pub open spec fn parse_script_spec(text: Seq<char>) -> Result<Seq<CommandV>, ParseErrV> {
    run_parse(lines_spec(text), 0)
}

pub open spec fn digit_char(d: nat) -> char {
    if d == 0 {
        '0'
    } else if d == 1 {
        '1'
    } else if d == 2 {
        '2'
    } else if d == 3 {
        '3'
    } else if d == 4 {
        '4'
    } else if d == 5 {
        '5'
    } else if d == 6 {
        '6'
    } else if d == 7 {
        '7'
    } else if d == 8 {
        '8'
    } else {
        '9'
    }
}

/// `n` written out in base ten.
pub open spec fn dec_digits(n: nat) -> Seq<char>
    decreases n,
{
    if n < 10 {
        seq![digit_char(n)]
    } else {
        dec_digits(n / 10) + seq![digit_char(n % 10)]
    }
}

fn push_digit(out: &mut Vec<char>, d: usize)
    requires
        d < 10,
    ensures
        final(out)@ == old(out)@.push(digit_char(d as nat)),
{
    let c: char = if d == 0 {
        '0'
    } else if d == 1 {
        '1'
    } else if d == 2 {
        '2'
    } else if d == 3 {
        '3'
    } else if d == 4 {
        '4'
    } else if d == 5 {
        '5'
    } else if d == 6 {
        '6'
    } else if d == 7 {
        '7'
    } else if d == 8 {
        '8'
    } else {
        '9'
    };
    out.push(c);
}

fn push_dec(out: &mut Vec<char>, n: usize)
    ensures
        final(out)@ == old(out)@ + dec_digits(n as nat),
    decreases n,
{
    if n < 10 {
        push_digit(out, n);
        proof {
            assert(out@ =~= old(out)@ + dec_digits(n as nat));
        }
    } else {
        push_dec(out, n / 10);
        push_digit(out, n % 10);
        proof {
            assert(out@ =~= old(out)@ + dec_digits(n as nat));
        }
    }
}

/// The message a parse failure carries, with the 1-based line number.
pub open spec fn error_message(e: ParseErrV) -> Seq<char> {
    match e {
        ParseErrV::Syntax { line } => "Line "@ + dec_digits(line) + ": Parse error"@,
        ParseErrV::Trailing { line, rest } => "Line "@ + dec_digits(line)
            + ": Unexpected text after command: '"@ + rest + "'"@,
    }
}

/// The 1-based line number a parse failure cites.
pub open spec fn line_of(e: ParseErrV) -> nat {
    match e {
        ParseErrV::Syntax { line } => line,
        ParseErrV::Trailing { line, rest: _ } => line,
    }
}

/// Whether a line is malformed: neither blank, comment, directive nor
/// typed text, or a directive with trailing junk.
pub open spec fn line_is_bad(l: Seq<char>) -> bool {
    classify_spec(l) is BadSyntax || classify_spec(l) is BadTrailing
}

proof fn lemma_error_from(lines: Seq<Seq<char>>, i: nat, n: nat)
    requires
        i <= n < lines.len(),
        line_is_bad(lines[n as int]),
        forall|j: int| i <= j < n ==> !line_is_bad(lines[j]),
    ensures
        run_parse(lines, i) is Err,
        line_of(run_parse(lines, i)->Err_0) == n + 1,
    decreases n - i,
{
    if i < n {
        lemma_error_from(lines, i + 1, n);
    }
}

/// Law: a malformed line produces an error citing exactly its 1-based
/// number — the number of the first malformed line — independent of blank
/// and comment lines elsewhere in the file.
pub proof fn lemma_error_cites_first_bad_line(lines: Seq<Seq<char>>, n: nat)
    requires
        n < lines.len(),
        line_is_bad(lines[n as int]),
        forall|j: int| 0 <= j < n ==> !line_is_bad(lines[j]),
    ensures
        run_parse(lines, 0) is Err,
        line_of(run_parse(lines, 0)->Err_0) == n + 1,
{
    lemma_error_from(lines, 0, n);
}

proof fn lemma_ok_from(lines: Seq<Seq<char>>, i: nat)
    requires
        forall|j: int| i <= j < lines.len() ==> !line_is_bad(lines[j]),
    ensures
        run_parse(lines, i) is Ok,
    decreases lines.len() - i,
{
    if i < lines.len() {
        lemma_ok_from(lines, i + 1);
    }
}

/// Law: the parse succeeds exactly when no line is malformed.
pub proof fn lemma_parse_succeeds_iff_no_bad_line(lines: Seq<Seq<char>>)
    ensures
        run_parse(lines, 0) is Ok <==> (forall|j: int|
            0 <= j < lines.len() ==> !line_is_bad(lines[j])),
{
    if forall|j: int| 0 <= j < lines.len() ==> !line_is_bad(lines[j]) {
        lemma_ok_from(lines, 0);
    } else {
        let bad = choose|j: int| 0 <= j < lines.len() && line_is_bad(lines[j]);
        lemma_first_bad(lines, 0, bad as nat);
    }
}

proof fn lemma_first_bad(lines: Seq<Seq<char>>, i: nat, bad: nat)
    requires
        i <= bad < lines.len(),
        line_is_bad(lines[bad as int]),
    ensures
        run_parse(lines, i) is Err,
    decreases bad - i,
{
    if !line_is_bad(lines[i as int]) {
        if i < bad {
            lemma_first_bad(lines, i + 1, bad);
        }
    }
}

/// Parses a whole script text into its command list. Each non-blank line
/// stands alone: `@` directives, `#` comments and `$` typed text; the first
/// malformed line aborts the parse with a message carrying its 1-based
/// number.
pub fn parse_script(input: &str) -> (r: Result<Script, String>)
    ensures
        match r {
            Ok(script) => parse_script_spec(input@) == Ok::<Seq<CommandV>, ParseErrV>(script@),
            Err(msg) => {
                &&& parse_script_spec(input@) is Err
                &&& msg@ == error_message(parse_script_spec(input@)->Err_0)
            },
        },
{
    let vchars = chars_of(input);
    let lines = split_lines_vec(&vchars);
    let ghost lv = lines_spec(input@);
    let mut cmds: Vec<Command> = Vec::new();
    let mut i: usize = 0;
    while i < lines.len()
        invariant
            lv == lines_spec(input@),
            lines.deep_view() == lv,
            lines@.len() == lv.len(),
            i <= lines@.len(),
            run_parse(lv, 0) == (match run_parse(lv, i as nat) {
                Ok(rest) => Ok::<Seq<CommandV>, ParseErrV>(cmds.deep_view() + rest),
                Err(e) => Err::<Seq<CommandV>, ParseErrV>(e),
            }),
        decreases lines@.len() - i,
    {
        proof {
            lemma_chars_deep_view(lines@[i as int]);
            assert(lines@[i as int]@ == lv[i as int]);
        }
        let outcome = classify_line(&lines[i]);
        match outcome {
            LineOutcome::Nothing => {
                i = i + 1;
            },
            LineOutcome::Cmd(cmd) => {
                let ghost prior = cmds.deep_view();
                let ghost cv = cmd@;
                cmds.push(cmd);
                proof {
                    assert(cmds.deep_view() =~= prior + seq![cv]);
                    match run_parse(lv, i as nat + 1) {
                        Ok(rest) => {
                            assert(prior + (seq![cv] + rest) =~= (prior + seq![cv]) + rest);
                        },
                        Err(_) => {},
                    }
                }
                i = i + 1;
            },
            LineOutcome::BadSyntax => {
                let ghost e = ParseErrV::Syntax { line: i as nat + 1 };
                proof {
                    assert(run_parse(lv, i as nat) == Err::<Seq<CommandV>, ParseErrV>(e));
                }
                let mut msg = chars_of("Line ");
                push_dec(&mut msg, i + 1);
                let tailp = chars_of(": Parse error");
                append_all(&mut msg, &tailp);
                proof {
                    assert(msg@ =~= error_message(e));
                }
                return Err(string_of(&msg));
            },
            LineOutcome::BadTrailing(rest) => {
                let ghost e = ParseErrV::Trailing { line: i as nat + 1, rest: rest@ };
                proof {
                    assert(run_parse(lv, i as nat) == Err::<Seq<CommandV>, ParseErrV>(e));
                }
                let mut msg = chars_of("Line ");
                push_dec(&mut msg, i + 1);
                let mid = chars_of(": Unexpected text after command: '");
                append_all(&mut msg, &mid);
                append_all(&mut msg, &rest);
                let quote = chars_of("'");
                append_all(&mut msg, &quote);
                proof {
                    assert(msg@ =~= error_message(e));
                }
                return Err(string_of(&msg));
            },
        }
    }
    proof {
        assert(cmds.deep_view() + Seq::<CommandV>::empty() =~= cmds.deep_view());
    }
    Ok(Script { commands: cmds })
}

} // verus!
