//! The playback engine: consumes a parsed command list in order, keeps the
//! mutable speed and jitter state, computes each keystroke's delay, and
//! re-identifies escape-sequence boundaries in resolved text so that a
//! multi-byte sequence is transmitted as one atomic unit.
//!
//! The engine itself performs no waiting and no terminal writes: each call
//! of [`PlaybackEngine::step`] hands the caller the next action to perform
//! (send a unit then pause, pause alone, or stop), so the surrounding
//! program can own the terminal and the clock.

use vstd::prelude::*;

use crate::text::{chars_of, string_of, subvec};
use crate::types::{Command, PlaybackConfig, Script};

verus! {

/// A parameter byte of a CSI sequence: an ASCII digit or `;`.
pub open spec fn is_csi_param_byte(b: u8) -> bool {
    (48 <= b && b <= 57) || b == 59
}

/// The end of the run of CSI parameter bytes starting at `i`.
pub open spec fn csi_params_end(s: Seq<u8>, i: nat) -> nat
    decreases s.len() - i,
{
    if i >= s.len() {
        s.len()
    } else if is_csi_param_byte(s[i as int]) {
        csi_params_end(s, i + 1)
    } else {
        i
    }
}

/// The byte length of the leading transmission unit of a byte stream whose
/// first byte is inspected for ESC: a CSI sequence (`ESC [ params
/// terminator`) runs to one byte past its parameters, an SS3 sequence
/// (`ESC O letter`) is three bytes, any other escape is two, and everything
/// else is a single byte. A truncated sequence extends to the end of the
/// buffer.
pub open spec fn escape_len_spec(s: Seq<u8>) -> int {
    if s.len() == 0 || s[0] != 0x1b {
        1
    } else if s.len() == 1 {
        1
    } else if s[1] == 0x5b {
        let e = csi_params_end(s, 2);
        if e < s.len() {
            e as int + 1
        } else {
            s.len() as int
        }
    } else if s[1] == 0x4f {
        if s.len() > 2 {
            3
        } else {
            s.len() as int
        }
    } else {
        2
    }
}

fn csi_params_end_exec(bytes: &[u8], i: usize) -> (r: usize)
    requires
        i <= bytes@.len(),
    ensures
        r == csi_params_end(bytes@, i as nat),
        i <= r <= bytes@.len(),
    decreases bytes@.len() - i,
{
    if i == bytes.len() {
        i
    } else if (48 <= bytes[i] && bytes[i] <= 57) || bytes[i] == 59 {
        csi_params_end_exec(bytes, i + 1)
    } else {
        i
    }
}

/// A parameter character of a CSI sequence: a digit or `;`.
pub open spec fn is_csi_param_char(c: char) -> bool {
    ('0' <= c && c <= '9') || c == ';'
}

/// The end of the run of CSI parameter characters starting at `i`.
pub open spec fn csi_char_end(s: Seq<char>, i: nat) -> nat
    decreases s.len() - i,
{
    if i >= s.len() {
        s.len()
    } else if is_csi_param_char(s[i as int]) {
        csi_char_end(s, i + 1)
    } else {
        i
    }
}

proof fn lemma_csi_char_end_bounds(s: Seq<char>, i: nat)
    requires
        i <= s.len(),
    ensures
        i <= csi_char_end(s, i) <= s.len(),
    decreases s.len() - i,
{
    if i < s.len() && is_csi_param_char(s[i as int]) {
        lemma_csi_char_end_bounds(s, i + 1);
    }
}

/// The length of the leading transmission unit of resolved text, as
/// characters: the same boundary rule as [`escape_len_spec`], with any
/// non-escape character one whole unit.
pub open spec fn unit_len_spec(s: Seq<char>) -> int {
    if s.len() == 0 {
        0
    } else if s[0] != '\u{1b}' {
        1
    } else if s.len() == 1 {
        1
    } else if s[1] == '[' {
        let e = csi_char_end(s, 2);
        if e < s.len() {
            e as int + 1
        } else {
            s.len() as int
        }
    } else if s[1] == 'O' {
        if s.len() > 2 {
            3
        } else {
            s.len() as int
        }
    } else {
        2
    }
}

/// A leading unit is at least one character and never runs past the text.
pub proof fn lemma_unit_len_bounds(s: Seq<char>)
    requires
        s.len() > 0,
    ensures
        1 <= unit_len_spec(s) <= s.len(),
{
    if s.len() > 1 && s[0] == '\u{1b}' && s[1] == '[' {
        lemma_csi_char_end_bounds(s, 2);
    }
}

/// Resolved text cut into its transmission units, each escape sequence one
/// unit and each other character its own.
pub open spec fn units_spec(s: Seq<char>) -> Seq<Seq<char>>
    decreases s.len(),
{
    if s.len() == 0 {
        Seq::empty()
    } else {
        let l = unit_len_spec(s);
        if 1 <= l <= s.len() {
            seq![s.subrange(0, l)] + units_spec(s.subrange(l, s.len() as int))
        } else {
            seq![s]
        }
    }
}

fn unit_len_chars(v: &Vec<char>) -> (r: usize)
    requires
        v@.len() > 0,
    ensures
        r == unit_len_spec(v@),
        1 <= r <= v@.len(),
{
    proof {
        lemma_unit_len_bounds(v@);
    }
    if v[0] != '\u{1b}' {
        1
    } else if v.len() == 1 {
        1
    } else if v[1] == '[' {
        let e = csi_char_end_exec(v, 2);
        if e < v.len() {
            e + 1
        } else {
            v.len()
        }
    } else if v[1] == 'O' {
        if v.len() > 2 {
            3
        } else {
            v.len()
        }
    } else {
        2
    }
}

fn csi_char_end_exec(v: &Vec<char>, i: usize) -> (r: usize)
    requires
        i <= v.len(),
    ensures
        r == csi_char_end(v@, i as nat),
        i <= r <= v@.len(),
    decreases v@.len() - i,
{
    if i == v.len() {
        i
    } else if ('0' <= v[i] && v[i] <= '9') || v[i] == ';' {
        csi_char_end_exec(v, i + 1)
    } else {
        i
    }
}

fn units_of_chars(v: &Vec<char>) -> (r: Vec<String>)
    ensures
        r.deep_view() == units_spec(v@),
    decreases v@.len(),
{
    if v.len() == 0 {
        let r: Vec<String> = Vec::new();
        proof {
            assert(r.deep_view() =~~= units_spec(v@));
        }
        r
    } else {
        let l = unit_len_chars(v);
        let head = subvec(v, 0, l);
        let hs = string_of(&head);
        let rest = subvec(v, l, v.len());
        let mut r = units_of_chars(&rest);
        r.insert(0, hs);
        proof {
            assert(r.deep_view() =~~= seq![v@.subrange(0, l as int)] + units_spec(
                v@.subrange(l as int, v@.len() as int),
            ));
            assert(r.deep_view() =~~= units_spec(v@));
        }
        r
    }
}

proof fn lemma_csi_char_scan(s: Seq<char>, i: nat, e: nat)
    requires
        i <= e <= s.len(),
        forall|k: int| i <= k < e ==> is_csi_param_char(s[k]),
        e == s.len() || !is_csi_param_char(s[e as int]),
    ensures
        csi_char_end(s, i) == e,
    decreases e - i,
{
    if i < e {
        lemma_csi_char_scan(s, i + 1, e);
    }
}

/// Law: segmentation never splits a CSI sequence. A whole `ESC [ params
/// terminator` at the head of the text is one unit, whatever follows it.
pub proof fn lemma_csi_unit_atomic(params: Seq<char>, term: char, rest: Seq<char>)
    requires
        forall|k: int| 0 <= k < params.len() ==> is_csi_param_char(params[k]),
        !is_csi_param_char(term),
    ensures
        unit_len_spec(seq!['\u{1b}', '['] + params + seq![term] + rest) == params.len() + 3,
{
    let s = seq!['\u{1b}', '['] + params + seq![term] + rest;
    assert(s[0] == '\u{1b}');
    assert(s[1] == '[');
    assert forall|k: int| 2 <= k < 2 + params.len() implies is_csi_param_char(s[k]) by {
        assert(s[k] == params[k - 2]);
    }
    assert(s[2 + params.len() as int] == term);
    lemma_csi_char_scan(s, 2, (2 + params.len()) as nat);
}

/// Law: segmentation never splits an SS3 sequence. A whole `ESC O letter`
/// at the head of the text is one unit, whatever follows it.
pub proof fn lemma_ss3_unit_atomic(letter: char, rest: Seq<char>)
    ensures
        unit_len_spec(seq!['\u{1b}', 'O', letter] + rest) == 3,
{
    let s = seq!['\u{1b}', 'O', letter] + rest;
    assert(s[0] == '\u{1b}');
    assert(s[1] == 'O');
    assert(s.len() > 2);
}

proof fn lemma_csi_byte_scan(s: Seq<u8>, i: nat, e: nat)
    requires
        i <= e <= s.len(),
        forall|k: int| i <= k < e ==> is_csi_param_byte(s[k]),
        e == s.len() || !is_csi_param_byte(s[e as int]),
    ensures
        csi_params_end(s, i) == e,
    decreases e - i,
{
    if i < e {
        lemma_csi_byte_scan(s, i + 1, e);
    }
}

/// Law: the byte-level boundary scan keeps a whole CSI sequence in one
/// unit, whatever bytes follow it.
pub proof fn lemma_csi_escape_atomic(params: Seq<u8>, term: u8, rest: Seq<u8>)
    requires
        forall|k: int| 0 <= k < params.len() ==> is_csi_param_byte(params[k]),
        !is_csi_param_byte(term),
    ensures
        escape_len_spec(seq![0x1bu8, 0x5bu8] + params + seq![term] + rest) == params.len() + 3,
{
    let s = seq![0x1bu8, 0x5bu8] + params + seq![term] + rest;
    assert(s[0] == 0x1bu8);
    assert(s[1] == 0x5bu8);
    assert forall|k: int| 2 <= k < 2 + params.len() implies is_csi_param_byte(s[k]) by {
        assert(s[k] == params[k - 2]);
    }
    assert(s[2 + params.len() as int] == term);
    lemma_csi_byte_scan(s, 2, (2 + params.len()) as nat);
}

/// Law: the byte-level boundary scan keeps a whole SS3 sequence in one
/// unit, whatever bytes follow it.
pub proof fn lemma_ss3_escape_atomic(letter: u8, rest: Seq<u8>)
    ensures
        escape_len_spec(seq![0x1bu8, 0x4fu8, letter] + rest) == 3,
{
    let s = seq![0x1bu8, 0x4fu8, letter] + rest;
    assert(s[0] == 0x1bu8);
    assert(s[1] == 0x4fu8);
    assert(s.len() > 2);
}

/// A character is a digit exactly when its code point lies in the digit
/// range.
proof fn lemma_digit_char_code(c: char)
    ensures
        ('0' <= c && c <= '9') <==> (48 <= c as u32 && c as u32 <= 57),
{
}

/// Two characters with one code point are one character.
proof fn lemma_char_code(c: char, d: char)
    requires
        c as u32 == d as u32,
    ensures
        c == d,
{
    vstd::utf8::char_u32_cast(c, c as u32);
    vstd::utf8::char_u32_cast(d, d as u32);
}

proof fn lemma_param_scans_agree(s: Seq<char>, b: Seq<u8>, i: nat)
    requires
        s.len() == b.len(),
        forall|k: int| 0 <= k < s.len() ==> (b[k] as u32) == (s[k] as u32),
        i <= s.len(),
    ensures
        csi_char_end(s, i) == csi_params_end(b, i),
    decreases s.len() - i,
{
    if i < s.len() {
        let cu = s[i as int] as u32;
        let bu = b[i as int] as u32;
        assert(cu == bu);
        if bu == 59 {
            lemma_char_code(s[i as int], ';');
        }
        lemma_digit_char_code(s[i as int]);
        assert(is_csi_param_char(s[i as int]) == is_csi_param_byte(b[i as int]));
        if is_csi_param_char(s[i as int]) {
            lemma_param_scans_agree(s, b, i + 1);
        }
    }
}

/// Law: on ASCII text the byte-level boundary scan and the
/// character-level segmentation apply one rule: the leading unit has the
/// same length under both.
pub proof fn lemma_scanners_agree(s: Seq<char>, b: Seq<u8>)
    requires
        s.len() == b.len(),
        s.len() > 0,
        forall|k: int| 0 <= k < s.len() ==> (b[k] as u32) == (s[k] as u32),
    ensures
        unit_len_spec(s) == escape_len_spec(b),
{
    let cu0 = s[0] as u32;
    let bu0 = b[0] as u32;
    assert(cu0 == bu0);
    if bu0 == 0x1b {
        lemma_char_code(s[0], '\u{1b}');
    }
    assert((s[0] == '\u{1b}') == (b[0] == 0x1b));
    if s[0] == '\u{1b}' && s.len() > 1 {
        let cu1 = s[1] as u32;
        let bu1 = b[1] as u32;
        assert(cu1 == bu1);
        if bu1 == 0x5b {
            lemma_char_code(s[1], '[');
        }
        if bu1 == 0x4f {
            lemma_char_code(s[1], 'O');
        }
        assert((s[1] == '[') == (b[1] == 0x5b));
        assert((s[1] == 'O') == (b[1] == 0x4f));
        if s[1] == '[' {
            lemma_param_scans_agree(s, b, 2);
        }
    }
}

/// Law: concatenating the units of a text gives the text back —
/// segmentation drops, duplicates and reorders nothing.
pub proof fn lemma_units_concat(s: Seq<char>)
    ensures
        units_spec(s).flatten() == s,
    decreases s.len(),
{
    if s.len() == 0 {
        assert(units_spec(s).flatten() =~= s);
    } else {
        lemma_unit_len_bounds(s);
        let l = unit_len_spec(s);
        let head = s.subrange(0, l);
        let tail = s.subrange(l, s.len() as int);
        lemma_units_concat(tail);
        let u = units_spec(s);
        assert(u == seq![head] + units_spec(tail));
        assert(u.first() == head);
        assert(u.drop_first() =~= units_spec(tail));
        assert(u.flatten() == head + units_spec(tail).flatten());
        assert(head + tail =~= s);
    }
}

/// Cuts resolved text into its transmission units: each escape sequence one
/// string, each other character its own.
pub fn segment_units(text: &str) -> (r: Vec<String>)
    ensures
        r.deep_view() == units_spec(text@),
{
    let v = chars_of(text);
    units_of_chars(&v)
}

/// The base delay of a configuration, in whole milliseconds.
pub open spec fn base_ms_of(c: PlaybackConfig) -> int {
    c.speed.micros as int / 1000
}

/// The jitter amplitude in milliseconds: the base delay scaled by the
/// jitter fraction, rounded down, saturating at `u64::MAX`.
pub open spec fn jitter_ms_of(c: PlaybackConfig) -> int {
    let j = base_ms_of(c) * (c.jitter.micros as int) / 1000000;
    if j > u64::MAX {
        u64::MAX as int
    } else {
        j
    }
}

/// The realized delay for one unit: the base delay plus a variation drawn
/// from `[0, 2×jitter]`, shifted down by the jitter amplitude, each step
/// saturating within `u64`. A jitter larger than the base delay can
/// legitimately yield zero.
pub open spec fn sat_delay(base: int, jit: int, v: int) -> int {
    let t = if base + v > u64::MAX {
        u64::MAX as int
    } else {
        base + v
    };
    if t - jit < 0 {
        0
    } else {
        t - jit
    }
}

/// What any computed delay satisfies: exactly the base when there is no
/// jitter, and otherwise the base shifted by some variation within the
/// jitter amplitude.
pub open spec fn delay_rel(c: PlaybackConfig, r: u64) -> bool {
    &&& (jitter_ms_of(c) == 0 ==> r == base_ms_of(c))
    &&& exists|v: int| 0 <= v <= 2 * jitter_ms_of(c) && r == sat_delay(base_ms_of(c), jitter_ms_of(c), v)
}

/// Relies on `rand::rng` and `rand::RngExt::random_range`: a uniform draw
/// from the inclusive range `0..=bound`.
#[verifier::external_body]
fn sample_variation(bound: u64) -> (r: u64)
    ensures
        r <= bound,
{
    let mut generator = rand::rng();
    rand::RngExt::random_range(&mut generator, 0..=bound)
}

/// One action the caller performs for the engine: send a unit atomically to
/// the terminal and pause after it, pause without a keystroke, take no
/// outside action, or stop.
#[derive(Debug, Clone, PartialEq)]
pub enum PlayStep {
    /// Write `unit` as one atomic write, then pause `delay_ms`
    /// milliseconds.
    Send { unit: String, delay_ms: u64 },
    /// Pause `micros` microseconds without touching the terminal.
    Pause { micros: u64 },
    /// The step only changed engine state; ask for the next step.
    Continue,
    /// Playback is over: the script ran out, or the caller stopped it.
    Done,
}

/// Drives one script: holds the command list, the position in it, the
/// pacing configuration, and the units of the typed text currently being
/// sent.
pub struct PlaybackEngine {
    pub commands: Vec<Command>,
    pub cmd_idx: usize,
    pub units: Vec<String>,
    pub unit_idx: usize,
    pub config: PlaybackConfig,
}

impl PlaybackEngine {
    pub open spec fn inv(&self) -> bool {
        &&& self.cmd_idx <= self.commands.len()
        &&& self.unit_idx <= self.units.len()
    }

    /// A fresh engine at the head of `script`, with the default pacing:
    /// 100 ms per keystroke and no jitter.
    pub fn new(script: Script) -> (r: PlaybackEngine)
        ensures
            r.inv(),
            r.commands@ == script.commands@,
            r.cmd_idx == 0,
            r.units@.len() == 0,
            r.unit_idx == 0,
            r.config.speed.micros == 100_000,
            r.config.jitter.micros == 0,
    {
        PlaybackEngine {
            commands: script.commands,
            cmd_idx: 0,
            units: Vec::new(),
            unit_idx: 0,
            config: PlaybackConfig::default(),
        }
    }

    /// The delay to pause after the unit just sent, in milliseconds, from
    /// the current speed and jitter.
    pub fn calculate_delay(&self) -> (r: u64)
        ensures
            delay_rel(self.config, r),
    {
        let base_ms: u64 = self.config.speed.micros / 1000;
        let jitter_ms: u64 = {
            let b128 = base_ms as u128;
            let j128 = self.config.jitter.micros as u128;
            proof {
                assert(b128 * j128 <= (u64::MAX as int) * (u64::MAX as int)) by (nonlinear_arith)
                    requires
                        0 <= b128 <= u64::MAX,
                        0 <= j128 <= u64::MAX,
                ;
            }
            let wide = b128 * j128 / 1000000;
            if wide > u64::MAX as u128 {
                u64::MAX
            } else {
                wide as u64
            }
        };
        if jitter_ms > 0 {
            let bound: u64 = if jitter_ms > u64::MAX / 2 {
                u64::MAX
            } else {
                2 * jitter_ms
            };
            let variation = sample_variation(bound);
            let delay = base_ms.saturating_add(variation).saturating_sub(jitter_ms);
            proof {
                assert(jitter_ms == jitter_ms_of(self.config));
                assert(variation <= 2 * jitter_ms_of(self.config));
                assert(delay == sat_delay(
                    base_ms_of(self.config),
                    jitter_ms_of(self.config),
                    variation as int,
                ));
            }
            delay
        } else {
            proof {
                assert(jitter_ms == jitter_ms_of(self.config));
                assert(base_ms == sat_delay(base_ms_of(self.config), 0, 0));
            }
            base_ms
        }
    }

    /// One step of playback. The caller passes the cancellation flag it
    /// read; a cleared flag stops the engine at once, with nothing sent and
    /// nothing changed. Otherwise the engine sends the next unit of the
    /// typed text in flight, or consumes the next command: pacing commands
    /// update the configuration, `Wait` asks the caller to pause, `Type`
    /// cuts its text into atomic units, and `SetShell`/`SetSize` are
    /// no-ops during playback.
    pub fn step(&mut self, keep_going: bool) -> (r: PlayStep)
        ensures
            old(self).inv() ==> final(self).inv(),
            ({
                let pre = *old(self);
                let post = *final(self);
                &&& post.commands@ == pre.commands@
                &&& (!keep_going ==> r is Done && post == pre)
                &&& (keep_going && pre.unit_idx < pre.units.len() ==> {
                    &&& r matches PlayStep::Send { unit, delay_ms } && unit@
                        == pre.units@[pre.unit_idx as int]@ && delay_rel(pre.config, delay_ms)
                    &&& post.unit_idx == pre.unit_idx + 1
                    &&& post.units@ == pre.units@
                    &&& post.cmd_idx == pre.cmd_idx
                    &&& post.config == pre.config
                })
                &&& (keep_going && pre.unit_idx == pre.units.len() && pre.cmd_idx
                    == pre.commands.len() ==> r is Done && post == pre)
                &&& (keep_going && pre.unit_idx == pre.units.len() && pre.cmd_idx
                    < pre.commands.len() ==> {
                    let c = pre.commands@[pre.cmd_idx as int];
                    &&& post.cmd_idx == pre.cmd_idx + 1
                    &&& match c {
                        Command::SetSpeed(d) => r is Continue && post.config.speed == d
                            && post.config.jitter == pre.config.jitter && post.units@ == pre.units@
                            && post.unit_idx == pre.unit_idx,
                        Command::SetJitter(d) => r is Continue && post.config.jitter == d
                            && post.config.speed == pre.config.speed && post.units@ == pre.units@
                            && post.unit_idx == pre.unit_idx,
                        Command::Wait(d) => r == (PlayStep::Pause { micros: d.micros })
                            && post.config == pre.config && post.units@ == pre.units@
                            && post.unit_idx == pre.unit_idx,
                        Command::SetShell(_) => r is Continue && post.config == pre.config
                            && post.units@ == pre.units@ && post.unit_idx == pre.unit_idx,
                        Command::SetSize(_, _) => r is Continue && post.config == pre.config
                            && post.units@ == pre.units@ && post.unit_idx == pre.unit_idx,
                        Command::Type(t) => r is Continue && post.units.deep_view() == units_spec(
                            t@,
                        ) && post.unit_idx == 0 && post.config == pre.config,
                    }
                })
            }),
    {
        if !keep_going {
            return PlayStep::Done;
        }
        if self.unit_idx < self.units.len() {
            let unit = self.units[self.unit_idx].clone();
            self.unit_idx = self.unit_idx + 1;
            let delay_ms = self.calculate_delay();
            return PlayStep::Send { unit, delay_ms };
        }
        if self.cmd_idx >= self.commands.len() {
            return PlayStep::Done;
        }
        let idx = self.cmd_idx;
        self.cmd_idx = idx + 1;
        let action = match &self.commands[idx] {
            Command::SetSpeed(d) => {
                let dd = *d;
                self.config.speed = dd;
                PlayStep::Continue
            },
            Command::SetJitter(d) => {
                let dd = *d;
                self.config.jitter = dd;
                PlayStep::Continue
            },
            Command::Wait(d) => PlayStep::Pause { micros: d.micros },
            Command::SetShell(_) => PlayStep::Continue,
            Command::SetSize(_, _) => PlayStep::Continue,
            Command::Type(t) => {
                let units = segment_units(t.as_str());
                self.units = units;
                self.unit_idx = 0;
                PlayStep::Continue
            },
        };
        action
    }

    /// The length of the leading transmission unit of a resolved byte
    /// stream, per the escape-sequence boundary rule.
    pub fn escape_sequence_length(&self, bytes: &[u8]) -> (r: usize)
        ensures
            r == escape_len_spec(bytes@),
    {
        if bytes.len() == 0 || bytes[0] != 0x1b {
            return 1;
        }
        if bytes.len() == 1 {
            return 1;
        }
        if bytes[1] == 0x5b {
            let e = csi_params_end_exec(bytes, 2);
            if e < bytes.len() {
                e + 1
            } else {
                bytes.len()
            }
        } else if bytes[1] == 0x4f {
            if bytes.len() > 2 {
                3
            } else {
                bytes.len()
            }
        } else {
            2
        }
    }
}

} // verus!
