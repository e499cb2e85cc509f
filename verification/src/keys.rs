//! The key resolver: maps a bracketed key specification (the content between
//! `<` and `>`, e.g. `ret`, `C-c`, `A-S-F5`) to the literal character
//! sequence a terminal would send for that keypress.
//!
//! Resolution first looks the spec up in a fixed table of named keys. A spec
//! containing a hyphen is a modifier combo: the last segment is the base key,
//! the segments before it are modifiers. A spec that resolves to nothing is
//! reproduced verbatim, brackets included, so that scripts stay forward
//! compatible with unknown key names.

use vstd::prelude::*;

use crate::text::{append_all, chars_of, eq_str, lemma_chars_deep_view, string_of, subvec};

verus! {

pub open spec fn is_lower_letter(c: char) -> bool {
    'a' <= c && c <= 'z'
}

pub open spec fn is_upper_letter(c: char) -> bool {
    'A' <= c && c <= 'Z'
}

pub open spec fn is_ascii_letter(c: char) -> bool {
    is_lower_letter(c) || is_upper_letter(c)
}

/// ASCII lowercasing of a single character; anything but `A`..`Z` is kept.
pub open spec fn lower_ascii(c: char) -> char {
    match c {
        'A' => 'a',
        'B' => 'b',
        'C' => 'c',
        'D' => 'd',
        'E' => 'e',
        'F' => 'f',
        'G' => 'g',
        'H' => 'h',
        'I' => 'i',
        'J' => 'j',
        'K' => 'k',
        'L' => 'l',
        'M' => 'm',
        'N' => 'n',
        'O' => 'o',
        'P' => 'p',
        'Q' => 'q',
        'R' => 'r',
        'S' => 's',
        'T' => 't',
        'U' => 'u',
        'V' => 'v',
        'W' => 'w',
        'X' => 'x',
        'Y' => 'y',
        'Z' => 'z',
        _ => c,
    }
}

/// The control code of a lowercase letter: `a` maps to `0x01`, …, `z` to
/// `0x1a`. Anything else is kept unchanged.
pub open spec fn ctrl_char(c: char) -> char {
    match c {
        'a' => '\u{01}',
        'b' => '\u{02}',
        'c' => '\u{03}',
        'd' => '\u{04}',
        'e' => '\u{05}',
        'f' => '\u{06}',
        'g' => '\u{07}',
        'h' => '\u{08}',
        'i' => '\u{09}',
        'j' => '\u{0a}',
        'k' => '\u{0b}',
        'l' => '\u{0c}',
        'm' => '\u{0d}',
        'n' => '\u{0e}',
        'o' => '\u{0f}',
        'p' => '\u{10}',
        'q' => '\u{11}',
        'r' => '\u{12}',
        's' => '\u{13}',
        't' => '\u{14}',
        'u' => '\u{15}',
        'v' => '\u{16}',
        'w' => '\u{17}',
        'x' => '\u{18}',
        'y' => '\u{19}',
        'z' => '\u{1a}',
        _ => c,
    }
}

fn to_lower_ascii(c: char) -> (r: char)
    ensures
        r == lower_ascii(c),
{
    match c {
        'A' => 'a',
        'B' => 'b',
        'C' => 'c',
        'D' => 'd',
        'E' => 'e',
        'F' => 'f',
        'G' => 'g',
        'H' => 'h',
        'I' => 'i',
        'J' => 'j',
        'K' => 'k',
        'L' => 'l',
        'M' => 'm',
        'N' => 'n',
        'O' => 'o',
        'P' => 'p',
        'Q' => 'q',
        'R' => 'r',
        'S' => 's',
        'T' => 't',
        'U' => 'u',
        'V' => 'v',
        'W' => 'w',
        'X' => 'x',
        'Y' => 'y',
        'Z' => 'z',
        _ => c,
    }
}

fn to_ctrl_char(c: char) -> (r: char)
    ensures
        r == ctrl_char(c),
{
    match c {
        'a' => '\u{01}',
        'b' => '\u{02}',
        'c' => '\u{03}',
        'd' => '\u{04}',
        'e' => '\u{05}',
        'f' => '\u{06}',
        'g' => '\u{07}',
        'h' => '\u{08}',
        'i' => '\u{09}',
        'j' => '\u{0a}',
        'k' => '\u{0b}',
        'l' => '\u{0c}',
        'm' => '\u{0d}',
        'n' => '\u{0e}',
        'o' => '\u{0f}',
        'p' => '\u{10}',
        'q' => '\u{11}',
        'r' => '\u{12}',
        's' => '\u{13}',
        't' => '\u{14}',
        'u' => '\u{15}',
        'v' => '\u{16}',
        'w' => '\u{17}',
        'x' => '\u{18}',
        'y' => '\u{19}',
        'z' => '\u{1a}',
        _ => c,
    }
}

/// The fixed table of named keys, as the characters a terminal sends:
/// control characters for the simple keys, `ESC O letter` (SS3) for F1–F4,
/// `ESC [ params ~` (CSI) for F5–F12 and the paging keys, and `ESC [ letter`
/// for the arrows, home and end.
pub open spec fn named_key_spec(s: Seq<char>) -> Option<Seq<char>> {
    if s == seq!['e', 's', 'c'] {
        Some(seq!['\u{1b}'])
    } else if s == seq!['s', 'p', 'a', 'c', 'e'] {
        Some(seq![' '])
    } else if s == seq!['r', 'e', 't'] || s == seq!['r', 'e', 't', 'u', 'r', 'n'] || s == seq![
        'e',
        'n',
        't',
        'e',
        'r',
    ] {
        Some(seq!['\r'])
    } else if s == seq!['t', 'a', 'b'] {
        Some(seq!['\t'])
    } else if s == seq!['b', 'a', 'c', 'k', 's', 'p', 'a', 'c', 'e'] || s == seq!['b', 's'] {
        Some(seq!['\u{7f}'])
    } else if s == seq!['F', '1'] {
        Some(seq!['\u{1b}', 'O', 'P'])
    } else if s == seq!['F', '2'] {
        Some(seq!['\u{1b}', 'O', 'Q'])
    } else if s == seq!['F', '3'] {
        Some(seq!['\u{1b}', 'O', 'R'])
    } else if s == seq!['F', '4'] {
        Some(seq!['\u{1b}', 'O', 'S'])
    } else if s == seq!['F', '5'] {
        Some(seq!['\u{1b}', '[', '1', '5', '~'])
    } else if s == seq!['F', '6'] {
        Some(seq!['\u{1b}', '[', '1', '7', '~'])
    } else if s == seq!['F', '7'] {
        Some(seq!['\u{1b}', '[', '1', '8', '~'])
    } else if s == seq!['F', '8'] {
        Some(seq!['\u{1b}', '[', '1', '9', '~'])
    } else if s == seq!['F', '9'] {
        Some(seq!['\u{1b}', '[', '2', '0', '~'])
    } else if s == seq!['F', '1', '0'] {
        Some(seq!['\u{1b}', '[', '2', '1', '~'])
    } else if s == seq!['F', '1', '1'] {
        Some(seq!['\u{1b}', '[', '2', '3', '~'])
    } else if s == seq!['F', '1', '2'] {
        Some(seq!['\u{1b}', '[', '2', '4', '~'])
    } else if s == seq!['u', 'p'] {
        Some(seq!['\u{1b}', '[', 'A'])
    } else if s == seq!['d', 'o', 'w', 'n'] {
        Some(seq!['\u{1b}', '[', 'B'])
    } else if s == seq!['r', 'i', 'g', 'h', 't'] {
        Some(seq!['\u{1b}', '[', 'C'])
    } else if s == seq!['l', 'e', 'f', 't'] {
        Some(seq!['\u{1b}', '[', 'D'])
    } else if s == seq!['h', 'o', 'm', 'e'] {
        Some(seq!['\u{1b}', '[', 'H'])
    } else if s == seq!['e', 'n', 'd'] {
        Some(seq!['\u{1b}', '[', 'F'])
    } else if s == seq!['p', 'a', 'g', 'e', 'u', 'p'] || s == seq!['p', 'g', 'u', 'p'] {
        Some(seq!['\u{1b}', '[', '5', '~'])
    } else if s == seq!['p', 'a', 'g', 'e', 'd', 'o', 'w', 'n'] || s == seq!['p', 'g', 'd', 'n'] {
        Some(seq!['\u{1b}', '[', '6', '~'])
    } else if s == seq!['i', 'n', 's', 'e', 'r', 't'] || s == seq!['i', 'n', 's'] {
        Some(seq!['\u{1b}', '[', '2', '~'])
    } else if s == seq!['d', 'e', 'l', 'e', 't', 'e'] || s == seq!['d', 'e', 'l'] {
        Some(seq!['\u{1b}', '[', '3', '~'])
    } else {
        None
    }
}

/// Looks `v` up in the named-key table.
pub fn named_key(v: &Vec<char>) -> (r: Option<Vec<char>>)
    ensures
        match r {
            Some(u) => named_key_spec(v@) == Some(u@),
            None => named_key_spec(v@) is None,
        },
{
    proof {
        reveal_strlit("esc");
        reveal_strlit("space");
        reveal_strlit("ret");
        reveal_strlit("return");
        reveal_strlit("enter");
        reveal_strlit("tab");
        reveal_strlit("backspace");
        reveal_strlit("bs");
        reveal_strlit("F1");
        reveal_strlit("F2");
        reveal_strlit("F3");
        reveal_strlit("F4");
        reveal_strlit("F5");
        reveal_strlit("F6");
        reveal_strlit("F7");
        reveal_strlit("F8");
        reveal_strlit("F9");
        reveal_strlit("F10");
        reveal_strlit("F11");
        reveal_strlit("F12");
        reveal_strlit("up");
        reveal_strlit("down");
        reveal_strlit("right");
        reveal_strlit("left");
        reveal_strlit("home");
        reveal_strlit("end");
        reveal_strlit("pageup");
        reveal_strlit("pgup");
        reveal_strlit("pagedown");
        reveal_strlit("pgdn");
        reveal_strlit("insert");
        reveal_strlit("ins");
        reveal_strlit("delete");
        reveal_strlit("del");
        assert("esc"@ =~= seq!['e', 's', 'c']);
        assert("space"@ =~= seq!['s', 'p', 'a', 'c', 'e']);
        assert("ret"@ =~= seq!['r', 'e', 't']);
        assert("return"@ =~= seq!['r', 'e', 't', 'u', 'r', 'n']);
        assert("enter"@ =~= seq!['e', 'n', 't', 'e', 'r']);
        assert("tab"@ =~= seq!['t', 'a', 'b']);
        assert("backspace"@ =~= seq!['b', 'a', 'c', 'k', 's', 'p', 'a', 'c', 'e']);
        assert("bs"@ =~= seq!['b', 's']);
        assert("F1"@ =~= seq!['F', '1']);
        assert("F2"@ =~= seq!['F', '2']);
        assert("F3"@ =~= seq!['F', '3']);
        assert("F4"@ =~= seq!['F', '4']);
        assert("F5"@ =~= seq!['F', '5']);
        assert("F6"@ =~= seq!['F', '6']);
        assert("F7"@ =~= seq!['F', '7']);
        assert("F8"@ =~= seq!['F', '8']);
        assert("F9"@ =~= seq!['F', '9']);
        assert("F10"@ =~= seq!['F', '1', '0']);
        assert("F11"@ =~= seq!['F', '1', '1']);
        assert("F12"@ =~= seq!['F', '1', '2']);
        assert("up"@ =~= seq!['u', 'p']);
        assert("down"@ =~= seq!['d', 'o', 'w', 'n']);
        assert("right"@ =~= seq!['r', 'i', 'g', 'h', 't']);
        assert("left"@ =~= seq!['l', 'e', 'f', 't']);
        assert("home"@ =~= seq!['h', 'o', 'm', 'e']);
        assert("end"@ =~= seq!['e', 'n', 'd']);
        assert("pageup"@ =~= seq!['p', 'a', 'g', 'e', 'u', 'p']);
        assert("pgup"@ =~= seq!['p', 'g', 'u', 'p']);
        assert("pagedown"@ =~= seq!['p', 'a', 'g', 'e', 'd', 'o', 'w', 'n']);
        assert("pgdn"@ =~= seq!['p', 'g', 'd', 'n']);
        assert("insert"@ =~= seq!['i', 'n', 's', 'e', 'r', 't']);
        assert("ins"@ =~= seq!['i', 'n', 's']);
        assert("delete"@ =~= seq!['d', 'e', 'l', 'e', 't', 'e']);
        assert("del"@ =~= seq!['d', 'e', 'l']);
    }
    if eq_str(v, "esc") {
        let r = vec!['\u{1b}'];
        proof {
            assert(r@ =~= seq!['\u{1b}']);
        }
        return Some(r);
    }
    if eq_str(v, "space") {
        let r = vec![' '];
        proof {
            assert(r@ =~= seq![' ']);
        }
        return Some(r);
    }
    if eq_str(v, "ret") || eq_str(v, "return") || eq_str(v, "enter") {
        let r = vec!['\r'];
        proof {
            assert(r@ =~= seq!['\r']);
        }
        return Some(r);
    }
    if eq_str(v, "tab") {
        let r = vec!['\t'];
        proof {
            assert(r@ =~= seq!['\t']);
        }
        return Some(r);
    }
    if eq_str(v, "backspace") || eq_str(v, "bs") {
        let r = vec!['\u{7f}'];
        proof {
            assert(r@ =~= seq!['\u{7f}']);
        }
        return Some(r);
    }
    if eq_str(v, "F1") {
        let r = vec!['\u{1b}', 'O', 'P'];
        proof {
            assert(r@ =~= seq!['\u{1b}', 'O', 'P']);
        }
        return Some(r);
    }
    if eq_str(v, "F2") {
        let r = vec!['\u{1b}', 'O', 'Q'];
        proof {
            assert(r@ =~= seq!['\u{1b}', 'O', 'Q']);
        }
        return Some(r);
    }
    if eq_str(v, "F3") {
        let r = vec!['\u{1b}', 'O', 'R'];
        proof {
            assert(r@ =~= seq!['\u{1b}', 'O', 'R']);
        }
        return Some(r);
    }
    if eq_str(v, "F4") {
        let r = vec!['\u{1b}', 'O', 'S'];
        proof {
            assert(r@ =~= seq!['\u{1b}', 'O', 'S']);
        }
        return Some(r);
    }
    if eq_str(v, "F5") {
        let r = vec!['\u{1b}', '[', '1', '5', '~'];
        proof {
            assert(r@ =~= seq!['\u{1b}', '[', '1', '5', '~']);
        }
        return Some(r);
    }
    if eq_str(v, "F6") {
        let r = vec!['\u{1b}', '[', '1', '7', '~'];
        proof {
            assert(r@ =~= seq!['\u{1b}', '[', '1', '7', '~']);
        }
        return Some(r);
    }
    if eq_str(v, "F7") {
        let r = vec!['\u{1b}', '[', '1', '8', '~'];
        proof {
            assert(r@ =~= seq!['\u{1b}', '[', '1', '8', '~']);
        }
        return Some(r);
    }
    if eq_str(v, "F8") {
        let r = vec!['\u{1b}', '[', '1', '9', '~'];
        proof {
            assert(r@ =~= seq!['\u{1b}', '[', '1', '9', '~']);
        }
        return Some(r);
    }
    if eq_str(v, "F9") {
        let r = vec!['\u{1b}', '[', '2', '0', '~'];
        proof {
            assert(r@ =~= seq!['\u{1b}', '[', '2', '0', '~']);
        }
        return Some(r);
    }
    if eq_str(v, "F10") {
        let r = vec!['\u{1b}', '[', '2', '1', '~'];
        proof {
            assert(r@ =~= seq!['\u{1b}', '[', '2', '1', '~']);
        }
        return Some(r);
    }
    if eq_str(v, "F11") {
        let r = vec!['\u{1b}', '[', '2', '3', '~'];
        proof {
            assert(r@ =~= seq!['\u{1b}', '[', '2', '3', '~']);
        }
        return Some(r);
    }
    if eq_str(v, "F12") {
        let r = vec!['\u{1b}', '[', '2', '4', '~'];
        proof {
            assert(r@ =~= seq!['\u{1b}', '[', '2', '4', '~']);
        }
        return Some(r);
    }
    if eq_str(v, "up") {
        let r = vec!['\u{1b}', '[', 'A'];
        proof {
            assert(r@ =~= seq!['\u{1b}', '[', 'A']);
        }
        return Some(r);
    }
    if eq_str(v, "down") {
        let r = vec!['\u{1b}', '[', 'B'];
        proof {
            assert(r@ =~= seq!['\u{1b}', '[', 'B']);
        }
        return Some(r);
    }
    if eq_str(v, "right") {
        let r = vec!['\u{1b}', '[', 'C'];
        proof {
            assert(r@ =~= seq!['\u{1b}', '[', 'C']);
        }
        return Some(r);
    }
    if eq_str(v, "left") {
        let r = vec!['\u{1b}', '[', 'D'];
        proof {
            assert(r@ =~= seq!['\u{1b}', '[', 'D']);
        }
        return Some(r);
    }
    if eq_str(v, "home") {
        let r = vec!['\u{1b}', '[', 'H'];
        proof {
            assert(r@ =~= seq!['\u{1b}', '[', 'H']);
        }
        return Some(r);
    }
    if eq_str(v, "end") {
        let r = vec!['\u{1b}', '[', 'F'];
        proof {
            assert(r@ =~= seq!['\u{1b}', '[', 'F']);
        }
        return Some(r);
    }
    if eq_str(v, "pageup") || eq_str(v, "pgup") {
        let r = vec!['\u{1b}', '[', '5', '~'];
        proof {
            assert(r@ =~= seq!['\u{1b}', '[', '5', '~']);
        }
        return Some(r);
    }
    if eq_str(v, "pagedown") || eq_str(v, "pgdn") {
        let r = vec!['\u{1b}', '[', '6', '~'];
        proof {
            assert(r@ =~= seq!['\u{1b}', '[', '6', '~']);
        }
        return Some(r);
    }
    if eq_str(v, "insert") || eq_str(v, "ins") {
        let r = vec!['\u{1b}', '[', '2', '~'];
        proof {
            assert(r@ =~= seq!['\u{1b}', '[', '2', '~']);
        }
        return Some(r);
    }
    if eq_str(v, "delete") || eq_str(v, "del") {
        let r = vec!['\u{1b}', '[', '3', '~'];
        proof {
            assert(r@ =~= seq!['\u{1b}', '[', '3', '~']);
        }
        return Some(r);
    }
    None
}

/// The index of the first `c` in `s` at or after `i`, or `s.len()` if there
/// is none.
pub open spec fn find_from(s: Seq<char>, c: char, i: nat) -> nat
    decreases s.len() - i,
{
    if i >= s.len() {
        s.len()
    } else if s[i as int] == c {
        i
    } else {
        find_from(s, c, i + 1)
    }
}

/// The index of the first `c` in `v` at or after `i`, or `v.len()`.
pub fn find_char(v: &Vec<char>, c: char, i: usize) -> (r: usize)
    requires
        i <= v.len(),
    ensures
        r == find_from(v@, c, i as nat),
        i <= r <= v@.len(),
        r < v@.len() ==> v@[r as int] == c,
    decreases v@.len() - i,
{
    if i == v.len() {
        v.len()
    } else if v[i] == c {
        i
    } else {
        find_char(v, c, i + 1)
    }
}

/// `s` split at every `-`; a spec without a dash is the one-segment split.
pub open spec fn split_dash(s: Seq<char>) -> Seq<Seq<char>>
    decreases s.len(),
{
    let i = find_from(s, '-', 0);
    if i >= s.len() {
        seq![s]
    } else {
        seq![s.subrange(0, i as int)] + split_dash(s.subrange(i as int + 1, s.len() as int))
    }
}

/// `v` split at every `-`.
pub fn split_dash_vec(v: &Vec<char>) -> (r: Vec<Vec<char>>)
    ensures
        r.deep_view() == split_dash(v@),
    decreases v@.len(),
{
    let i = find_char(v, '-', 0);
    if i == v.len() {
        let whole = subvec(v, 0, v.len());
        let mut r: Vec<Vec<char>> = Vec::new();
        r.push(whole);
        proof {
            lemma_chars_deep_view(r@[0]);
            assert(r@[0]@ =~= v@);
            assert(r.deep_view() =~~= split_dash(v@));
        }
        r
    } else {
        let head = subvec(v, 0, i);
        let tail = subvec(v, i + 1, v.len());
        let mut r = split_dash_vec(&tail);
        r.insert(0, head);
        proof {
            lemma_chars_deep_view(r@[0]);
            assert(r.deep_view() =~~= seq![v@.subrange(0, i as int)] + split_dash(
                v@.subrange(i as int + 1, v@.len() as int),
            ));
            assert(r.deep_view() =~~= split_dash(v@));
        }
        r
    }
}

/// Whether a modifier segment names Ctrl: `c` or `ctrl`, in any letter case.
pub open spec fn is_ctrl_alias(s: Seq<char>) -> bool {
    (s.len() == 1 && lower_ascii(s[0]) == 'c') || (s.len() == 4 && lower_ascii(s[0]) == 'c'
        && lower_ascii(s[1]) == 't' && lower_ascii(s[2]) == 'r' && lower_ascii(s[3]) == 'l')
}

/// Whether a modifier segment names Alt: `a`, `m`, `alt` or `meta`, in any
/// letter case.
pub open spec fn is_alt_alias(s: Seq<char>) -> bool {
    (s.len() == 1 && (lower_ascii(s[0]) == 'a' || lower_ascii(s[0]) == 'm')) || (s.len() == 3
        && lower_ascii(s[0]) == 'a' && lower_ascii(s[1]) == 'l' && lower_ascii(s[2]) == 't') || (
    s.len() == 4 && lower_ascii(s[0]) == 'm' && lower_ascii(s[1]) == 'e' && lower_ascii(s[2]) == 't'
        && lower_ascii(s[3]) == 'a')
}

/// Whether a modifier segment names Shift: `s` or `shift`, in any letter
/// case.
pub open spec fn is_shift_alias(s: Seq<char>) -> bool {
    (s.len() == 1 && lower_ascii(s[0]) == 's') || (s.len() == 5 && lower_ascii(s[0]) == 's'
        && lower_ascii(s[1]) == 'h' && lower_ascii(s[2]) == 'i' && lower_ascii(s[3]) == 'f'
        && lower_ascii(s[4]) == 't')
}

fn is_ctrl_alias_vec(s: &Vec<char>) -> (r: bool)
    ensures
        r == is_ctrl_alias(s@),
{
    if s.len() == 1 {
        to_lower_ascii(s[0]) == 'c'
    } else if s.len() == 4 {
        to_lower_ascii(s[0]) == 'c' && to_lower_ascii(s[1]) == 't' && to_lower_ascii(s[2]) == 'r'
            && to_lower_ascii(s[3]) == 'l'
    } else {
        false
    }
}

fn is_alt_alias_vec(s: &Vec<char>) -> (r: bool)
    ensures
        r == is_alt_alias(s@),
{
    if s.len() == 1 {
        to_lower_ascii(s[0]) == 'a' || to_lower_ascii(s[0]) == 'm'
    } else if s.len() == 3 {
        to_lower_ascii(s[0]) == 'a' && to_lower_ascii(s[1]) == 'l' && to_lower_ascii(s[2]) == 't'
    } else if s.len() == 4 {
        to_lower_ascii(s[0]) == 'm' && to_lower_ascii(s[1]) == 'e' && to_lower_ascii(s[2]) == 't'
            && to_lower_ascii(s[3]) == 'a'
    } else {
        false
    }
}

fn is_shift_alias_vec(s: &Vec<char>) -> (r: bool)
    ensures
        r == is_shift_alias(s@),
{
    if s.len() == 1 {
        to_lower_ascii(s[0]) == 's'
    } else if s.len() == 5 {
        to_lower_ascii(s[0]) == 's' && to_lower_ascii(s[1]) == 'h' && to_lower_ascii(s[2]) == 'i'
            && to_lower_ascii(s[3]) == 'f' && to_lower_ascii(s[4]) == 't'
    } else {
        false
    }
}

/// The verbatim fallback for an unrecognized spec: `<` + `s` + `>`.
pub open spec fn bracketed(s: Seq<char>) -> Seq<char> {
    seq!['<'] + s + seq!['>']
}

fn bracketed_vec(v: &Vec<char>) -> (r: Vec<char>)
    ensures
        r@ == bracketed(v@),
{
    let mut r: Vec<char> = Vec::new();
    r.push('<');
    append_all(&mut r, v);
    r.push('>');
    proof {
        assert(r@ =~= bracketed(v@));
    }
    r
}

/// Unicode uppercasing of a character sequence, as `str::to_uppercase`
/// computes it.
pub uninterp spec fn upper_of(s: Seq<char>) -> Seq<char>;

/// Relies on `str::to_uppercase`: the Unicode uppercase of the text, a
/// function of the characters alone.
#[verifier::external_body]
fn uppercase(s: &str) -> (r: String)
    ensures
        r@ == upper_of(s@),
{
    s.to_uppercase()
}

/// The base key of a combo: a named key's sequence, a single character
/// itself, and nothing else.
pub open spec fn base_key_spec(key: Seq<char>) -> Option<Seq<char>> {
    if named_key_spec(key) is Some {
        named_key_spec(key)
    } else if key.len() == 1 {
        Some(key)
    } else {
        None
    }
}

/// What Ctrl alone makes of a base key: letters map to their control codes,
/// `space` (written out or as the character) to NUL, `[`, `]` and `\` to
/// their C0 codes; everything else has no Ctrl form.
pub open spec fn ctrl_only_spec(key: Seq<char>) -> Option<Seq<char>> {
    if key.len() == 1 {
        let ch = lower_ascii(key[0]);
        if is_lower_letter(ch) {
            Some(seq![ctrl_char(ch)])
        } else if ch == ' ' {
            Some(seq!['\u{00}'])
        } else if ch == '[' {
            Some(seq!['\u{1b}'])
        } else if ch == ']' {
            Some(seq!['\u{1d}'])
        } else if ch == '\\' {
            Some(seq!['\u{1c}'])
        } else {
            None
        }
    } else if key == seq!['s', 'p', 'a', 'c', 'e'] {
        Some(seq!['\u{00}'])
    } else {
        None
    }
}

/// The modifier rules, in precedence order: Ctrl alone, Alt without Ctrl
/// (ESC prepended to the base sequence), Shift alone on a single character
/// (uppercased), Ctrl+Shift on a letter (its control code), Ctrl+Alt (ESC
/// before the Ctrl form of a letter, or before the base sequence). Whatever
/// matches no rule falls back to the bracketed spec verbatim.
pub open spec fn combo_apply(s: Seq<char>, key: Seq<char>, ctrl: bool, alt: bool, shift: bool) -> Seq<
    char,
> {
    if base_key_spec(key) is None {
        bracketed(s)
    } else if ctrl && !alt && !shift {
        if ctrl_only_spec(key) is Some {
            ctrl_only_spec(key)->0
        } else {
            bracketed(s)
        }
    } else if alt && !ctrl {
        seq!['\u{1b}'] + base_key_spec(key)->0
    } else if shift && !ctrl && !alt && key.len() == 1 {
        upper_of(key)
    } else if ctrl && shift && !alt && key.len() == 1 && is_ascii_letter(key[0]) {
        seq![ctrl_char(lower_ascii(key[0]))]
    } else if ctrl && alt {
        if key.len() == 1 {
            if is_ascii_letter(key[0]) {
                seq!['\u{1b}', ctrl_char(lower_ascii(key[0]))]
            } else {
                bracketed(s)
            }
        } else {
            seq!['\u{1b}'] + base_key_spec(key)->0
        }
    } else {
        bracketed(s)
    }
}

pub open spec fn has_mod_ctrl(mods: Seq<Seq<char>>) -> bool {
    exists|i: int| 0 <= i < mods.len() && is_ctrl_alias(mods[i])
}

pub open spec fn has_mod_alt(mods: Seq<Seq<char>>) -> bool {
    exists|i: int| 0 <= i < mods.len() && is_alt_alias(mods[i])
}

pub open spec fn has_mod_shift(mods: Seq<Seq<char>>) -> bool {
    exists|i: int| 0 <= i < mods.len() && is_shift_alias(mods[i])
}

/// A modifier combo resolved: the last dash-separated segment is the base
/// key, the segments before it set the modifier flags (segments that name no
/// modifier are ignored), and the rules of [`combo_apply`] decide the
/// result.
pub open spec fn combo_spec(s: Seq<char>) -> Seq<char> {
    let parts = split_dash(s);
    if parts.len() < 2 {
        bracketed(s)
    } else {
        let key = parts[parts.len() - 1];
        let mods = parts.subrange(0, parts.len() - 1);
        combo_apply(s, key, has_mod_ctrl(mods), has_mod_alt(mods), has_mod_shift(mods))
    }
}

fn combo_vec(v: &Vec<char>) -> (r: Vec<char>)
    ensures
        r@ == combo_spec(v@),
{
    let parts = split_dash_vec(v);
    let ghost sparts = split_dash(v@);
    proof {
        assert(parts@.len() == sparts.len());
    }
    if parts.len() < 2 {
        return bracketed_vec(v);
    }
    let key = &parts[parts.len() - 1];
    let ghost mods = sparts.subrange(0, sparts.len() - 1);
    proof {
        assert(key@ == sparts[sparts.len() - 1]);
    }
    let mut ctrl = false;
    let mut alt = false;
    let mut shift = false;
    let mut i: usize = 0;
    while i < parts.len() - 1
        invariant
            parts.deep_view() == sparts,
            parts@.len() == sparts.len(),
            2 <= parts@.len(),
            mods == sparts.subrange(0, sparts.len() - 1),
            i <= parts@.len() - 1,
            ctrl == (exists|j: int| 0 <= j < i && is_ctrl_alias(mods[j])),
            alt == (exists|j: int| 0 <= j < i && is_alt_alias(mods[j])),
            shift == (exists|j: int| 0 <= j < i && is_shift_alias(mods[j])),
        decreases parts@.len() - 1 - i,
    {
        proof {
            assert(parts@[i as int].deep_view() == mods[i as int]);
            lemma_chars_deep_view(parts@[i as int]);
        }
        if is_ctrl_alias_vec(&parts[i]) {
            ctrl = true;
        }
        if is_alt_alias_vec(&parts[i]) {
            alt = true;
        }
        if is_shift_alias_vec(&parts[i]) {
            shift = true;
        }
        i = i + 1;
    }
    proof {
        assert(ctrl == has_mod_ctrl(mods));
        assert(alt == has_mod_alt(mods));
        assert(shift == has_mod_shift(mods));
    }
    let base: Option<Vec<char>> = match named_key(key) {
        Some(b) => Some(b),
        None => {
            if key.len() == 1 {
                let k = subvec(key, 0, key.len());
                proof {
                    assert(k@ =~= key@);
                }
                Some(k)
            } else {
                None
            }
        },
    };
    proof {
        match &base {
            Some(b) => assert(base_key_spec(key@) == Some(b@)),
            None => assert(base_key_spec(key@) is None),
        }
    }
    match base {
        None => bracketed_vec(v),
        Some(b) => {
            if ctrl && !alt && !shift {
                if key.len() == 1 {
                    let ch = to_lower_ascii(key[0]);
                    if 'a' <= ch && ch <= 'z' {
                        let r = vec![to_ctrl_char(ch)];
                        proof {
                            assert(r@ =~= seq![ctrl_char(ch)]);
                        }
                        r
                    } else if ch == ' ' {
                        let r = vec!['\u{00}'];
                        proof {
                            assert(r@ =~= seq!['\u{00}']);
                        }
                        r
                    } else if ch == '[' {
                        let r = vec!['\u{1b}'];
                        proof {
                            assert(r@ =~= seq!['\u{1b}']);
                        }
                        r
                    } else if ch == ']' {
                        let r = vec!['\u{1d}'];
                        proof {
                            assert(r@ =~= seq!['\u{1d}']);
                        }
                        r
                    } else if ch == '\\' {
                        let r = vec!['\u{1c}'];
                        proof {
                            assert(r@ =~= seq!['\u{1c}']);
                        }
                        r
                    } else {
                        bracketed_vec(v)
                    }
                } else {
                    let is_space = eq_str(key, "space");
                    proof {
                        reveal_strlit("space");
                        assert("space"@ =~= seq!['s', 'p', 'a', 'c', 'e']);
                    }
                    if is_space {
                        let r = vec!['\u{00}'];
                        proof {
                            assert(r@ =~= seq!['\u{00}']);
                        }
                        r
                    } else {
                        bracketed_vec(v)
                    }
                }
            } else if alt && !ctrl {
                let mut r = vec!['\u{1b}'];
                append_all(&mut r, &b);
                proof {
                    assert(r@ =~= seq!['\u{1b}'] + b@);
                }
                r
            } else if shift && !ctrl && !alt && key.len() == 1 {
                let ks = string_of(key);
                let up = uppercase(ks.as_str());
                chars_of(up.as_str())
            } else if ctrl && shift && !alt && key.len() == 1 && (('a' <= key[0] && key[0] <= 'z')
                || ('A' <= key[0] && key[0] <= 'Z')) {
                let r = vec![to_ctrl_char(to_lower_ascii(key[0]))];
                proof {
                    assert(r@ =~= seq![ctrl_char(lower_ascii(key@[0]))]);
                }
                r
            } else if ctrl && alt {
                if key.len() == 1 {
                    if ('a' <= key[0] && key[0] <= 'z') || ('A' <= key[0] && key[0] <= 'Z') {
                        let r = vec!['\u{1b}', to_ctrl_char(to_lower_ascii(key[0]))];
                        proof {
                            assert(r@ =~= seq!['\u{1b}', ctrl_char(lower_ascii(key@[0]))]);
                        }
                        r
                    } else {
                        bracketed_vec(v)
                    }
                } else {
                    let mut r = vec!['\u{1b}'];
                    append_all(&mut r, &b);
                    proof {
                        assert(r@ =~= seq!['\u{1b}'] + b@);
                    }
                    r
                }
            } else {
                bracketed_vec(v)
            }
        },
    }
}

/// Resolves a modifier-combo key specification (the content between `<` and
/// `>`, e.g. `C-c` or `A-S-F5`) to the characters a terminal would send, or
/// to the bracketed spec verbatim where no rule applies.
pub fn parse_modifier_combo(spec: &str) -> (r: String)
    ensures
        r@ == combo_spec(spec@),
{
    let v = chars_of(spec);
    let out = combo_vec(&v);
    string_of(&out)
}

/// A key specification resolved: a named key's sequence, a combo's
/// resolution where the spec holds a dash, and the bracketed spec verbatim
/// otherwise.
pub open spec fn resolve_key_spec(s: Seq<char>) -> Seq<char> {
    if named_key_spec(s) is Some {
        named_key_spec(s)->0
    } else if find_from(s, '-', 0) < s.len() {
        combo_spec(s)
    } else {
        bracketed(s)
    }
}

/// Law: for every lowercase ASCII letter `x`, the spec `C-x` resolves to
/// the single control character whose code is `x`'s code minus the code of
/// `a`, plus one.
pub proof fn lemma_ctrl_letter(c: char)
    requires
        'a' <= c && c <= 'z',
    ensures
        ({
            let r = resolve_key_spec(seq!['C', '-', c]);
            r.len() == 1 && r[0] as u32 == c as u32 - 96
        }),
{
    let s = seq!['C', '-', c];
    lemma_two_part_combo('C', c);
    assert(named_key_spec(seq![c]) is None);
    assert(lower_ascii(c) == c);
    assert(ctrl_only_spec(seq![c]) == Some(seq![ctrl_char(c)]));
    assert(combo_apply(s, seq![c], true, false, false) == seq![ctrl_char(c)]);
}

/// Law: for every character `x` other than a dash, the spec `A-x` resolves
/// to ESC followed by `x` itself, `x`'s own resolution as a base key.
pub proof fn lemma_alt_single_char(c: char)
    requires
        c != '-',
    ensures
        resolve_key_spec(seq!['A', '-', c]) == seq!['\u{1b}', c],
{
    let s = seq!['A', '-', c];
    lemma_two_part_combo('A', c);
    assert(named_key_spec(seq![c]) is None);
    assert(base_key_spec(seq![c]) == Some(seq![c]));
    assert(combo_apply(s, seq![c], false, true, false) == seq!['\u{1b}'] + seq![c]);
    assert(seq!['\u{1b}'] + seq![c] =~= seq!['\u{1b}', c]);
}

proof fn lemma_find_from_none(s: Seq<char>, c: char, i: nat)
    requires
        forall|k: int| i <= k < s.len() ==> s[k] != c,
    ensures
        find_from(s, c, i) == s.len(),
    decreases s.len() - i,
{
    if i < s.len() {
        lemma_find_from_none(s, c, i + 1);
    }
}

/// Law: Alt prepends one ESC to the base key's own resolution, whatever
/// the base key — a named key or a single character.
pub proof fn lemma_alt_prepends_escape(key: Seq<char>)
    requires
        forall|k: int| 0 <= k < key.len() ==> key[k] != '-',
        base_key_spec(key) is Some,
    ensures
        resolve_key_spec(seq!['A', '-'] + key) == seq!['\u{1b}'] + base_key_spec(key)->0,
{
    let s = seq!['A', '-'] + key;
    assert(s[0] == 'A');
    assert(s[1] == '-');
    assert(named_key_spec(s) is None);
    reveal_with_fuel(find_from, 3);
    assert(find_from(s, '-', 0) == 1);
    reveal_with_fuel(split_dash, 2);
    let tail = s.subrange(2, s.len() as int);
    assert(tail =~= key);
    lemma_find_from_none(key, '-', 0);
    assert(split_dash(key) == seq![key]);
    assert(s.subrange(0, 1) =~= seq!['A']);
    assert(split_dash(s) =~~= seq![seq!['A'], key]);
    let parts = split_dash(s);
    let mods = parts.subrange(0, 1);
    assert(mods =~~= seq![seq!['A']]);
    assert(mods[0] == seq!['A']);
    assert(is_alt_alias(seq!['A']));
    assert(has_mod_alt(mods));
    assert(forall|i: int| 0 <= i < mods.len() ==> !is_ctrl_alias(mods[i]));
    assert(forall|i: int| 0 <= i < mods.len() ==> !is_shift_alias(mods[i]));
    assert(parts[parts.len() - 1] == key);
    assert(combo_spec(s) == combo_apply(s, key, false, true, has_mod_shift(mods)));
}

/// A three-character spec `m-x` with `m` and `x` single non-dash
/// characters splits into the modifier `m` and the base key `x`, is no
/// named key, and resolves through the combo rules with exactly the flags
/// that `m` names.
proof fn lemma_two_part_combo(m: char, c: char)
    requires
        m != '-',
        c != '-',
    ensures
        ({
            let s = seq![m, '-', c];
            &&& named_key_spec(s) is None
            &&& find_from(s, '-', 0) == 1
            &&& split_dash(s) == seq![seq![m], seq![c]]
            &&& resolve_key_spec(s) == combo_apply(
                s,
                seq![c],
                is_ctrl_alias(seq![m]),
                is_alt_alias(seq![m]),
                is_shift_alias(seq![m]),
            )
        }),
{
    let s = seq![m, '-', c];
    assert(s.len() == 3);
    assert(s[1] == '-');
    assert(named_key_spec(s) is None);
    reveal_with_fuel(find_from, 4);
    assert(find_from(s, '-', 0) == 1);
    reveal_with_fuel(split_dash, 3);
    let tail = s.subrange(2, 3);
    assert(tail =~= seq![c]);
    assert(find_from(tail, '-', 0) == 1);
    assert(split_dash(tail) =~~= seq![seq![c]]);
    assert(s.subrange(0, 1) =~= seq![m]);
    assert(split_dash(s) =~~= seq![seq![m], seq![c]]);
    let parts = split_dash(s);
    let mods = parts.subrange(0, 1);
    assert(mods =~~= seq![seq![m]]);
    assert(mods[0] == seq![m]);
    if is_ctrl_alias(seq![m]) {
        assert(has_mod_ctrl(mods));
    } else {
        assert(forall|i: int| 0 <= i < mods.len() ==> !is_ctrl_alias(mods[i]));
    }
    if is_alt_alias(seq![m]) {
        assert(has_mod_alt(mods));
    } else {
        assert(forall|i: int| 0 <= i < mods.len() ==> !is_alt_alias(mods[i]));
    }
    if is_shift_alias(seq![m]) {
        assert(has_mod_shift(mods));
    } else {
        assert(forall|i: int| 0 <= i < mods.len() ==> !is_shift_alias(mods[i]));
    }
    assert(parts[parts.len() - 1] == seq![c]);
}

/// Resolves the content of one `<`…`>` key specification.
pub fn resolve_key(v: &Vec<char>) -> (r: Vec<char>)
    ensures
        r@ == resolve_key_spec(v@),
{
    match named_key(v) {
        Some(r) => r,
        None => {
            let i = find_char(v, '-', 0);
            if i < v.len() {
                combo_vec(v)
            } else {
                bracketed_vec(v)
            }
        },
    }
}

} // verus!
