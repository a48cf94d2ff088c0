//! No-break spaces (U+00A0) after ČSN 01 6910 (Czech) and DIN 5008 (German).

use vstd::prelude::*;

use crate::rewrite::{PointRule, ScanRule, apply_point, apply_scan, map_rule, scan_rule};
use crate::text::{
    NBSP,
    char_is,
    digit,
    from_chars,
    is_digit,
    is_word,
    is_ws,
    seq_at,
    to_chars,
    word,
    word_at,
    ws,
};

verus! {

/// Word boundary between positions `e - 1` and `e` (`\b`).
pub open spec fn boundary(s: Seq<char>, e: int) -> bool {
    (0 < e <= s.len() && is_word(s[e - 1])) != (0 <= e < s.len() && is_word(s[e]))
}

pub fn boundary_exec(s: &Vec<char>, e: usize) -> (r: bool)
    ensures
        r == boundary(s@, e as int),
{
    let before = 0 < e && e <= s.len() && word(s[e - 1]);
    let after = e < s.len() && word(s[e]);
    before != after
}

fn vec_of(w: &[char]) -> (v: Vec<char>)
    ensures
        v@ == w@,
{
    let mut v = Vec::new();
    crate::text::push_all(&mut v, w);
    v
}

// ---------------------------------------------------------------------------
// Single-letter prepositions and conjunctions

pub open spec fn is_prep_letter(c: char) -> bool {
    c == 'k' || c == 's' || c == 'v' || c == 'z' || c == 'o' || c == 'u' || c == 'a' || c == 'i'
        || c == 'K' || c == 'S' || c == 'V' || c == 'Z' || c == 'O' || c == 'U' || c == 'A' || c
        == 'I'
}

/// Characters after which a one-letter word counts as a word of its own.
pub open spec fn prep_before(c: char) -> bool {
    is_ws(c) || c == '(' || c == '[' || c == '{' || c == '\u{201e}' || c == '\u{201a}' || c == '>'
}

/// The space after a one-letter preposition or conjunction.
pub open spec fn prep_space(s: Seq<char>, j: int) -> bool {
    1 <= j < s.len() && s[j] == ' ' && is_prep_letter(s[j - 1]) && (j == 1 || prep_before(
        s[j - 2],
    ))
}

pub struct Prepositions;

impl PointRule for Prepositions {
    open spec fn spec_char(&self, s: Seq<char>, j: int) -> char {
        if prep_space(s, j) {
            NBSP
        } else {
            s[j]
        }
    }

    fn exec_char(&self, s: &Vec<char>, j: usize) -> (c: char) {
        let c = s[j];
        if 1 <= j && c == ' ' {
            let l = s[j - 1];
            if (l == 'k' || l == 's' || l == 'v' || l == 'z' || l == 'o' || l == 'u' || l == 'a'
                || l == 'i' || l == 'K' || l == 'S' || l == 'V' || l == 'Z' || l == 'O' || l
                == 'U' || l == 'A' || l == 'I') && (j == 1 || {
                let b = s[j - 2];
                ws(b) || b == '(' || b == '[' || b == '{' || b == '\u{201e}' || b == '\u{201a}'
                    || b == '>'
            }) {
                return NBSP;
            }
        }
        c
    }
}

pub open spec fn prepositions_pass(s: Seq<char>) -> Seq<char> {
    map_rule(Prepositions, s)
}

/// A second reading finds nothing left to bind.
pub proof fn lemma_prepositions_idempotent(s: Seq<char>)
    ensures
        prepositions_pass(prepositions_pass(s)) == prepositions_pass(s),
{
    let t = prepositions_pass(s);
    assert forall|j: int| 0 <= j < t.len() implies #[trigger] Prepositions.spec_char(t, j)
        == t[j] by {
        if prep_space(t, j) {
            assert(t[j] == s[j]);
            assert(t[j - 1] == s[j - 1]);
            if j >= 2 {
                assert(t[j - 2] == s[j - 2] || (t[j - 2] == NBSP && s[j - 2] == ' '));
            }
            assert(prep_space(s, j));
        }
    }
    assert(prepositions_pass(t) =~= t);
}

/// After a one-letter preposition or conjunction (k, s, v, z, o, u, a, i, or
/// its capital) that stands as a word of its own (at the start, or after
/// white space, an opening bracket, an opening low quote or `>`), the space
/// that follows becomes a no-break space; every other space stays, and so
/// does every other character.
pub proof fn lemma_prepositions_bind(s: Seq<char>)
    ensures
        prepositions_pass(s).len() == s.len(),
        forall|j: int|
            1 <= j < s.len() && s[j] == ' ' && (s[j - 1] == 'k' || s[j - 1] == 's' || s[j - 1]
                == 'v' || s[j - 1] == 'z' || s[j - 1] == 'o' || s[j - 1] == 'u' || s[j - 1] == 'a'
                || s[j - 1] == 'i' || s[j - 1] == 'K' || s[j - 1] == 'S' || s[j - 1] == 'V' || s[j
                - 1] == 'Z' || s[j - 1] == 'O' || s[j - 1] == 'U' || s[j - 1] == 'A' || s[j - 1]
                == 'I') && (j == 1 || is_ws(s[j - 2]) || s[j - 2] == '(' || s[j - 2] == '[' || s[j
                - 2] == '{' || s[j - 2] == '\u{201e}' || s[j - 2] == '\u{201a}' || s[j - 2] == '>')
                ==> #[trigger] prepositions_pass(s)[j] == '\u{a0}',
        forall|j: int|
            0 <= j < s.len() && s[j] == ' ' && !(1 <= j && (s[j - 1] == 'k' || s[j - 1] == 's'
                || s[j - 1] == 'v' || s[j - 1] == 'z' || s[j - 1] == 'o' || s[j - 1] == 'u' || s[j
                - 1] == 'a' || s[j - 1] == 'i' || s[j - 1] == 'K' || s[j - 1] == 'S' || s[j - 1]
                == 'V' || s[j - 1] == 'Z' || s[j - 1] == 'O' || s[j - 1] == 'U' || s[j - 1] == 'A'
                || s[j - 1] == 'I') && (j == 1 || is_ws(s[j - 2]) || s[j - 2] == '(' || s[j - 2]
                == '[' || s[j - 2] == '{' || s[j - 2] == '\u{201e}' || s[j - 2] == '\u{201a}' || s[j
                - 2] == '>')) ==> #[trigger] prepositions_pass(s)[j] == ' ',
        forall|j: int|
            0 <= j < s.len() ==> #[trigger] prepositions_pass(s)[j] == s[j] || (s[j] == ' '
                && prepositions_pass(s)[j] == '\u{a0}'),
{
}

/// After the one-letter prepositions and conjunctions k, s, v, z, o, u, a, i
/// (also capitalised) the line may not break. The rule is read twice.
pub fn single_letter_prepositions(text: &str) -> (r: String)
    ensures
        r@ == prepositions_pass(prepositions_pass(text@)),
        r@ == prepositions_pass(text@),
{
    let s = to_chars(text);
    let once = apply_point(&Prepositions, &s);
    let twice = apply_point(&Prepositions, &once);
    proof {
        lemma_prepositions_idempotent(text@);
    }
    from_chars(&twice)
}

pub fn single_letter_prepositions_chars(s: &Vec<char>) -> (r: Vec<char>)
    ensures
        r@ == prepositions_pass(prepositions_pass(s@)),
{
    let once = apply_point(&Prepositions, s);
    apply_point(&Prepositions, &once)
}

// ---------------------------------------------------------------------------
// Number and unit

/// Characters that may follow a unit.
pub open spec fn unit_after(c: char) -> bool {
    is_ws(c) || c == '.' || c == ',' || c == ';' || c == ':' || c == '!' || c == '?' || c == ')'
        || c == ']' || c == '}'
}

/// The unit `u` stands at `k` and is not the start of a longer word.
pub open spec fn unit_at(s: Seq<char>, k: int, u: Seq<char>) -> bool {
    seq_at(s, k, u) && (k + u.len() == s.len() || (k + u.len() < s.len() && unit_after(
        s[k + u.len()],
    )))
}

/// Some unit of the list stands at `k`.
pub open spec fn unit_follows(s: Seq<char>, k: int) -> bool {
    unit_at(s, k, seq!['\u{b0}', 'C'])
    || unit_at(s, k, seq!['\u{b0}', 'F'])
    || unit_at(s, k, seq!['%'])
    || unit_at(s, k, seq!['\u{2030}'])
    || unit_at(s, k, seq!['k', 'g'])
    || unit_at(s, k, seq!['m', 'g'])
    || unit_at(s, k, seq!['g'])
    || unit_at(s, k, seq!['t'])
    || unit_at(s, k, seq!['k', 'm'])
    || unit_at(s, k, seq!['m', 'm'])
    || unit_at(s, k, seq!['c', 'm'])
    || unit_at(s, k, seq!['d', 'm'])
    || unit_at(s, k, seq!['m'])
    || unit_at(s, k, seq!['h', 'a'])
    || unit_at(s, k, seq!['h', 'l'])
    || unit_at(s, k, seq!['m', 'l'])
    || unit_at(s, k, seq!['d', 'l'])
    || unit_at(s, k, seq!['l'])
    || unit_at(s, k, seq!['m', 's'])
    || unit_at(s, k, seq!['s'])
    || unit_at(s, k, seq!['m', 'i', 'n'])
    || unit_at(s, k, seq!['h'])
    || unit_at(s, k, seq!['h', 'o', 'd'])
    || unit_at(s, k, seq!['k', 'H', 'z'])
    || unit_at(s, k, seq!['M', 'H', 'z'])
    || unit_at(s, k, seq!['G', 'H', 'z'])
    || unit_at(s, k, seq!['H', 'z'])
    || unit_at(s, k, seq!['k', 'P', 'a'])
    || unit_at(s, k, seq!['M', 'P', 'a'])
    || unit_at(s, k, seq!['G', 'P', 'a'])
    || unit_at(s, k, seq!['P', 'a'])
    || unit_at(s, k, seq!['k', 'N'])
    || unit_at(s, k, seq!['M', 'N'])
    || unit_at(s, k, seq!['N'])
    || unit_at(s, k, seq!['k', 'J'])
    || unit_at(s, k, seq!['M', 'J'])
    || unit_at(s, k, seq!['J'])
    || unit_at(s, k, seq!['k', 'W', 'h'])
    || unit_at(s, k, seq!['k', 'W'])
    || unit_at(s, k, seq!['M', 'W'])
    || unit_at(s, k, seq!['G', 'W'])
    || unit_at(s, k, seq!['W'])
    || unit_at(s, k, seq!['m', 'V'])
    || unit_at(s, k, seq!['k', 'V'])
    || unit_at(s, k, seq!['V'])
    || unit_at(s, k, seq!['m', 'A'])
    || unit_at(s, k, seq!['A'])
    || unit_at(s, k, seq!['K', '\u{10d}'])
    || unit_at(s, k, seq!['\u{20ac}'])
    || unit_at(s, k, seq!['K'])
    || unit_at(s, k, seq!['m', 'i', 'l', '.'])
    || unit_at(s, k, seq!['m', 'l', 'd', '.'])
    || unit_at(s, k, seq!['t', 'i', 's', '.'])
}

fn unit_after_exec(c: char) -> (r: bool)
    ensures
        r == unit_after(c),
{
    ws(c) || c == '.' || c == ',' || c == ';' || c == ':' || c == '!' || c == '?' || c == ')'
        || c == ']' || c == '}'
}

fn unit_at_exec(s: &Vec<char>, k: usize, u: &[char]) -> (r: bool)
    ensures
        r == unit_at(s@, k as int, u@),
{
    let n = s.len();
    if !word_at(s, k, u) {
        return false;
    }
    assert(k + u.len() <= n);
    let e = k + u.len();
    e == s.len() || (e < s.len() && unit_after_exec(s[e]))
}

fn unit_follows_exec(s: &Vec<char>, k: usize) -> (r: bool)
    ensures
        r == unit_follows(s@, k as int),
{
    let w0: [char; 2] = ['\u{b0}', 'C'];
    assert(w0@ =~= seq!['\u{b0}', 'C']);
    let r0 = unit_at_exec(s, k, &w0);
    assert(r0 == unit_at(s@, k as int, seq!['\u{b0}', 'C']));
    let w1: [char; 2] = ['\u{b0}', 'F'];
    assert(w1@ =~= seq!['\u{b0}', 'F']);
    let r1 = unit_at_exec(s, k, &w1);
    assert(r1 == unit_at(s@, k as int, seq!['\u{b0}', 'F']));
    let w2: [char; 1] = ['%'];
    assert(w2@ =~= seq!['%']);
    let r2 = unit_at_exec(s, k, &w2);
    assert(r2 == unit_at(s@, k as int, seq!['%']));
    let w3: [char; 1] = ['\u{2030}'];
    assert(w3@ =~= seq!['\u{2030}']);
    let r3 = unit_at_exec(s, k, &w3);
    assert(r3 == unit_at(s@, k as int, seq!['\u{2030}']));
    let w4: [char; 2] = ['k', 'g'];
    assert(w4@ =~= seq!['k', 'g']);
    let r4 = unit_at_exec(s, k, &w4);
    assert(r4 == unit_at(s@, k as int, seq!['k', 'g']));
    let w5: [char; 2] = ['m', 'g'];
    assert(w5@ =~= seq!['m', 'g']);
    let r5 = unit_at_exec(s, k, &w5);
    assert(r5 == unit_at(s@, k as int, seq!['m', 'g']));
    let w6: [char; 1] = ['g'];
    assert(w6@ =~= seq!['g']);
    let r6 = unit_at_exec(s, k, &w6);
    assert(r6 == unit_at(s@, k as int, seq!['g']));
    let w7: [char; 1] = ['t'];
    assert(w7@ =~= seq!['t']);
    let r7 = unit_at_exec(s, k, &w7);
    assert(r7 == unit_at(s@, k as int, seq!['t']));
    let w8: [char; 2] = ['k', 'm'];
    assert(w8@ =~= seq!['k', 'm']);
    let r8 = unit_at_exec(s, k, &w8);
    assert(r8 == unit_at(s@, k as int, seq!['k', 'm']));
    let w9: [char; 2] = ['m', 'm'];
    assert(w9@ =~= seq!['m', 'm']);
    let r9 = unit_at_exec(s, k, &w9);
    assert(r9 == unit_at(s@, k as int, seq!['m', 'm']));
    let w10: [char; 2] = ['c', 'm'];
    assert(w10@ =~= seq!['c', 'm']);
    let r10 = unit_at_exec(s, k, &w10);
    assert(r10 == unit_at(s@, k as int, seq!['c', 'm']));
    let w11: [char; 2] = ['d', 'm'];
    assert(w11@ =~= seq!['d', 'm']);
    let r11 = unit_at_exec(s, k, &w11);
    assert(r11 == unit_at(s@, k as int, seq!['d', 'm']));
    let w12: [char; 1] = ['m'];
    assert(w12@ =~= seq!['m']);
    let r12 = unit_at_exec(s, k, &w12);
    assert(r12 == unit_at(s@, k as int, seq!['m']));
    let w13: [char; 2] = ['h', 'a'];
    assert(w13@ =~= seq!['h', 'a']);
    let r13 = unit_at_exec(s, k, &w13);
    assert(r13 == unit_at(s@, k as int, seq!['h', 'a']));
    let w14: [char; 2] = ['h', 'l'];
    assert(w14@ =~= seq!['h', 'l']);
    let r14 = unit_at_exec(s, k, &w14);
    assert(r14 == unit_at(s@, k as int, seq!['h', 'l']));
    let w15: [char; 2] = ['m', 'l'];
    assert(w15@ =~= seq!['m', 'l']);
    let r15 = unit_at_exec(s, k, &w15);
    assert(r15 == unit_at(s@, k as int, seq!['m', 'l']));
    let w16: [char; 2] = ['d', 'l'];
    assert(w16@ =~= seq!['d', 'l']);
    let r16 = unit_at_exec(s, k, &w16);
    assert(r16 == unit_at(s@, k as int, seq!['d', 'l']));
    let w17: [char; 1] = ['l'];
    assert(w17@ =~= seq!['l']);
    let r17 = unit_at_exec(s, k, &w17);
    assert(r17 == unit_at(s@, k as int, seq!['l']));
    let w18: [char; 2] = ['m', 's'];
    assert(w18@ =~= seq!['m', 's']);
    let r18 = unit_at_exec(s, k, &w18);
    assert(r18 == unit_at(s@, k as int, seq!['m', 's']));
    let w19: [char; 1] = ['s'];
    assert(w19@ =~= seq!['s']);
    let r19 = unit_at_exec(s, k, &w19);
    assert(r19 == unit_at(s@, k as int, seq!['s']));
    let w20: [char; 3] = ['m', 'i', 'n'];
    assert(w20@ =~= seq!['m', 'i', 'n']);
    let r20 = unit_at_exec(s, k, &w20);
    assert(r20 == unit_at(s@, k as int, seq!['m', 'i', 'n']));
    let w21: [char; 1] = ['h'];
    assert(w21@ =~= seq!['h']);
    let r21 = unit_at_exec(s, k, &w21);
    assert(r21 == unit_at(s@, k as int, seq!['h']));
    let w22: [char; 3] = ['h', 'o', 'd'];
    assert(w22@ =~= seq!['h', 'o', 'd']);
    let r22 = unit_at_exec(s, k, &w22);
    assert(r22 == unit_at(s@, k as int, seq!['h', 'o', 'd']));
    let w23: [char; 3] = ['k', 'H', 'z'];
    assert(w23@ =~= seq!['k', 'H', 'z']);
    let r23 = unit_at_exec(s, k, &w23);
    assert(r23 == unit_at(s@, k as int, seq!['k', 'H', 'z']));
    let w24: [char; 3] = ['M', 'H', 'z'];
    assert(w24@ =~= seq!['M', 'H', 'z']);
    let r24 = unit_at_exec(s, k, &w24);
    assert(r24 == unit_at(s@, k as int, seq!['M', 'H', 'z']));
    let w25: [char; 3] = ['G', 'H', 'z'];
    assert(w25@ =~= seq!['G', 'H', 'z']);
    let r25 = unit_at_exec(s, k, &w25);
    assert(r25 == unit_at(s@, k as int, seq!['G', 'H', 'z']));
    let w26: [char; 2] = ['H', 'z'];
    assert(w26@ =~= seq!['H', 'z']);
    let r26 = unit_at_exec(s, k, &w26);
    assert(r26 == unit_at(s@, k as int, seq!['H', 'z']));
    let w27: [char; 3] = ['k', 'P', 'a'];
    assert(w27@ =~= seq!['k', 'P', 'a']);
    let r27 = unit_at_exec(s, k, &w27);
    assert(r27 == unit_at(s@, k as int, seq!['k', 'P', 'a']));
    let w28: [char; 3] = ['M', 'P', 'a'];
    assert(w28@ =~= seq!['M', 'P', 'a']);
    let r28 = unit_at_exec(s, k, &w28);
    assert(r28 == unit_at(s@, k as int, seq!['M', 'P', 'a']));
    let w29: [char; 3] = ['G', 'P', 'a'];
    assert(w29@ =~= seq!['G', 'P', 'a']);
    let r29 = unit_at_exec(s, k, &w29);
    assert(r29 == unit_at(s@, k as int, seq!['G', 'P', 'a']));
    let w30: [char; 2] = ['P', 'a'];
    assert(w30@ =~= seq!['P', 'a']);
    let r30 = unit_at_exec(s, k, &w30);
    assert(r30 == unit_at(s@, k as int, seq!['P', 'a']));
    let w31: [char; 2] = ['k', 'N'];
    assert(w31@ =~= seq!['k', 'N']);
    let r31 = unit_at_exec(s, k, &w31);
    assert(r31 == unit_at(s@, k as int, seq!['k', 'N']));
    let w32: [char; 2] = ['M', 'N'];
    assert(w32@ =~= seq!['M', 'N']);
    let r32 = unit_at_exec(s, k, &w32);
    assert(r32 == unit_at(s@, k as int, seq!['M', 'N']));
    let w33: [char; 1] = ['N'];
    assert(w33@ =~= seq!['N']);
    let r33 = unit_at_exec(s, k, &w33);
    assert(r33 == unit_at(s@, k as int, seq!['N']));
    let w34: [char; 2] = ['k', 'J'];
    assert(w34@ =~= seq!['k', 'J']);
    let r34 = unit_at_exec(s, k, &w34);
    assert(r34 == unit_at(s@, k as int, seq!['k', 'J']));
    let w35: [char; 2] = ['M', 'J'];
    assert(w35@ =~= seq!['M', 'J']);
    let r35 = unit_at_exec(s, k, &w35);
    assert(r35 == unit_at(s@, k as int, seq!['M', 'J']));
    let w36: [char; 1] = ['J'];
    assert(w36@ =~= seq!['J']);
    let r36 = unit_at_exec(s, k, &w36);
    assert(r36 == unit_at(s@, k as int, seq!['J']));
    let w37: [char; 3] = ['k', 'W', 'h'];
    assert(w37@ =~= seq!['k', 'W', 'h']);
    let r37 = unit_at_exec(s, k, &w37);
    assert(r37 == unit_at(s@, k as int, seq!['k', 'W', 'h']));
    let w38: [char; 2] = ['k', 'W'];
    assert(w38@ =~= seq!['k', 'W']);
    let r38 = unit_at_exec(s, k, &w38);
    assert(r38 == unit_at(s@, k as int, seq!['k', 'W']));
    let w39: [char; 2] = ['M', 'W'];
    assert(w39@ =~= seq!['M', 'W']);
    let r39 = unit_at_exec(s, k, &w39);
    assert(r39 == unit_at(s@, k as int, seq!['M', 'W']));
    let w40: [char; 2] = ['G', 'W'];
    assert(w40@ =~= seq!['G', 'W']);
    let r40 = unit_at_exec(s, k, &w40);
    assert(r40 == unit_at(s@, k as int, seq!['G', 'W']));
    let w41: [char; 1] = ['W'];
    assert(w41@ =~= seq!['W']);
    let r41 = unit_at_exec(s, k, &w41);
    assert(r41 == unit_at(s@, k as int, seq!['W']));
    let w42: [char; 2] = ['m', 'V'];
    assert(w42@ =~= seq!['m', 'V']);
    let r42 = unit_at_exec(s, k, &w42);
    assert(r42 == unit_at(s@, k as int, seq!['m', 'V']));
    let w43: [char; 2] = ['k', 'V'];
    assert(w43@ =~= seq!['k', 'V']);
    let r43 = unit_at_exec(s, k, &w43);
    assert(r43 == unit_at(s@, k as int, seq!['k', 'V']));
    let w44: [char; 1] = ['V'];
    assert(w44@ =~= seq!['V']);
    let r44 = unit_at_exec(s, k, &w44);
    assert(r44 == unit_at(s@, k as int, seq!['V']));
    let w45: [char; 2] = ['m', 'A'];
    assert(w45@ =~= seq!['m', 'A']);
    let r45 = unit_at_exec(s, k, &w45);
    assert(r45 == unit_at(s@, k as int, seq!['m', 'A']));
    let w46: [char; 1] = ['A'];
    assert(w46@ =~= seq!['A']);
    let r46 = unit_at_exec(s, k, &w46);
    assert(r46 == unit_at(s@, k as int, seq!['A']));
    let w47: [char; 2] = ['K', '\u{10d}'];
    assert(w47@ =~= seq!['K', '\u{10d}']);
    let r47 = unit_at_exec(s, k, &w47);
    assert(r47 == unit_at(s@, k as int, seq!['K', '\u{10d}']));
    let w48: [char; 1] = ['\u{20ac}'];
    assert(w48@ =~= seq!['\u{20ac}']);
    let r48 = unit_at_exec(s, k, &w48);
    assert(r48 == unit_at(s@, k as int, seq!['\u{20ac}']));
    let w49: [char; 1] = ['K'];
    assert(w49@ =~= seq!['K']);
    let r49 = unit_at_exec(s, k, &w49);
    assert(r49 == unit_at(s@, k as int, seq!['K']));
    let w50: [char; 4] = ['m', 'i', 'l', '.'];
    assert(w50@ =~= seq!['m', 'i', 'l', '.']);
    let r50 = unit_at_exec(s, k, &w50);
    assert(r50 == unit_at(s@, k as int, seq!['m', 'i', 'l', '.']));
    let w51: [char; 4] = ['m', 'l', 'd', '.'];
    assert(w51@ =~= seq!['m', 'l', 'd', '.']);
    let r51 = unit_at_exec(s, k, &w51);
    assert(r51 == unit_at(s@, k as int, seq!['m', 'l', 'd', '.']));
    let w52: [char; 4] = ['t', 'i', 's', '.'];
    assert(w52@ =~= seq!['t', 'i', 's', '.']);
    let r52 = unit_at_exec(s, k, &w52);
    assert(r52 == unit_at(s@, k as int, seq!['t', 'i', 's', '.']));
    r0 || r1 || r2 || r3 || r4 || r5 || r6 || r7 || r8 || r9 || r10 || r11 || r12 || r13 || r14 || r15 || r16 || r17 || r18 || r19 || r20 || r21 || r22 || r23 || r24 || r25 || r26 || r27 || r28 || r29 || r30 || r31 || r32 || r33 || r34 || r35 || r36 || r37 || r38 || r39 || r40 || r41 || r42 || r43 || r44 || r45 || r46 || r47 || r48 || r49 || r50 || r51 || r52
}

/// The space between a number and its unit.
pub open spec fn unit_space(s: Seq<char>, j: int) -> bool {
    1 <= j < s.len() && s[j] == ' ' && is_digit(s[j - 1]) && unit_follows(s, j + 1)
}

pub struct NumberUnit;

impl PointRule for NumberUnit {
    open spec fn spec_char(&self, s: Seq<char>, j: int) -> char {
        if unit_space(s, j) {
            NBSP
        } else {
            s[j]
        }
    }

    fn exec_char(&self, s: &Vec<char>, j: usize) -> (c: char) {
        let n = s.len();
        if 1 <= j && j < n && s[j] == ' ' && digit(s[j - 1]) && unit_follows_exec(s, j + 1) {
            NBSP
        } else {
            s[j]
        }
    }
}

pub open spec fn number_unit_spec(s: Seq<char>) -> Seq<char> {
    map_rule(NumberUnit, s)
}

pub fn number_unit_chars(s: &Vec<char>) -> (r: Vec<char>)
    ensures
        r@ == number_unit_spec(s@),
{
    apply_point(&NumberUnit, s)
}

/// Between a number and its unit (`10 kg`, `25 °C`, `100 %`).
pub fn number_unit(text: &str) -> (r: String)
    ensures
        r@ == number_unit_spec(text@),
{
    from_chars(&number_unit_chars(&to_chars(text)))
}

// ---------------------------------------------------------------------------
// Czech abbreviations

/// Characters after which an abbreviation counts as a word of its own.
pub open spec fn abbr_boundary(c: char) -> bool {
    is_ws(c) || c == '(' || c == '[' || c == '{' || c == '\u{201e}' || c == '\u{201a}'
}

fn abbr_boundary_exec(c: char) -> (r: bool)
    ensures
        r == abbr_boundary(c),
{
    ws(c) || c == '(' || c == '[' || c == '{' || c == '\u{201e}' || c == '\u{201a}'
}

/// The abbreviation `a` ends just before `k` and starts a word.
pub open spec fn abbr_ends_at(s: Seq<char>, k: int, a: Seq<char>) -> bool {
    k >= a.len() && seq_at(s, k - a.len(), a) && (k == a.len() || abbr_boundary(
        s[k - a.len() - 1],
    ))
}

fn abbr_ends_at_exec(s: &Vec<char>, k: usize, a: &[char]) -> (r: bool)
    ensures
        r == abbr_ends_at(s@, k as int, a@),
{
    k >= a.len() && word_at(s, k - a.len(), a) && (k == a.len() || abbr_boundary_exec(
        s[k - a.len() - 1],
    ))
}

/// One of the Czech abbreviations ends just before `k`.
pub open spec fn cs_abbr_before(s: Seq<char>, k: int) -> bool {
    abbr_ends_at(s, k, seq!['\u{10d}'])
    || abbr_ends_at(s, k, seq!['\u{10d}', '\u{ed}', 's'])
    || abbr_ends_at(s, k, seq!['s', 't', 'r'])
    || abbr_ends_at(s, k, seq!['s'])
    || abbr_ends_at(s, k, seq!['t', 'j'])
    || abbr_ends_at(s, k, seq!['t', 'z', 'n'])
    || abbr_ends_at(s, k, seq!['t', 'z', 'v'])
    || abbr_ends_at(s, k, seq!['n', 'a', 'p', '\u{159}'])
    || abbr_ends_at(s, k, seq!['p', 'o', 'p', '\u{159}'])
    || abbr_ends_at(s, k, seq!['p', '\u{159}', '\u{ed}', 'p'])
    || abbr_ends_at(s, k, seq!['r', 'e', 's', 'p'])
    || abbr_ends_at(s, k, seq!['m', 'j'])
    || abbr_ends_at(s, k, seq!['p', '\u{159}'])
    || abbr_ends_at(s, k, seq!['k', 'a', 'p'])
    || abbr_ends_at(s, k, seq!['o', 'b', 'r'])
    || abbr_ends_at(s, k, seq!['t', 'a', 'b'])
    || abbr_ends_at(s, k, seq!['r', 'o', '\u{10d}'])
    || abbr_ends_at(s, k, seq!['o', 'd', 's', 't'])
    || abbr_ends_at(s, k, seq!['p', '\u{ed}', 's', 'm'])
}

fn cs_abbr_before_exec(s: &Vec<char>, k: usize) -> (r: bool)
    ensures
        r == cs_abbr_before(s@, k as int),
{
    let w0: [char; 1] = ['\u{10d}'];
    assert(w0@ =~= seq!['\u{10d}']);
    let r0 = abbr_ends_at_exec(s, k, &w0);
    assert(r0 == abbr_ends_at(s@, k as int, seq!['\u{10d}']));
    let w1: [char; 3] = ['\u{10d}', '\u{ed}', 's'];
    assert(w1@ =~= seq!['\u{10d}', '\u{ed}', 's']);
    let r1 = abbr_ends_at_exec(s, k, &w1);
    assert(r1 == abbr_ends_at(s@, k as int, seq!['\u{10d}', '\u{ed}', 's']));
    let w2: [char; 3] = ['s', 't', 'r'];
    assert(w2@ =~= seq!['s', 't', 'r']);
    let r2 = abbr_ends_at_exec(s, k, &w2);
    assert(r2 == abbr_ends_at(s@, k as int, seq!['s', 't', 'r']));
    let w3: [char; 1] = ['s'];
    assert(w3@ =~= seq!['s']);
    let r3 = abbr_ends_at_exec(s, k, &w3);
    assert(r3 == abbr_ends_at(s@, k as int, seq!['s']));
    let w4: [char; 2] = ['t', 'j'];
    assert(w4@ =~= seq!['t', 'j']);
    let r4 = abbr_ends_at_exec(s, k, &w4);
    assert(r4 == abbr_ends_at(s@, k as int, seq!['t', 'j']));
    let w5: [char; 3] = ['t', 'z', 'n'];
    assert(w5@ =~= seq!['t', 'z', 'n']);
    let r5 = abbr_ends_at_exec(s, k, &w5);
    assert(r5 == abbr_ends_at(s@, k as int, seq!['t', 'z', 'n']));
    let w6: [char; 3] = ['t', 'z', 'v'];
    assert(w6@ =~= seq!['t', 'z', 'v']);
    let r6 = abbr_ends_at_exec(s, k, &w6);
    assert(r6 == abbr_ends_at(s@, k as int, seq!['t', 'z', 'v']));
    let w7: [char; 4] = ['n', 'a', 'p', '\u{159}'];
    assert(w7@ =~= seq!['n', 'a', 'p', '\u{159}']);
    let r7 = abbr_ends_at_exec(s, k, &w7);
    assert(r7 == abbr_ends_at(s@, k as int, seq!['n', 'a', 'p', '\u{159}']));
    let w8: [char; 4] = ['p', 'o', 'p', '\u{159}'];
    assert(w8@ =~= seq!['p', 'o', 'p', '\u{159}']);
    let r8 = abbr_ends_at_exec(s, k, &w8);
    assert(r8 == abbr_ends_at(s@, k as int, seq!['p', 'o', 'p', '\u{159}']));
    let w9: [char; 4] = ['p', '\u{159}', '\u{ed}', 'p'];
    assert(w9@ =~= seq!['p', '\u{159}', '\u{ed}', 'p']);
    let r9 = abbr_ends_at_exec(s, k, &w9);
    assert(r9 == abbr_ends_at(s@, k as int, seq!['p', '\u{159}', '\u{ed}', 'p']));
    let w10: [char; 4] = ['r', 'e', 's', 'p'];
    assert(w10@ =~= seq!['r', 'e', 's', 'p']);
    let r10 = abbr_ends_at_exec(s, k, &w10);
    assert(r10 == abbr_ends_at(s@, k as int, seq!['r', 'e', 's', 'p']));
    let w11: [char; 2] = ['m', 'j'];
    assert(w11@ =~= seq!['m', 'j']);
    let r11 = abbr_ends_at_exec(s, k, &w11);
    assert(r11 == abbr_ends_at(s@, k as int, seq!['m', 'j']));
    let w12: [char; 2] = ['p', '\u{159}'];
    assert(w12@ =~= seq!['p', '\u{159}']);
    let r12 = abbr_ends_at_exec(s, k, &w12);
    assert(r12 == abbr_ends_at(s@, k as int, seq!['p', '\u{159}']));
    let w13: [char; 3] = ['k', 'a', 'p'];
    assert(w13@ =~= seq!['k', 'a', 'p']);
    let r13 = abbr_ends_at_exec(s, k, &w13);
    assert(r13 == abbr_ends_at(s@, k as int, seq!['k', 'a', 'p']));
    let w14: [char; 3] = ['o', 'b', 'r'];
    assert(w14@ =~= seq!['o', 'b', 'r']);
    let r14 = abbr_ends_at_exec(s, k, &w14);
    assert(r14 == abbr_ends_at(s@, k as int, seq!['o', 'b', 'r']));
    let w15: [char; 3] = ['t', 'a', 'b'];
    assert(w15@ =~= seq!['t', 'a', 'b']);
    let r15 = abbr_ends_at_exec(s, k, &w15);
    assert(r15 == abbr_ends_at(s@, k as int, seq!['t', 'a', 'b']));
    let w16: [char; 3] = ['r', 'o', '\u{10d}'];
    assert(w16@ =~= seq!['r', 'o', '\u{10d}']);
    let r16 = abbr_ends_at_exec(s, k, &w16);
    assert(r16 == abbr_ends_at(s@, k as int, seq!['r', 'o', '\u{10d}']));
    let w17: [char; 4] = ['o', 'd', 's', 't'];
    assert(w17@ =~= seq!['o', 'd', 's', 't']);
    let r17 = abbr_ends_at_exec(s, k, &w17);
    assert(r17 == abbr_ends_at(s@, k as int, seq!['o', 'd', 's', 't']));
    let w18: [char; 4] = ['p', '\u{ed}', 's', 'm'];
    assert(w18@ =~= seq!['p', '\u{ed}', 's', 'm']);
    let r18 = abbr_ends_at_exec(s, k, &w18);
    assert(r18 == abbr_ends_at(s@, k as int, seq!['p', '\u{ed}', 's', 'm']));
    r0 || r1 || r2 || r3 || r4 || r5 || r6 || r7 || r8 || r9 || r10 || r11 || r12 || r13 || r14 || r15 || r16 || r17 || r18
}

/// The space after an abbreviation and its full stop.
pub open spec fn abbr_space(s: Seq<char>, j: int) -> bool {
    1 <= j < s.len() && s[j] == ' ' && s[j - 1] == '.' && cs_abbr_before(s, j - 1)
}

pub struct Abbreviations;

impl PointRule for Abbreviations {
    open spec fn spec_char(&self, s: Seq<char>, j: int) -> char {
        if abbr_space(s, j) {
            NBSP
        } else {
            s[j]
        }
    }

    fn exec_char(&self, s: &Vec<char>, j: usize) -> (c: char) {
        if 1 <= j && s[j] == ' ' && s[j - 1] == '.' && cs_abbr_before_exec(s, j - 1) {
            NBSP
        } else {
            s[j]
        }
    }
}

pub open spec fn abbreviations_spec(s: Seq<char>) -> Seq<char> {
    map_rule(Abbreviations, s)
}

pub fn abbreviations_chars(s: &Vec<char>) -> (r: Vec<char>)
    ensures
        r@ == abbreviations_spec(s@),
{
    apply_point(&Abbreviations, s)
}

/// After abbreviations (`č.`, `str.`, `tj.`, `např.` …) followed by more text.
pub fn abbreviations(text: &str) -> (r: String)
    ensures
        r@ == abbreviations_spec(text@),
{
    from_chars(&abbreviations_chars(&to_chars(text)))
}

// ---------------------------------------------------------------------------
// Initials

pub open spec fn is_initial(c: char) -> bool {
    ('A' <= c <= 'Z') || c == '\u{c1}' || c == '\u{10c}' || c == '\u{10e}' || c == '\u{c9}' || c == '\u{11a}' || c == '\u{cd}' || c == '\u{147}' || c == '\u{d3}' || c == '\u{158}' || c == '\u{160}' || c == '\u{164}' || c == '\u{da}' || c == '\u{16e}' || c == '\u{dd}' || c == '\u{17d}'
}

pub open spec fn initial_before(c: char) -> bool {
    is_ws(c) || c == '(' || c == '\u{201e}' || c == '\u{201a}'
}

/// The space after an initial (`J.`) that precedes another capitalised name.
pub open spec fn initial_space(s: Seq<char>, j: int) -> bool {
    2 <= j && j + 1 < s.len() && s[j] == ' ' && s[j - 1] == '.' && is_initial(s[j - 2]) && (j
        == 2 || initial_before(s[j - 3])) && is_initial(s[j + 1])
}

fn is_initial_exec(c: char) -> (r: bool)
    ensures
        r == is_initial(c),
{
    ('A' <= c && c <= 'Z') || c == '\u{c1}' || c == '\u{10c}' || c == '\u{10e}' || c == '\u{c9}' || c == '\u{11a}' || c == '\u{cd}' || c == '\u{147}' || c == '\u{d3}' || c == '\u{158}' || c == '\u{160}' || c == '\u{164}' || c == '\u{da}' || c == '\u{16e}' || c == '\u{dd}' || c == '\u{17d}'
}

pub struct Initials;

impl PointRule for Initials {
    open spec fn spec_char(&self, s: Seq<char>, j: int) -> char {
        if initial_space(s, j) {
            NBSP
        } else {
            s[j]
        }
    }

    fn exec_char(&self, s: &Vec<char>, j: usize) -> (c: char) {
        if 2 <= j && s.len() - j > 1 && s[j] == ' ' && s[j - 1] == '.' && is_initial_exec(s[j - 2])
            && (j == 2 || {
            let b = s[j - 3];
            ws(b) || b == '(' || b == '\u{201e}' || b == '\u{201a}'
        }) && is_initial_exec(s[j + 1]) {
            NBSP
        } else {
            s[j]
        }
    }
}

pub open spec fn initials_pass(s: Seq<char>) -> Seq<char> {
    map_rule(Initials, s)
}

/// A second reading finds nothing left to bind.
pub proof fn lemma_initials_idempotent(s: Seq<char>)
    ensures
        initials_pass(initials_pass(s)) == initials_pass(s),
{
    let t = initials_pass(s);
    assert forall|j: int| 0 <= j < t.len() implies #[trigger] Initials.spec_char(t, j) == t[j] by {
        if initial_space(t, j) {
            assert(t[j] == s[j]);
            assert(t[j - 1] == s[j - 1]);
            assert(t[j - 2] == s[j - 2]);
            assert(t[j + 1] == s[j + 1]);
            if j >= 3 {
                assert(t[j - 3] == s[j - 3] || (t[j - 3] == NBSP && s[j - 3] == ' '));
            }
            assert(initial_space(s, j));
        }
    }
    assert(initials_pass(t) =~= t);
}

/// Between an initial and the following (capitalised) name: `J. Novák`,
/// `J. K. Tyl`. The rule is read twice.
pub fn initials(text: &str) -> (r: String)
    ensures
        r@ == initials_pass(initials_pass(text@)),
        r@ == initials_pass(text@),
{
    let r = initials_chars(&to_chars(text));
    proof {
        lemma_initials_idempotent(text@);
    }
    from_chars(&r)
}

pub fn initials_chars(s: &Vec<char>) -> (r: Vec<char>)
    ensures
        r@ == initials_pass(initials_pass(s@)),
{
    let once = apply_point(&Initials, s);
    apply_point(&Initials, &once)
}

// ---------------------------------------------------------------------------
// Dates

/// End of the one- or two-digit number that starts at `k`.
pub open spec fn digits_end(s: Seq<char>, k: int) -> Option<int> {
    if 0 <= k < s.len() && is_digit(s[k]) {
        if k + 1 < s.len() && is_digit(s[k + 1]) {
            Some(k + 2)
        } else {
            Some(k + 1)
        }
    } else {
        None
    }
}

pub open spec fn dot_space(s: Seq<char>, a: int) -> bool {
    char_is(s, a, '.') && char_is(s, a + 1, ' ')
}

pub open spec fn four_digits(s: Seq<char>, p: int) -> bool {
    0 <= p && p + 4 <= s.len() && is_digit(s[p]) && is_digit(s[p + 1]) && is_digit(s[p + 2])
        && is_digit(s[p + 3])
}

/// A numeric date `D. M. YYYY` that starts at `k`: the positions of its two
/// spaces.
pub open spec fn numeric_date(s: Seq<char>, k: int) -> Option<(int, int)> {
    if !boundary(s, k) {
        None
    } else {
        match digits_end(s, k) {
            None => None,
            Some(a) => if !dot_space(s, a) {
                None
            } else {
                match digits_end(s, a + 2) {
                    None => None,
                    Some(b) => if dot_space(s, b) && four_digits(s, b + 2) && boundary(
                        s,
                        b + 6,
                    ) {
                        Some((a + 1, b + 1))
                    } else {
                        None
                    },
                }
            },
        }
    }
}

pub open spec fn date_has_space(s: Seq<char>, k: int, j: int) -> bool {
    match numeric_date(s, k) {
        Some(p) => p.0 == j || p.1 == j,
        None => false,
    }
}

/// A space inside a numeric date.
pub open spec fn date_space(s: Seq<char>, j: int) -> bool {
    exists|k: int| j - 7 <= k <= j - 2 && #[trigger] date_has_space(s, k, j)
}

fn digits_end_exec(s: &Vec<char>, k: usize) -> (r: Option<usize>)
    ensures
        match r {
            Some(e) => digits_end(s@, k as int) == Some(e as int) && e <= s@.len(),
            None => digits_end(s@, k as int) is None,
        },
{
    if k < s.len() && digit(s[k]) {
        if s.len() - k > 1 && digit(s[k + 1]) {
            Some(k + 2)
        } else {
            Some(k + 1)
        }
    } else {
        None
    }
}

fn dot_space_exec(s: &Vec<char>, a: usize) -> (r: bool)
    ensures
        r == dot_space(s@, a as int),
{
    a < s.len() && s[a] == '.' && s.len() - a > 1 && s[a + 1] == ' '
}

fn numeric_date_exec(s: &Vec<char>, k: usize) -> (r: Option<(usize, usize)>)
    ensures
        match r {
            Some(p) => numeric_date(s@, k as int) == Some((p.0 as int, p.1 as int)),
            None => numeric_date(s@, k as int) is None,
        },
{
    if !boundary_exec(s, k) {
        return None;
    }
    let a = match digits_end_exec(s, k) {
        None => return None,
        Some(a) => a,
    };
    let n = s.len();
    if !dot_space_exec(s, a) {
        return None;
    }
    assert(a + 2 <= n);
    let b = match digits_end_exec(s, a + 2) {
        None => return None,
        Some(b) => b,
    };
    if dot_space_exec(s, b) && s.len() - b >= 6 && digit(s[b + 2]) && digit(s[b + 3]) && digit(
        s[b + 4],
    ) && digit(s[b + 5]) && boundary_exec(s, b + 6) {
        Some((a + 1, b + 1))
    } else {
        None
    }
}

fn date_space_exec(s: &Vec<char>, j: usize) -> (r: bool)
    ensures
        r == date_space(s@, j as int),
{
    if j < 2 {
        assert forall|k: int| j - 7 <= k <= j - 2 implies !#[trigger] date_has_space(s@, k, j as int) by {
            assert(!boundary(s@, k));
        }
        return false;
    }
    let lo: usize = if j >= 7 {
        j - 7
    } else {
        0
    };
    assert forall|k: int| j - 7 <= k < lo implies !#[trigger] date_has_space(s@, k, j as int) by {
        assert(!boundary(s@, k));
    }
    let mut k = lo;
    while k <= j - 2
        invariant
            lo <= k <= j - 1,
            2 <= j,
            forall|t: int| j - 7 <= t < k ==> !#[trigger] date_has_space(s@, t, j as int),
        decreases j - 1 - k,
    {
        match numeric_date_exec(s, k) {
            Some(p) => {
                if p.0 == j || p.1 == j {
                    assert(date_has_space(s@, k as int, j as int));
                    return true;
                }
            },
            None => {},
        }
        k = k + 1;
    }
    false
}

pub struct NumericDate;

impl PointRule for NumericDate {
    open spec fn spec_char(&self, s: Seq<char>, j: int) -> char {
        if s[j] == ' ' && date_space(s, j) {
            NBSP
        } else {
            s[j]
        }
    }

    fn exec_char(&self, s: &Vec<char>, j: usize) -> (c: char) {
        if s[j] == ' ' && date_space_exec(s, j) {
            NBSP
        } else {
            s[j]
        }
    }
}

pub open spec fn dates_numeric_spec(s: Seq<char>) -> Seq<char> {
    map_rule(NumericDate, s)
}

pub fn dates_numeric_chars(s: &Vec<char>) -> (r: Vec<char>)
    ensures
        r@ == dates_numeric_spec(s@),
{
    apply_point(&NumericDate, s)
}

/// Inside a numeric date: `1. 1. 2026` (the same in every language).
pub fn dates_numeric(text: &str) -> (r: String)
    ensures
        r@ == dates_numeric_spec(text@),
{
    from_chars(&dates_numeric_chars(&to_chars(text)))
}

/// The month name `m` stands at `k` and ends a word.
pub open spec fn month_at(s: Seq<char>, k: int, m: Seq<char>) -> bool {
    seq_at(s, k, m) && boundary(s, k + m.len())
}

fn month_at_exec(s: &Vec<char>, k: usize, m: &[char]) -> (r: bool)
    ensures
        r == month_at(s@, k as int, m@),
{
    let n = s.len();
    if !word_at(s, k, m) {
        return false;
    }
    assert(k + m.len() <= n);
    boundary_exec(s, k + m.len())
}

pub open spec fn cs_month_at(s: Seq<char>, k: int) -> bool {
    month_at(s, k, seq!['l', 'e', 'd', 'n', 'a'])
    || month_at(s, k, seq!['\u{fa}', 'n', 'o', 'r', 'a'])
    || month_at(s, k, seq!['b', '\u{159}', 'e', 'z', 'n', 'a'])
    || month_at(s, k, seq!['d', 'u', 'b', 'n', 'a'])
    || month_at(s, k, seq!['k', 'v', '\u{11b}', 't', 'n', 'a'])
    || month_at(s, k, seq!['\u{10d}', 'e', 'r', 'v', 'n', 'a'])
    || month_at(s, k, seq!['\u{10d}', 'e', 'r', 'v', 'e', 'n', 'c', 'e'])
    || month_at(s, k, seq!['s', 'r', 'p', 'n', 'a'])
    || month_at(s, k, seq!['z', '\u{e1}', '\u{159}', '\u{ed}'])
    || month_at(s, k, seq!['\u{159}', '\u{ed}', 'j', 'n', 'a'])
    || month_at(s, k, seq!['l', 'i', 's', 't', 'o', 'p', 'a', 'd', 'u'])
    || month_at(s, k, seq!['p', 'r', 'o', 's', 'i', 'n', 'c', 'e'])
}

fn cs_month_at_exec(s: &Vec<char>, k: usize) -> (r: bool)
    ensures
        r == cs_month_at(s@, k as int),
{
    let w0: [char; 5] = ['l', 'e', 'd', 'n', 'a'];
    assert(w0@ =~= seq!['l', 'e', 'd', 'n', 'a']);
    let r0 = month_at_exec(s, k, &w0);
    assert(r0 == month_at(s@, k as int, seq!['l', 'e', 'd', 'n', 'a']));
    let w1: [char; 5] = ['\u{fa}', 'n', 'o', 'r', 'a'];
    assert(w1@ =~= seq!['\u{fa}', 'n', 'o', 'r', 'a']);
    let r1 = month_at_exec(s, k, &w1);
    assert(r1 == month_at(s@, k as int, seq!['\u{fa}', 'n', 'o', 'r', 'a']));
    let w2: [char; 6] = ['b', '\u{159}', 'e', 'z', 'n', 'a'];
    assert(w2@ =~= seq!['b', '\u{159}', 'e', 'z', 'n', 'a']);
    let r2 = month_at_exec(s, k, &w2);
    assert(r2 == month_at(s@, k as int, seq!['b', '\u{159}', 'e', 'z', 'n', 'a']));
    let w3: [char; 5] = ['d', 'u', 'b', 'n', 'a'];
    assert(w3@ =~= seq!['d', 'u', 'b', 'n', 'a']);
    let r3 = month_at_exec(s, k, &w3);
    assert(r3 == month_at(s@, k as int, seq!['d', 'u', 'b', 'n', 'a']));
    let w4: [char; 6] = ['k', 'v', '\u{11b}', 't', 'n', 'a'];
    assert(w4@ =~= seq!['k', 'v', '\u{11b}', 't', 'n', 'a']);
    let r4 = month_at_exec(s, k, &w4);
    assert(r4 == month_at(s@, k as int, seq!['k', 'v', '\u{11b}', 't', 'n', 'a']));
    let w5: [char; 6] = ['\u{10d}', 'e', 'r', 'v', 'n', 'a'];
    assert(w5@ =~= seq!['\u{10d}', 'e', 'r', 'v', 'n', 'a']);
    let r5 = month_at_exec(s, k, &w5);
    assert(r5 == month_at(s@, k as int, seq!['\u{10d}', 'e', 'r', 'v', 'n', 'a']));
    let w6: [char; 8] = ['\u{10d}', 'e', 'r', 'v', 'e', 'n', 'c', 'e'];
    assert(w6@ =~= seq!['\u{10d}', 'e', 'r', 'v', 'e', 'n', 'c', 'e']);
    let r6 = month_at_exec(s, k, &w6);
    assert(r6 == month_at(s@, k as int, seq!['\u{10d}', 'e', 'r', 'v', 'e', 'n', 'c', 'e']));
    let w7: [char; 5] = ['s', 'r', 'p', 'n', 'a'];
    assert(w7@ =~= seq!['s', 'r', 'p', 'n', 'a']);
    let r7 = month_at_exec(s, k, &w7);
    assert(r7 == month_at(s@, k as int, seq!['s', 'r', 'p', 'n', 'a']));
    let w8: [char; 4] = ['z', '\u{e1}', '\u{159}', '\u{ed}'];
    assert(w8@ =~= seq!['z', '\u{e1}', '\u{159}', '\u{ed}']);
    let r8 = month_at_exec(s, k, &w8);
    assert(r8 == month_at(s@, k as int, seq!['z', '\u{e1}', '\u{159}', '\u{ed}']));
    let w9: [char; 5] = ['\u{159}', '\u{ed}', 'j', 'n', 'a'];
    assert(w9@ =~= seq!['\u{159}', '\u{ed}', 'j', 'n', 'a']);
    let r9 = month_at_exec(s, k, &w9);
    assert(r9 == month_at(s@, k as int, seq!['\u{159}', '\u{ed}', 'j', 'n', 'a']));
    let w10: [char; 9] = ['l', 'i', 's', 't', 'o', 'p', 'a', 'd', 'u'];
    assert(w10@ =~= seq!['l', 'i', 's', 't', 'o', 'p', 'a', 'd', 'u']);
    let r10 = month_at_exec(s, k, &w10);
    assert(r10 == month_at(s@, k as int, seq!['l', 'i', 's', 't', 'o', 'p', 'a', 'd', 'u']));
    let w11: [char; 8] = ['p', 'r', 'o', 's', 'i', 'n', 'c', 'e'];
    assert(w11@ =~= seq!['p', 'r', 'o', 's', 'i', 'n', 'c', 'e']);
    let r11 = month_at_exec(s, k, &w11);
    assert(r11 == month_at(s@, k as int, seq!['p', 'r', 'o', 's', 'i', 'n', 'c', 'e']));
    r0 || r1 || r2 || r3 || r4 || r5 || r6 || r7 || r8 || r9 || r10 || r11
}

pub open spec fn de_month_at(s: Seq<char>, k: int) -> bool {
    month_at(s, k, seq!['J', 'a', 'n', 'u', 'a', 'r'])
    || month_at(s, k, seq!['F', 'e', 'b', 'r', 'u', 'a', 'r'])
    || month_at(s, k, seq!['M', '\u{e4}', 'r', 'z'])
    || month_at(s, k, seq!['A', 'p', 'r', 'i', 'l'])
    || month_at(s, k, seq!['M', 'a', 'i'])
    || month_at(s, k, seq!['J', 'u', 'n', 'i'])
    || month_at(s, k, seq!['J', 'u', 'l', 'i'])
    || month_at(s, k, seq!['A', 'u', 'g', 'u', 's', 't'])
    || month_at(s, k, seq!['S', 'e', 'p', 't', 'e', 'm', 'b', 'e', 'r'])
    || month_at(s, k, seq!['O', 'k', 't', 'o', 'b', 'e', 'r'])
    || month_at(s, k, seq!['N', 'o', 'v', 'e', 'm', 'b', 'e', 'r'])
    || month_at(s, k, seq!['D', 'e', 'z', 'e', 'm', 'b', 'e', 'r'])
}

fn de_month_at_exec(s: &Vec<char>, k: usize) -> (r: bool)
    ensures
        r == de_month_at(s@, k as int),
{
    let w0: [char; 6] = ['J', 'a', 'n', 'u', 'a', 'r'];
    assert(w0@ =~= seq!['J', 'a', 'n', 'u', 'a', 'r']);
    let r0 = month_at_exec(s, k, &w0);
    assert(r0 == month_at(s@, k as int, seq!['J', 'a', 'n', 'u', 'a', 'r']));
    let w1: [char; 7] = ['F', 'e', 'b', 'r', 'u', 'a', 'r'];
    assert(w1@ =~= seq!['F', 'e', 'b', 'r', 'u', 'a', 'r']);
    let r1 = month_at_exec(s, k, &w1);
    assert(r1 == month_at(s@, k as int, seq!['F', 'e', 'b', 'r', 'u', 'a', 'r']));
    let w2: [char; 4] = ['M', '\u{e4}', 'r', 'z'];
    assert(w2@ =~= seq!['M', '\u{e4}', 'r', 'z']);
    let r2 = month_at_exec(s, k, &w2);
    assert(r2 == month_at(s@, k as int, seq!['M', '\u{e4}', 'r', 'z']));
    let w3: [char; 5] = ['A', 'p', 'r', 'i', 'l'];
    assert(w3@ =~= seq!['A', 'p', 'r', 'i', 'l']);
    let r3 = month_at_exec(s, k, &w3);
    assert(r3 == month_at(s@, k as int, seq!['A', 'p', 'r', 'i', 'l']));
    let w4: [char; 3] = ['M', 'a', 'i'];
    assert(w4@ =~= seq!['M', 'a', 'i']);
    let r4 = month_at_exec(s, k, &w4);
    assert(r4 == month_at(s@, k as int, seq!['M', 'a', 'i']));
    let w5: [char; 4] = ['J', 'u', 'n', 'i'];
    assert(w5@ =~= seq!['J', 'u', 'n', 'i']);
    let r5 = month_at_exec(s, k, &w5);
    assert(r5 == month_at(s@, k as int, seq!['J', 'u', 'n', 'i']));
    let w6: [char; 4] = ['J', 'u', 'l', 'i'];
    assert(w6@ =~= seq!['J', 'u', 'l', 'i']);
    let r6 = month_at_exec(s, k, &w6);
    assert(r6 == month_at(s@, k as int, seq!['J', 'u', 'l', 'i']));
    let w7: [char; 6] = ['A', 'u', 'g', 'u', 's', 't'];
    assert(w7@ =~= seq!['A', 'u', 'g', 'u', 's', 't']);
    let r7 = month_at_exec(s, k, &w7);
    assert(r7 == month_at(s@, k as int, seq!['A', 'u', 'g', 'u', 's', 't']));
    let w8: [char; 9] = ['S', 'e', 'p', 't', 'e', 'm', 'b', 'e', 'r'];
    assert(w8@ =~= seq!['S', 'e', 'p', 't', 'e', 'm', 'b', 'e', 'r']);
    let r8 = month_at_exec(s, k, &w8);
    assert(r8 == month_at(s@, k as int, seq!['S', 'e', 'p', 't', 'e', 'm', 'b', 'e', 'r']));
    let w9: [char; 7] = ['O', 'k', 't', 'o', 'b', 'e', 'r'];
    assert(w9@ =~= seq!['O', 'k', 't', 'o', 'b', 'e', 'r']);
    let r9 = month_at_exec(s, k, &w9);
    assert(r9 == month_at(s@, k as int, seq!['O', 'k', 't', 'o', 'b', 'e', 'r']));
    let w10: [char; 8] = ['N', 'o', 'v', 'e', 'm', 'b', 'e', 'r'];
    assert(w10@ =~= seq!['N', 'o', 'v', 'e', 'm', 'b', 'e', 'r']);
    let r10 = month_at_exec(s, k, &w10);
    assert(r10 == month_at(s@, k as int, seq!['N', 'o', 'v', 'e', 'm', 'b', 'e', 'r']));
    let w11: [char; 8] = ['D', 'e', 'z', 'e', 'm', 'b', 'e', 'r'];
    assert(w11@ =~= seq!['D', 'e', 'z', 'e', 'm', 'b', 'e', 'r']);
    let r11 = month_at_exec(s, k, &w11);
    assert(r11 == month_at(s@, k as int, seq!['D', 'e', 'z', 'e', 'm', 'b', 'e', 'r']));
    r0 || r1 || r2 || r3 || r4 || r5 || r6 || r7 || r8 || r9 || r10 || r11
}

/// A one- or two-digit day number, starting a word, ends just before the
/// full stop at `j - 1`.
pub open spec fn day_before_dot(s: Seq<char>, j: int) -> bool {
    (j >= 2 && is_digit(s[j - 2]) && boundary(s, j - 2)) || (j >= 3 && is_digit(s[j - 3])
        && is_digit(s[j - 2]) && boundary(s, j - 3))
}

fn day_before_dot_exec(s: &Vec<char>, j: usize) -> (r: bool)
    requires
        j <= s@.len(),
    ensures
        r == day_before_dot(s@, j as int),
{
    (j >= 2 && digit(s[j - 2]) && boundary_exec(s, j - 2)) || (j >= 3 && digit(s[j - 3]) && digit(
        s[j - 2],
    ) && boundary_exec(s, j - 3))
}

/// The space between a day (`5.`) and a month name, in Czech (`cs`) or
/// German.
pub open spec fn month_space(s: Seq<char>, j: int, cs: bool) -> bool {
    1 <= j < s.len() && s[j] == ' ' && s[j - 1] == '.' && day_before_dot(s, j) && (if cs {
        cs_month_at(s, j + 1)
    } else {
        de_month_at(s, j + 1)
    })
}

pub struct MonthName {
    pub cs: bool,
}

impl PointRule for MonthName {
    open spec fn spec_char(&self, s: Seq<char>, j: int) -> char {
        if month_space(s, j, self.cs) {
            NBSP
        } else {
            s[j]
        }
    }

    fn exec_char(&self, s: &Vec<char>, j: usize) -> (c: char) {
        let n = s.len();
        if 1 <= j && j < n && s[j] == ' ' && s[j - 1] == '.' && day_before_dot_exec(s, j) && (if self.cs {
            cs_month_at_exec(s, j + 1)
        } else {
            de_month_at_exec(s, j + 1)
        }) {
            NBSP
        } else {
            s[j]
        }
    }
}

pub open spec fn dates_spec(s: Seq<char>) -> Seq<char> {
    map_rule(MonthName { cs: true }, dates_numeric_spec(s))
}

pub open spec fn dates_de_spec(s: Seq<char>) -> Seq<char> {
    map_rule(MonthName { cs: false }, dates_numeric_spec(s))
}

pub fn dates_chars(s: &Vec<char>) -> (r: Vec<char>)
    ensures
        r@ == dates_spec(s@),
{
    let t = dates_numeric_chars(s);
    apply_point(&MonthName { cs: true }, &t)
}

pub fn dates_de_chars(s: &Vec<char>) -> (r: Vec<char>)
    ensures
        r@ == dates_de_spec(s@),
{
    let t = dates_numeric_chars(s);
    apply_point(&MonthName { cs: false }, &t)
}

/// Czech dates: numeric, and `1. ledna` with a month name.
pub fn dates(text: &str) -> (r: String)
    ensures
        r@ == dates_spec(text@),
{
    from_chars(&dates_chars(&to_chars(text)))
}

/// German dates: numeric, and `1. Januar` with a month name.
pub fn dates_de(text: &str) -> (r: String)
    ensures
        r@ == dates_de_spec(text@),
{
    from_chars(&dates_de_chars(&to_chars(text)))
}

// ---------------------------------------------------------------------------
// German abbreviations

/// The multi-part abbreviation that starts at `i`, with its inner spaces made
/// no-break, if one does.
pub open spec fn de_multi_rep(s: Seq<char>, i: int) -> Option<Seq<char>> {
    if seq_at(s, i, seq!['z', '.', ' ', 'B', '.']) {
        Some(seq!['z', '.', '\u{a0}', 'B', '.'])
    } else     if seq_at(s, i, seq!['d', '.', ' ', 'h', '.']) {
        Some(seq!['d', '.', '\u{a0}', 'h', '.'])
    } else     if seq_at(s, i, seq!['u', '.', ' ', 'a', '.']) {
        Some(seq!['u', '.', '\u{a0}', 'a', '.'])
    } else     if seq_at(s, i, seq!['u', '.', ' ', 'U', '.']) {
        Some(seq!['u', '.', '\u{a0}', 'U', '.'])
    } else     if seq_at(s, i, seq!['o', '.', ' ', '\u{c4}', '.']) {
        Some(seq!['o', '.', '\u{a0}', '\u{c4}', '.'])
    } else     if seq_at(s, i, seq!['u', '.', ' ', '\u{c4}', '.']) {
        Some(seq!['u', '.', '\u{a0}', '\u{c4}', '.'])
    } else     if seq_at(s, i, seq!['z', '.', ' ', 'T', '.']) {
        Some(seq!['z', '.', '\u{a0}', 'T', '.'])
    } else     if seq_at(s, i, seq!['s', '.', ' ', 'o', '.']) {
        Some(seq!['s', '.', '\u{a0}', 'o', '.'])
    } else     if seq_at(s, i, seq!['s', '.', ' ', 'u', '.']) {
        Some(seq!['s', '.', '\u{a0}', 'u', '.'])
    } else     if seq_at(s, i, seq!['i', '.', ' ', 'd', '.', ' ', 'R', '.']) {
        Some(seq!['i', '.', '\u{a0}', 'd', '.', '\u{a0}', 'R', '.'])
    } else     if seq_at(s, i, seq!['i', '.', ' ', 'A', '.']) {
        Some(seq!['i', '.', '\u{a0}', 'A', '.'])
    } else     if seq_at(s, i, seq!['n', '.', ' ', 'C', 'h', 'r', '.']) {
        Some(seq!['n', '.', '\u{a0}', 'C', 'h', 'r', '.'])
    } else     if seq_at(s, i, seq!['v', '.', ' ', 'C', 'h', 'r', '.']) {
        Some(seq!['v', '.', '\u{a0}', 'C', 'h', 'r', '.'])
    } else {
        None
    }
}

fn de_multi_rep_exec(s: &Vec<char>, i: usize) -> (r: Option<Vec<char>>)
    ensures
        match r {
            Some(v) => de_multi_rep(s@, i as int) == Some(v@) && i + v@.len() <= s@.len(),
            None => de_multi_rep(s@, i as int) is None,
        },
{
    let w0: [char; 5] = ['z', '.', ' ', 'B', '.'];
    assert(w0@ =~= seq!['z', '.', ' ', 'B', '.']);
    let b0 = word_at(s, i, &w0);
    assert(b0 == seq_at(s@, i as int, seq!['z', '.', ' ', 'B', '.']));
    if b0 {
        let x0: [char; 5] = ['z', '.', '\u{a0}', 'B', '.'];
        assert(x0@ =~= seq!['z', '.', '\u{a0}', 'B', '.']);
        let v = vec_of(&x0);
        return Some(v);
    }
    let w1: [char; 5] = ['d', '.', ' ', 'h', '.'];
    assert(w1@ =~= seq!['d', '.', ' ', 'h', '.']);
    let b1 = word_at(s, i, &w1);
    assert(b1 == seq_at(s@, i as int, seq!['d', '.', ' ', 'h', '.']));
    if b1 {
        let x1: [char; 5] = ['d', '.', '\u{a0}', 'h', '.'];
        assert(x1@ =~= seq!['d', '.', '\u{a0}', 'h', '.']);
        let v = vec_of(&x1);
        return Some(v);
    }
    let w2: [char; 5] = ['u', '.', ' ', 'a', '.'];
    assert(w2@ =~= seq!['u', '.', ' ', 'a', '.']);
    let b2 = word_at(s, i, &w2);
    assert(b2 == seq_at(s@, i as int, seq!['u', '.', ' ', 'a', '.']));
    if b2 {
        let x2: [char; 5] = ['u', '.', '\u{a0}', 'a', '.'];
        assert(x2@ =~= seq!['u', '.', '\u{a0}', 'a', '.']);
        let v = vec_of(&x2);
        return Some(v);
    }
    let w3: [char; 5] = ['u', '.', ' ', 'U', '.'];
    assert(w3@ =~= seq!['u', '.', ' ', 'U', '.']);
    let b3 = word_at(s, i, &w3);
    assert(b3 == seq_at(s@, i as int, seq!['u', '.', ' ', 'U', '.']));
    if b3 {
        let x3: [char; 5] = ['u', '.', '\u{a0}', 'U', '.'];
        assert(x3@ =~= seq!['u', '.', '\u{a0}', 'U', '.']);
        let v = vec_of(&x3);
        return Some(v);
    }
    let w4: [char; 5] = ['o', '.', ' ', '\u{c4}', '.'];
    assert(w4@ =~= seq!['o', '.', ' ', '\u{c4}', '.']);
    let b4 = word_at(s, i, &w4);
    assert(b4 == seq_at(s@, i as int, seq!['o', '.', ' ', '\u{c4}', '.']));
    if b4 {
        let x4: [char; 5] = ['o', '.', '\u{a0}', '\u{c4}', '.'];
        assert(x4@ =~= seq!['o', '.', '\u{a0}', '\u{c4}', '.']);
        let v = vec_of(&x4);
        return Some(v);
    }
    let w5: [char; 5] = ['u', '.', ' ', '\u{c4}', '.'];
    assert(w5@ =~= seq!['u', '.', ' ', '\u{c4}', '.']);
    let b5 = word_at(s, i, &w5);
    assert(b5 == seq_at(s@, i as int, seq!['u', '.', ' ', '\u{c4}', '.']));
    if b5 {
        let x5: [char; 5] = ['u', '.', '\u{a0}', '\u{c4}', '.'];
        assert(x5@ =~= seq!['u', '.', '\u{a0}', '\u{c4}', '.']);
        let v = vec_of(&x5);
        return Some(v);
    }
    let w6: [char; 5] = ['z', '.', ' ', 'T', '.'];
    assert(w6@ =~= seq!['z', '.', ' ', 'T', '.']);
    let b6 = word_at(s, i, &w6);
    assert(b6 == seq_at(s@, i as int, seq!['z', '.', ' ', 'T', '.']));
    if b6 {
        let x6: [char; 5] = ['z', '.', '\u{a0}', 'T', '.'];
        assert(x6@ =~= seq!['z', '.', '\u{a0}', 'T', '.']);
        let v = vec_of(&x6);
        return Some(v);
    }
    let w7: [char; 5] = ['s', '.', ' ', 'o', '.'];
    assert(w7@ =~= seq!['s', '.', ' ', 'o', '.']);
    let b7 = word_at(s, i, &w7);
    assert(b7 == seq_at(s@, i as int, seq!['s', '.', ' ', 'o', '.']));
    if b7 {
        let x7: [char; 5] = ['s', '.', '\u{a0}', 'o', '.'];
        assert(x7@ =~= seq!['s', '.', '\u{a0}', 'o', '.']);
        let v = vec_of(&x7);
        return Some(v);
    }
    let w8: [char; 5] = ['s', '.', ' ', 'u', '.'];
    assert(w8@ =~= seq!['s', '.', ' ', 'u', '.']);
    let b8 = word_at(s, i, &w8);
    assert(b8 == seq_at(s@, i as int, seq!['s', '.', ' ', 'u', '.']));
    if b8 {
        let x8: [char; 5] = ['s', '.', '\u{a0}', 'u', '.'];
        assert(x8@ =~= seq!['s', '.', '\u{a0}', 'u', '.']);
        let v = vec_of(&x8);
        return Some(v);
    }
    let w9: [char; 8] = ['i', '.', ' ', 'd', '.', ' ', 'R', '.'];
    assert(w9@ =~= seq!['i', '.', ' ', 'd', '.', ' ', 'R', '.']);
    let b9 = word_at(s, i, &w9);
    assert(b9 == seq_at(s@, i as int, seq!['i', '.', ' ', 'd', '.', ' ', 'R', '.']));
    if b9 {
        let x9: [char; 8] = ['i', '.', '\u{a0}', 'd', '.', '\u{a0}', 'R', '.'];
        assert(x9@ =~= seq!['i', '.', '\u{a0}', 'd', '.', '\u{a0}', 'R', '.']);
        let v = vec_of(&x9);
        return Some(v);
    }
    let w10: [char; 5] = ['i', '.', ' ', 'A', '.'];
    assert(w10@ =~= seq!['i', '.', ' ', 'A', '.']);
    let b10 = word_at(s, i, &w10);
    assert(b10 == seq_at(s@, i as int, seq!['i', '.', ' ', 'A', '.']));
    if b10 {
        let x10: [char; 5] = ['i', '.', '\u{a0}', 'A', '.'];
        assert(x10@ =~= seq!['i', '.', '\u{a0}', 'A', '.']);
        let v = vec_of(&x10);
        return Some(v);
    }
    let w11: [char; 7] = ['n', '.', ' ', 'C', 'h', 'r', '.'];
    assert(w11@ =~= seq!['n', '.', ' ', 'C', 'h', 'r', '.']);
    let b11 = word_at(s, i, &w11);
    assert(b11 == seq_at(s@, i as int, seq!['n', '.', ' ', 'C', 'h', 'r', '.']));
    if b11 {
        let x11: [char; 7] = ['n', '.', '\u{a0}', 'C', 'h', 'r', '.'];
        assert(x11@ =~= seq!['n', '.', '\u{a0}', 'C', 'h', 'r', '.']);
        let v = vec_of(&x11);
        return Some(v);
    }
    let w12: [char; 7] = ['v', '.', ' ', 'C', 'h', 'r', '.'];
    assert(w12@ =~= seq!['v', '.', ' ', 'C', 'h', 'r', '.']);
    let b12 = word_at(s, i, &w12);
    assert(b12 == seq_at(s@, i as int, seq!['v', '.', ' ', 'C', 'h', 'r', '.']));
    if b12 {
        let x12: [char; 7] = ['v', '.', '\u{a0}', 'C', 'h', 'r', '.'];
        assert(x12@ =~= seq!['v', '.', '\u{a0}', 'C', 'h', 'r', '.']);
        let v = vec_of(&x12);
        return Some(v);
    }
    None
}

pub open spec fn multi_before(s: Seq<char>, i: int) -> bool {
    i == 0 || (0 < i <= s.len() && abbr_boundary(s[i - 1]))
}

/// The spaces inside multi-part abbreviations (`z. B.`, `d. h.`, `i. d. R.`
/// …) become no-break.
pub struct GermanMulti;

impl ScanRule for GermanMulti {
    open spec fn spec_match(&self, s: Seq<char>, i: int) -> Option<(int, Seq<char>)> {
        if multi_before(s, i) {
            match de_multi_rep(s, i) {
                Some(r) => Some((i + r.len(), r)),
                None => None,
            }
        } else {
            None
        }
    }

    fn exec_match(&self, s: &Vec<char>, i: usize) -> (r: Option<(usize, Vec<char>)>) {
        if !(i == 0 || abbr_boundary_exec(s[i - 1])) {
            return None;
        }
        let n = s.len();
        match de_multi_rep_exec(s, i) {
            Some(r) => {
                assert(i + r.len() <= n);
                Some((i + r.len(), r))
            },
            None => None,
        }
    }
}

/// The abbreviation `a` ends just before `k` and starts at a word boundary.
pub open spec fn word_ends_at(s: Seq<char>, k: int, a: Seq<char>) -> bool {
    k >= a.len() && seq_at(s, k - a.len(), a) && boundary(s, k - a.len())
}

fn word_ends_at_exec(s: &Vec<char>, k: usize, a: &[char]) -> (r: bool)
    ensures
        r == word_ends_at(s@, k as int, a@),
{
    k >= a.len() && word_at(s, k - a.len(), a) && boundary_exec(s, k - a.len())
}

pub open spec fn de_num_abbr_before(s: Seq<char>, k: int) -> bool {
    word_ends_at(s, k, seq!['N', 'r'])
    || word_ends_at(s, k, seq!['S'])
    || word_ends_at(s, k, seq!['A', 'b', 'b'])
    || word_ends_at(s, k, seq!['T', 'a', 'b'])
    || word_ends_at(s, k, seq!['K', 'a', 'p'])
    || word_ends_at(s, k, seq!['B', 'd'])
}

fn de_num_abbr_before_exec(s: &Vec<char>, k: usize) -> (r: bool)
    ensures
        r == de_num_abbr_before(s@, k as int),
{
    let w0: [char; 2] = ['N', 'r'];
    assert(w0@ =~= seq!['N', 'r']);
    let r0 = word_ends_at_exec(s, k, &w0);
    assert(r0 == word_ends_at(s@, k as int, seq!['N', 'r']));
    let w1: [char; 1] = ['S'];
    assert(w1@ =~= seq!['S']);
    let r1 = word_ends_at_exec(s, k, &w1);
    assert(r1 == word_ends_at(s@, k as int, seq!['S']));
    let w2: [char; 3] = ['A', 'b', 'b'];
    assert(w2@ =~= seq!['A', 'b', 'b']);
    let r2 = word_ends_at_exec(s, k, &w2);
    assert(r2 == word_ends_at(s@, k as int, seq!['A', 'b', 'b']));
    let w3: [char; 3] = ['T', 'a', 'b'];
    assert(w3@ =~= seq!['T', 'a', 'b']);
    let r3 = word_ends_at_exec(s, k, &w3);
    assert(r3 == word_ends_at(s@, k as int, seq!['T', 'a', 'b']));
    let w4: [char; 3] = ['K', 'a', 'p'];
    assert(w4@ =~= seq!['K', 'a', 'p']);
    let r4 = word_ends_at_exec(s, k, &w4);
    assert(r4 == word_ends_at(s@, k as int, seq!['K', 'a', 'p']));
    let w5: [char; 2] = ['B', 'd'];
    assert(w5@ =~= seq!['B', 'd']);
    let r5 = word_ends_at_exec(s, k, &w5);
    assert(r5 == word_ends_at(s@, k as int, seq!['B', 'd']));
    r0 || r1 || r2 || r3 || r4 || r5
}

/// The space between `Nr.`, `S.`, `Abb.`, `Tab.`, `Kap.` or `Bd.` and a
/// number.
pub open spec fn de_num_space(s: Seq<char>, j: int) -> bool {
    1 <= j && j + 1 < s.len() && s[j] == ' ' && s[j - 1] == '.' && de_num_abbr_before(s, j - 1)
        && is_digit(s[j + 1])
}

pub struct GermanBeforeNumber;

impl PointRule for GermanBeforeNumber {
    open spec fn spec_char(&self, s: Seq<char>, j: int) -> char {
        if de_num_space(s, j) {
            NBSP
        } else {
            s[j]
        }
    }

    fn exec_char(&self, s: &Vec<char>, j: usize) -> (c: char) {
        if 1 <= j && s.len() - j > 1 && s[j] == ' ' && s[j - 1] == '.' && digit(s[j + 1])
            && de_num_abbr_before_exec(s, j - 1) {
            NBSP
        } else {
            s[j]
        }
    }
}

pub open spec fn german_abbreviations_spec(s: Seq<char>) -> Seq<char> {
    map_rule(GermanBeforeNumber, scan_rule(GermanMulti, s))
}

pub fn german_abbreviations_chars(s: &Vec<char>) -> (r: Vec<char>)
    ensures
        r@ == german_abbreviations_spec(s@),
{
    let t = apply_scan(&GermanMulti, s);
    apply_point(&GermanBeforeNumber, &t)
}

/// German abbreviations after DIN 5008: the space INSIDE multi-part
/// abbreviations is no-break (`z. B.`, `d. h.`, `i. d. R.` …); abbreviations
/// before a number (`Nr. 5`, `S. 12`, `Abb. 3`) are bound to the number.
pub fn german_abbreviations(text: &str) -> (r: String)
    ensures
        r@ == german_abbreviations_spec(text@),
{
    from_chars(&german_abbreviations_chars(&to_chars(text)))
}

// ---------------------------------------------------------------------------
// Paragraph sign

pub open spec fn paragraph_space(s: Seq<char>, j: int) -> bool {
    1 <= j && j + 1 < s.len() && s[j] == ' ' && s[j - 1] == '\u{a7}' && is_digit(s[j + 1])
}

pub struct ParagraphSign;

impl PointRule for ParagraphSign {
    open spec fn spec_char(&self, s: Seq<char>, j: int) -> char {
        if paragraph_space(s, j) {
            NBSP
        } else {
            s[j]
        }
    }

    fn exec_char(&self, s: &Vec<char>, j: usize) -> (c: char) {
        if 1 <= j && s.len() - j > 1 && s[j] == ' ' && s[j - 1] == '\u{a7}' && digit(s[j + 1]) {
            NBSP
        } else {
            s[j]
        }
    }
}

pub open spec fn paragraph_sign_spec(s: Seq<char>) -> Seq<char> {
    map_rule(ParagraphSign, s)
}

pub fn paragraph_sign_chars(s: &Vec<char>) -> (r: Vec<char>)
    ensures
        r@ == paragraph_sign_spec(s@),
{
    apply_point(&ParagraphSign, s)
}

/// `§ 12` → `§ 12` with a no-break space.
pub fn paragraph_sign(text: &str) -> (r: String)
    ensures
        r@ == paragraph_sign_spec(text@),
{
    from_chars(&paragraph_sign_chars(&to_chars(text)))
}

} // verus!
