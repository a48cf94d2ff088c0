//! Dashes and ranges. A hyphen inside a word (`modro-zelený`) stays.

use vstd::prelude::*;

use crate::rewrite::{PointRule, ScanRule, apply_point, apply_scan, map_rule, scan_rule};
use crate::text::{NBSP, digit, from_chars, is_digit, is_letter, is_ws, letter, to_chars, ws};

verus! {

pub open spec fn is_sp(c: char) -> bool {
    c == ' ' || c == NBSP
}

fn sp(c: char) -> (r: bool)
    ensures
        r == is_sp(c),
{
    c == ' ' || c == NBSP
}

/// ` - ` or ` – ` between two non-blank characters becomes no-break space,
/// en dash, space: the dash may not start a line.
pub struct SpacedDash;

pub open spec fn spaced_dash_at(s: Seq<char>, i: int) -> bool {
    1 <= i && i + 3 < s.len() && !is_ws(s[i - 1]) && is_sp(s[i]) && (s[i + 1] == '-' || s[i
        + 1] == '\u{2013}') && is_sp(s[i + 2]) && !is_ws(s[i + 3])
}

impl ScanRule for SpacedDash {
    open spec fn spec_match(&self, s: Seq<char>, i: int) -> Option<(int, Seq<char>)> {
        if spaced_dash_at(s, i) {
            Some((i + 3, seq![NBSP, '\u{2013}', ' ']))
        } else {
            None
        }
    }

    fn exec_match(&self, s: &Vec<char>, i: usize) -> (r: Option<(usize, Vec<char>)>) {
        if 1 <= i && s.len() - i > 3 && !ws(s[i - 1]) && sp(s[i]) && (s[i + 1] == '-' || s[i
            + 1] == '\u{2013}') && sp(s[i + 2]) && !ws(s[i + 3]) {
            let mut rep = Vec::new();
            rep.push(NBSP);
            rep.push('\u{2013}');
            rep.push(' ');
            assert(rep@ =~= seq![NBSP, '\u{2013}', ' ']);
            Some((i + 3, rep))
        } else {
            None
        }
    }
}

pub open spec fn spaced_dash_spec(s: Seq<char>) -> Seq<char> {
    scan_rule(SpacedDash, s)
}

pub fn spaced_dash_chars(s: &Vec<char>) -> (r: Vec<char>)
    ensures
        r@ == spaced_dash_spec(s@),
{
    apply_scan(&SpacedDash, s)
}

/// ` - ` → `&nbsp;– ` (en dash, with a no-break space before it).
pub fn spaced_dash(text: &str) -> (r: String)
    ensures
        r@ == spaced_dash_spec(text@),
{
    from_chars(&spaced_dash_chars(&to_chars(text)))
}

/// English spaced dash: ` - `, ` -- `, ` – ` or ` — ` between two non-blank
/// characters becomes a closed-up em dash.
pub struct SpacedEmDash;

pub open spec fn em_dash_end(s: Seq<char>, i: int) -> Option<int> {
    if !(1 <= i < s.len() && !is_ws(s[i - 1]) && is_sp(s[i])) {
        None
    } else if i + 4 < s.len() && s[i + 1] == '-' && s[i + 2] == '-' && is_sp(s[i + 3])
        && !is_ws(s[i + 4]) {
        Some(i + 4)
    } else if i + 3 < s.len() && (s[i + 1] == '-' || s[i + 1] == '\u{2013}' || s[i + 1]
        == '\u{2014}') && is_sp(s[i + 2]) && !is_ws(s[i + 3]) {
        Some(i + 3)
    } else {
        None
    }
}

impl ScanRule for SpacedEmDash {
    open spec fn spec_match(&self, s: Seq<char>, i: int) -> Option<(int, Seq<char>)> {
        match em_dash_end(s, i) {
            Some(e) => Some((e, seq!['\u{2014}'])),
            None => None,
        }
    }

    fn exec_match(&self, s: &Vec<char>, i: usize) -> (r: Option<(usize, Vec<char>)>) {
        let n = s.len();
        if !(1 <= i && i < n && !ws(s[i - 1]) && sp(s[i])) {
            return None;
        }
        let e = if n - i > 4 && s[i + 1] == '-' && s[i + 2] == '-' && sp(s[i + 3]) && !ws(
            s[i + 4],
        ) {
            i + 4
        } else if n - i > 3 && (s[i + 1] == '-' || s[i + 1] == '\u{2013}' || s[i + 1]
            == '\u{2014}') && sp(s[i + 2]) && !ws(s[i + 3]) {
            i + 3
        } else {
            return None;
        };
        let mut rep = Vec::new();
        rep.push('\u{2014}');
        assert(rep@ =~= seq!['\u{2014}']);
        Some((e, rep))
    }
}

/// `--` between two letters becomes an em dash.
pub struct TightEmDash;

pub open spec fn tight_em_dash_at(s: Seq<char>, i: int) -> bool {
    1 <= i && i + 2 < s.len() && is_letter(s[i - 1]) && s[i] == '-' && s[i + 1] == '-'
        && is_letter(s[i + 2])
}

impl ScanRule for TightEmDash {
    open spec fn spec_match(&self, s: Seq<char>, i: int) -> Option<(int, Seq<char>)> {
        if tight_em_dash_at(s, i) {
            Some((i + 2, seq!['\u{2014}']))
        } else {
            None
        }
    }

    fn exec_match(&self, s: &Vec<char>, i: usize) -> (r: Option<(usize, Vec<char>)>) {
        if 1 <= i && s.len() - i > 2 && s[i] == '-' && s[i + 1] == '-' && letter(s[i - 1])
            && letter(s[i + 2]) {
            let mut rep = Vec::new();
            rep.push('\u{2014}');
            assert(rep@ =~= seq!['\u{2014}']);
            Some((i + 2, rep))
        } else {
            None
        }
    }
}

pub open spec fn em_dash_spec(s: Seq<char>) -> Seq<char> {
    scan_rule(TightEmDash, scan_rule(SpacedEmDash, s))
}

pub fn em_dash_chars(s: &Vec<char>) -> (r: Vec<char>)
    ensures
        r@ == em_dash_spec(s@),
{
    let t = apply_scan(&SpacedEmDash, s);
    apply_scan(&TightEmDash, &t)
}

/// EN (Chicago): ` - `, ` -- ` and `--` between words → em dash set closed
/// up (word—word). A hyphen inside a word stays.
pub fn em_dash(text: &str) -> (r: String)
    ensures
        r@ == em_dash_spec(text@),
{
    from_chars(&em_dash_chars(&to_chars(text)))
}

/// A hyphen between two digits becomes an en dash.
pub struct NumberRange;

pub open spec fn range_hyphen(s: Seq<char>, j: int) -> bool {
    1 <= j && j + 1 < s.len() && s[j] == '-' && is_digit(s[j - 1]) && is_digit(s[j + 1])
}

impl PointRule for NumberRange {
    open spec fn spec_char(&self, s: Seq<char>, j: int) -> char {
        if range_hyphen(s, j) {
            '\u{2013}'
        } else {
            s[j]
        }
    }

    fn exec_char(&self, s: &Vec<char>, j: usize) -> (c: char) {
        if 1 <= j && s.len() - j > 1 && s[j] == '-' && digit(s[j - 1]) && digit(s[j + 1]) {
            '\u{2013}'
        } else {
            s[j]
        }
    }
}

pub open spec fn number_range_spec(s: Seq<char>) -> Seq<char> {
    map_rule(NumberRange, s)
}

pub fn number_range_chars(s: &Vec<char>) -> (r: Vec<char>)
    ensures
        r@ == number_range_spec(s@),
{
    apply_point(&NumberRange, s)
}

/// Number range `10-20` → `10–20` (en dash, no spaces).
pub fn number_range(text: &str) -> (r: String)
    ensures
        r@ == number_range_spec(text@),
{
    from_chars(&number_range_chars(&to_chars(text)))
}

} // verus!
