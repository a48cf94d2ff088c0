//! Ellipsis, apostrophe, multiplication sign, thousands groups.

use vstd::prelude::*;

use crate::rewrite::{PointRule, ScanRule, apply_point, apply_scan, map_rule, scan_rule};
use crate::text::{
    NARROW_NBSP,
    NBSP,
    digit,
    from_chars,
    is_digit,
    is_letter,
    is_word,
    is_ws,
    letter,
    to_chars,
    word,
};

verus! {

/// `...` becomes `…` (left to right, without overlaps).
pub struct Ellipsis;

pub open spec fn three_dots_at(s: Seq<char>, i: int) -> bool {
    0 <= i && i + 2 < s.len() && s[i] == '.' && s[i + 1] == '.' && s[i + 2] == '.'
}

impl ScanRule for Ellipsis {
    open spec fn spec_match(&self, s: Seq<char>, i: int) -> Option<(int, Seq<char>)> {
        if three_dots_at(s, i) {
            Some((i + 3, seq!['\u{2026}']))
        } else {
            None
        }
    }

    fn exec_match(&self, s: &Vec<char>, i: usize) -> (r: Option<(usize, Vec<char>)>) {
        if s.len() - i > 2 && s[i] == '.' && s[i + 1] == '.' && s[i + 2] == '.' {
            let mut rep = Vec::new();
            rep.push('\u{2026}');
            assert(rep@ =~= seq!['\u{2026}']);
            Some((i + 3, rep))
        } else {
            None
        }
    }
}

pub open spec fn ellipsis_spec(s: Seq<char>) -> Seq<char> {
    scan_rule(Ellipsis, s)
}

pub fn ellipsis_chars(s: &Vec<char>) -> (r: Vec<char>)
    ensures
        r@ == ellipsis_spec(s@),
{
    apply_scan(&Ellipsis, s)
}

/// `...` → `…`.
pub fn ellipsis(text: &str) -> (r: String)
    ensures
        r@ == ellipsis_spec(text@),
{
    from_chars(&ellipsis_chars(&to_chars(text)))
}

/// A straight `'` between two letters becomes the apostrophe `’`.
pub struct Apostrophe;

pub open spec fn apostrophe_at(s: Seq<char>, j: int) -> bool {
    1 <= j && j + 1 < s.len() && s[j] == '\'' && is_letter(s[j - 1]) && is_letter(s[j + 1])
}

impl PointRule for Apostrophe {
    open spec fn spec_char(&self, s: Seq<char>, j: int) -> char {
        if apostrophe_at(s, j) {
            '\u{2019}'
        } else {
            s[j]
        }
    }

    fn exec_char(&self, s: &Vec<char>, j: usize) -> (c: char) {
        if 1 <= j && s.len() - j > 1 && s[j] == '\'' && letter(s[j - 1]) && letter(s[j + 1]) {
            '\u{2019}'
        } else {
            s[j]
        }
    }
}

pub open spec fn apostrophe_spec(s: Seq<char>) -> Seq<char> {
    map_rule(Apostrophe, s)
}

pub fn apostrophe_chars(s: &Vec<char>) -> (r: Vec<char>)
    ensures
        r@ == apostrophe_spec(s@),
{
    apply_point(&Apostrophe, s)
}

/// `don't` → `don’t`: a straight apostrophe inside a word becomes U+2019.
pub fn apostrophe(text: &str) -> (r: String)
    ensures
        r@ == apostrophe_spec(text@),
{
    from_chars(&apostrophe_chars(&to_chars(text)))
}

pub open spec fn is_sp(c: char) -> bool {
    c == ' ' || c == NBSP
}

/// `2 x 3` (spaces or no-break spaces around an `x` between digits) becomes
/// `2 × 3` with no-break spaces.
pub struct SpacedTimes;

pub open spec fn spaced_times_at(s: Seq<char>, i: int) -> bool {
    1 <= i && i + 3 < s.len() && is_digit(s[i - 1]) && is_sp(s[i]) && s[i + 1] == 'x' && is_sp(
        s[i + 2],
    ) && is_digit(s[i + 3])
}

impl ScanRule for SpacedTimes {
    open spec fn spec_match(&self, s: Seq<char>, i: int) -> Option<(int, Seq<char>)> {
        if spaced_times_at(s, i) {
            Some((i + 3, seq![NBSP, '\u{d7}', NBSP]))
        } else {
            None
        }
    }

    fn exec_match(&self, s: &Vec<char>, i: usize) -> (r: Option<(usize, Vec<char>)>) {
        if 1 <= i && s.len() - i > 3 && (s[i] == ' ' || s[i] == NBSP) && s[i + 1] == 'x' && (s[i
            + 2] == ' ' || s[i + 2] == NBSP) && digit(s[i - 1]) && digit(s[i + 3]) {
            let mut rep = Vec::new();
            rep.push(NBSP);
            rep.push('\u{d7}');
            rep.push(NBSP);
            assert(rep@ =~= seq![NBSP, '\u{d7}', NBSP]);
            Some((i + 3, rep))
        } else {
            None
        }
    }
}

/// `40x60` becomes `40×60`, except when the `x` follows a `0` that starts a
/// word (hexadecimal `0x1F`).
pub struct TightTimes;

pub open spec fn hex_prefix_zero(s: Seq<char>, j: int) -> bool {
    s[j - 1] == '0' && (j == 1 || !is_word(s[j - 2]))
}

pub open spec fn tight_times_at(s: Seq<char>, j: int) -> bool {
    1 <= j && j + 1 < s.len() && s[j] == 'x' && is_digit(s[j - 1]) && is_digit(s[j + 1])
        && !hex_prefix_zero(s, j)
}

impl PointRule for TightTimes {
    open spec fn spec_char(&self, s: Seq<char>, j: int) -> char {
        if tight_times_at(s, j) {
            '\u{d7}'
        } else {
            s[j]
        }
    }

    fn exec_char(&self, s: &Vec<char>, j: usize) -> (c: char) {
        if 1 <= j && s.len() - j > 1 && s[j] == 'x' && digit(s[j - 1]) && digit(s[j + 1]) && !(
        s[j - 1] == '0' && (j == 1 || !word(s[j - 2]))) {
            '\u{d7}'
        } else {
            s[j]
        }
    }
}

pub open spec fn multiply_sign_spec(s: Seq<char>) -> Seq<char> {
    map_rule(TightTimes, scan_rule(SpacedTimes, s))
}

pub fn multiply_sign_chars(s: &Vec<char>) -> (r: Vec<char>)
    ensures
        r@ == multiply_sign_spec(s@),
{
    let t = apply_scan(&SpacedTimes, s);
    apply_point(&TightTimes, &t)
}

/// `x` between numbers → `×`; the spaces around become no-break spaces.
pub fn multiply_sign(text: &str) -> (r: String)
    ensures
        r@ == multiply_sign_spec(text@),
{
    from_chars(&multiply_sign_chars(&to_chars(text)))
}

/// A space between a digit and a group of exactly three digits (followed by a
/// non-digit or the end) becomes a narrow no-break space U+202F.
pub struct ThousandsSpace;

pub open spec fn thousands_space_at(s: Seq<char>, j: int) -> bool {
    1 <= j && j + 3 < s.len() && s[j] == ' ' && is_digit(s[j - 1]) && is_digit(s[j + 1])
        && is_digit(s[j + 2]) && is_digit(s[j + 3]) && (j + 4 == s.len() || !is_digit(s[j + 4]))
}

impl PointRule for ThousandsSpace {
    open spec fn spec_char(&self, s: Seq<char>, j: int) -> char {
        if thousands_space_at(s, j) {
            NARROW_NBSP
        } else {
            s[j]
        }
    }

    fn exec_char(&self, s: &Vec<char>, j: usize) -> (c: char) {
        if 1 <= j && s.len() - j > 3 && s[j] == ' ' && digit(s[j - 1]) && digit(s[j + 1]) && digit(
            s[j + 2],
        ) && digit(s[j + 3]) && (s.len() - j == 4 || !digit(s[j + 4])) {
            NARROW_NBSP
        } else {
            s[j]
        }
    }
}

pub open spec fn thousands_spec(s: Seq<char>) -> Seq<char> {
    map_rule(ThousandsSpace, s)
}

/// Grouping is settled in one reading: reading the result again changes
/// nothing.
pub proof fn lemma_thousands_idempotent(s: Seq<char>)
    ensures
        thousands_spec(thousands_spec(s)) == thousands_spec(s),
{
    let t = thousands_spec(s);
    assert forall|j: int| 0 <= j < t.len() implies #[trigger] ThousandsSpace.spec_char(t, j)
        == t[j] by {
        if thousands_space_at(t, j) {
            assert(t[j] == s[j]);
            assert(t[j - 1] == s[j - 1]);
            assert(t[j + 1] == s[j + 1]);
            assert(t[j + 2] == s[j + 2]);
            assert(t[j + 3] == s[j + 3]);
            if j + 4 < s.len() {
                assert(t[j + 4] == s[j + 4] || (t[j + 4] == NARROW_NBSP && s[j + 4] == ' '));
            }
            assert(thousands_space_at(s, j));
        }
    }
    assert(thousands_spec(t) =~= t);
}

/// A space between a digit and a group of exactly three digits (followed by
/// any character that is not a digit, or by the end) becomes a narrow
/// no-break space U+202F; any other space stays a space (after a non-digit,
/// before fewer or more than three digits), and so does every other
/// character.
pub proof fn lemma_thousands_groups(s: Seq<char>)
    ensures
        thousands_spec(s).len() == s.len(),
        forall|j: int|
            1 <= j && j + 3 < s.len() && s[j] == ' ' && is_digit(s[j - 1]) && is_digit(s[j + 1])
                && is_digit(s[j + 2]) && is_digit(s[j + 3]) && (j + 4 == s.len() || !is_digit(
                s[j + 4],
            )) ==> #[trigger] thousands_spec(s)[j] == '\u{202f}',
        forall|j: int|
            0 <= j < s.len() && s[j] == ' ' && (j == 0 || !is_digit(s[j - 1]) || j + 3 >= s.len()
                || !is_digit(s[j + 1]) || !is_digit(s[j + 2]) || !is_digit(s[j + 3]) || (j + 4
                < s.len() && is_digit(s[j + 4]))) ==> #[trigger] thousands_spec(s)[j] == ' ',
        forall|j: int|
            0 <= j < s.len() ==> #[trigger] thousands_spec(s)[j] == s[j] || (s[j] == ' '
                && thousands_spec(s)[j] == '\u{202f}'),
{
}

fn same_chars(a: &Vec<char>, b: &Vec<char>) -> (r: bool)
    ensures
        r == (a@ == b@),
{
    if a.len() != b.len() {
        return false;
    }
    let mut i: usize = 0;
    while i < a.len()
        invariant
            i <= a.len() == b.len(),
            forall|t: int| 0 <= t < i ==> a@[t] == b@[t],
        decreases a.len() - i,
    {
        if a[i] != b[i] {
            return false;
        }
        i = i + 1;
    }
    assert(a@ =~= b@);
    true
}

pub fn thousands_groups_chars(s: &Vec<char>) -> (r: Vec<char>)
    ensures
        r@ == thousands_spec(s@),
{
    let mut cur = apply_point(&ThousandsSpace, s);
    proof {
        lemma_thousands_idempotent(s@);
    }
    loop
        invariant
            cur@ == thousands_spec(s@),
            thousands_spec(cur@) == cur@,
        decreases 1nat,
    {
        let next = apply_point(&ThousandsSpace, &cur);
        if same_chars(&next, &cur) {
            return cur;
        }
        cur = next;
    }
}

/// Spaces already grouping thousands (`1 000 000`) → narrow no-break space
/// U+202F. Bare digits (`10000`) are left alone: they may be a year or an
/// identifier.
pub fn thousands_groups(text: &str) -> (r: String)
    ensures
        r@ == thousands_spec(text@),
{
    from_chars(&thousands_groups_chars(&to_chars(text)))
}

} // verus!
