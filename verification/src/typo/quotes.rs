//! Quotation marks: Czech „…“ and nested ‚…‘ made of straight `"` and `'`;
//! English “…” and ‘…’. Pairing happens within one text; a pair must open
//! after a boundary (start, white space, an opening bracket, a dash or `>`),
//! hold a non-blank first and last character, and close before a boundary.

use vstd::prelude::*;

use crate::rewrite::{ScanRule, apply_scan, scan_rule};
use crate::text::{char_is, from_chars, is_ws, push_range, to_chars, ws};

verus! {

/// Characters after which a double quote may open.
pub open spec fn double_before(c: char) -> bool {
    is_ws(c) || c == '(' || c == '[' || c == '{' || c == '\u{2013}' || c == '\u{2014}' || c
        == '>'
}

/// Characters before which a double quote may close.
pub open spec fn double_after(c: char) -> bool {
    is_ws(c) || c == '.' || c == ',' || c == ';' || c == ':' || c == '!' || c == '?' || c == ')'
        || c == ']' || c == '}' || c == '<' || c == '\u{2013}' || c == '\u{2014}'
}

/// Characters after which a single quote may open.
pub open spec fn single_before(c: char) -> bool {
    double_before(c) || c == '\u{201e}' || c == '\u{201c}'
}

/// Characters before which a single quote may close.
pub open spec fn single_after(c: char) -> bool {
    double_after(c) || c == '\u{201e}' || c == '\u{201c}'
}

pub open spec fn quote_before(single: bool, c: char) -> bool {
    if single {
        single_before(c)
    } else {
        double_before(c)
    }
}

pub open spec fn quote_after(single: bool, c: char) -> bool {
    if single {
        single_after(c)
    } else {
        double_after(c)
    }
}

pub open spec fn opens_after(s: Seq<char>, i: int, single: bool) -> bool {
    i == 0 || (0 < i <= s.len() && quote_before(single, s[i - 1]))
}

pub open spec fn closes_before(s: Seq<char>, j: int, single: bool) -> bool {
    j == s.len() || (0 <= j < s.len() && quote_after(single, s[j]))
}

/// The first position at or after `k` that holds `q`, or the length of `s`.
pub open spec fn next_quote(s: Seq<char>, q: char, k: int) -> int
    decreases s.len() - k,
{
    if k >= s.len() {
        s.len() as int
    } else if s[k] == q {
        k
    } else {
        next_quote(s, q, k + 1)
    }
}

/// Where the quoted passage that opens with `q` at `i` ends (one past its
/// closing mark), if it does. The content is as long as possible up to the
/// first further `q` (which may itself be the last content character when a
/// second `q` follows it), else a single character.
pub open spec fn quote_end(s: Seq<char>, i: int, q: char, single: bool) -> Option<int> {
    if !(char_is(s, i, q) && opens_after(s, i, single) && i + 1 < s.len() && !is_ws(s[i + 1])) {
        None
    } else {
        let k = next_quote(s, q, i + 2);
        if k + 1 < s.len() && s[k + 1] == q && closes_before(s, k + 2, single) {
            Some(k + 2)
        } else if i + 3 <= k < s.len() && !is_ws(s[k - 1]) && closes_before(s, k + 1, single) {
            Some(k + 1)
        } else if char_is(s, i + 2, q) && closes_before(s, i + 3, single) {
            Some(i + 3)
        } else {
            None
        }
    }
}

proof fn lemma_next_quote(s: Seq<char>, q: char, k: int)
    requires
        0 <= k,
    ensures
        k <= next_quote(s, q, k) || (k > s.len() && next_quote(s, q, k) == s.len()),
        next_quote(s, q, k) <= s.len(),
        next_quote(s, q, k) < s.len() ==> s[next_quote(s, q, k)] == q,
        forall|t: int| k <= t < next_quote(s, q, k) ==> s[t] != q,
    decreases s.len() - k,
{
    if k < s.len() && s[k] != q {
        lemma_next_quote(s, q, k + 1);
    }
}

/// One kind of quotation mark turned into an opening/closing pair.
pub struct QuotePair {
    pub quote: char,
    pub open: char,
    pub close: char,
    pub single: bool,
}

fn quote_before_exec(single: bool, c: char) -> (r: bool)
    ensures
        r == quote_before(single, c),
{
    let base = ws(c) || c == '(' || c == '[' || c == '{' || c == '\u{2013}' || c == '\u{2014}'
        || c == '>';
    if single {
        base || c == '\u{201e}' || c == '\u{201c}'
    } else {
        base
    }
}

fn quote_after_exec(single: bool, c: char) -> (r: bool)
    ensures
        r == quote_after(single, c),
{
    let base = ws(c) || c == '.' || c == ',' || c == ';' || c == ':' || c == '!' || c == '?' || c
        == ')' || c == ']' || c == '}' || c == '<' || c == '\u{2013}' || c == '\u{2014}';
    if single {
        base || c == '\u{201e}' || c == '\u{201c}'
    } else {
        base
    }
}

fn closes_before_exec(s: &Vec<char>, j: usize, single: bool) -> (r: bool)
    ensures
        r == closes_before(s@, j as int, single),
{
    j == s.len() || (j < s.len() && quote_after_exec(single, s[j]))
}

fn quote_end_exec(s: &Vec<char>, i: usize, q: char, single: bool) -> (r: Option<usize>)
    ensures
        match r {
            Some(e) => quote_end(s@, i as int, q, single) == Some(e as int) && i + 3 <= e
                <= s@.len(),
            None => quote_end(s@, i as int, q, single) is None,
        },
{
    let n = s.len();
    if !(i < n && s[i] == q && (i == 0 || quote_before_exec(single, s[i - 1])) && i + 1 < n
        && !ws(s[i + 1])) {
        return None;
    }
    let mut k = i + 2;
    if k > n {
        k = n;
    }
    proof {
        lemma_next_quote(s@, q, (i + 2) as int);
    }
    while k < n && s[k] != q
        invariant
            i + 2 <= k + 1,
            k <= n == s@.len(),
            next_quote(s@, q, k as int) == next_quote(s@, q, (i + 2) as int),
        decreases n - k,
    {
        k = k + 1;
    }
    assert(next_quote(s@, q, k as int) == k);
    if k < n && k + 1 < n && s[k + 1] == q && closes_before_exec(s, k + 2, single) {
        Some(k + 2)
    } else if i + 2 < k && k < n && !ws(s[k - 1]) && closes_before_exec(s, k + 1, single) {
        Some(k + 1)
    } else if i + 2 < n && s[i + 2] == q && closes_before_exec(s, i + 3, single) {
        Some(i + 3)
    } else {
        None
    }
}

impl ScanRule for QuotePair {
    open spec fn spec_match(&self, s: Seq<char>, i: int) -> Option<(int, Seq<char>)> {
        match quote_end(s, i, self.quote, self.single) {
            Some(e) => Some((e, seq![self.open] + s.subrange(i + 1, e - 1) + seq![self.close])),
            None => None,
        }
    }

    fn exec_match(&self, s: &Vec<char>, i: usize) -> (r: Option<(usize, Vec<char>)>) {
        match quote_end_exec(s, i, self.quote, self.single) {
            Some(e) => {
                let mut rep = Vec::new();
                rep.push(self.open);
                push_range(&mut rep, s, i + 1, e - 1);
                rep.push(self.close);
                assert(rep@ =~= seq![self.open] + s@.subrange(i + 1, e - 1) + seq![self.close]);
                Some((e, rep))
            },
            None => None,
        }
    }
}

pub open spec fn pair(quote: char, open: char, close: char, single: bool) -> QuotePair {
    QuotePair { quote, open, close, single }
}

/// Double quotes, then single quotes, turned into the given pairs.
pub open spec fn quotes_spec(
    s: Seq<char>,
    dopen: char,
    dclose: char,
    sopen: char,
    sclose: char,
) -> Seq<char> {
    scan_rule(
        pair('\'', sopen, sclose, true),
        scan_rule(pair('"', dopen, dclose, false), s),
    )
}

pub open spec fn czech_quotes_spec(s: Seq<char>) -> Seq<char> {
    quotes_spec(s, '\u{201e}', '\u{201c}', '\u{201a}', '\u{2018}')
}

pub open spec fn english_quotes_spec(s: Seq<char>) -> Seq<char> {
    quotes_spec(s, '\u{201c}', '\u{201d}', '\u{2018}', '\u{2019}')
}

pub fn quotes_chars(s: &Vec<char>, dopen: char, dclose: char, sopen: char, sclose: char) -> (r:
    Vec<char>)
    ensures
        r@ == quotes_spec(s@, dopen, dclose, sopen, sclose),
{
    let d = QuotePair { quote: '"', open: dopen, close: dclose, single: false };
    let t = apply_scan(&d, s);
    let q = QuotePair { quote: '\'', open: sopen, close: sclose, single: true };
    apply_scan(&q, &t)
}

pub fn czech_quotes_chars(s: &Vec<char>) -> (r: Vec<char>)
    ensures
        r@ == czech_quotes_spec(s@),
{
    quotes_chars(s, '\u{201e}', '\u{201c}', '\u{201a}', '\u{2018}')
}

pub fn english_quotes_chars(s: &Vec<char>) -> (r: Vec<char>)
    ensures
        r@ == english_quotes_spec(s@),
{
    quotes_chars(s, '\u{201c}', '\u{201d}', '\u{2018}', '\u{2019}')
}

/// Straight quotes → Czech „…“ and nested ‚…‘.
pub fn czech_quotes(text: &str) -> (r: String)
    ensures
        r@ == czech_quotes_spec(text@),
{
    from_chars(&czech_quotes_chars(&to_chars(text)))
}

/// Straight quotes → English “…” and nested ‘…’.
pub fn english_quotes(text: &str) -> (r: String)
    ensures
        r@ == english_quotes_spec(text@),
{
    from_chars(&english_quotes_chars(&to_chars(text)))
}

/// Straight quotes → low-high „…“ and ‚…‘ (Czech and German style).
pub fn double_low_quotes(text: &str) -> (r: String)
    ensures
        r@ == czech_quotes_spec(text@),
{
    czech_quotes(text)
}

} // verus!
