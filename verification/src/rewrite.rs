//! The two shapes every typographic rule takes.
//!
//! A *point rule* decides, for each position of the original text, which
//! character stands there in the result (the text keeps its length).
//!
//! A *scan rule* is read left to right: where a match starts at the current
//! position, its replacement is emitted and reading resumes after the match;
//! elsewhere the character is copied. Conditions on the neighbourhood of a
//! match are always judged on the original text.

use vstd::prelude::*;

verus! {

pub trait PointRule {
    spec fn spec_char(&self, s: Seq<char>, j: int) -> char;

    fn exec_char(&self, s: &Vec<char>, j: usize) -> (c: char)
        requires
            j < s@.len(),
        ensures
            c == self.spec_char(s@, j as int),
    ;
}

/// The result of a point rule on `s`.
pub open spec fn map_rule<R: PointRule>(rule: R, s: Seq<char>) -> Seq<char> {
    Seq::new(s.len(), |j: int| rule.spec_char(s, j))
}

pub fn apply_point<R: PointRule>(rule: &R, s: &Vec<char>) -> (out: Vec<char>)
    ensures
        out@ == map_rule(*rule, s@),
{
    let mut out: Vec<char> = Vec::new();
    let mut j: usize = 0;
    while j < s.len()
        invariant
            j <= s.len(),
            out@ == map_rule(*rule, s@).take(j as int),
        decreases s.len() - j,
    {
        let c = rule.exec_char(s, j);
        out.push(c);
        assert(map_rule(*rule, s@).take(j + 1) == map_rule(*rule, s@).take(j as int).push(c));
        j = j + 1;
    }
    assert(map_rule(*rule, s@).take(s.len() as int) == map_rule(*rule, s@));
    out
}

pub trait ScanRule {
    /// The end and the replacement of the match that starts at `i`, if one
    /// does.
    spec fn spec_match(&self, s: Seq<char>, i: int) -> Option<(int, Seq<char>)>;

    fn exec_match(&self, s: &Vec<char>, i: usize) -> (r: Option<(usize, Vec<char>)>)
        requires
            i < s@.len(),
        ensures
            match r {
                Some(m) => i < m.0 <= s@.len() && self.spec_match(s@, i as int) == Some(
                    (m.0 as int, m.1@),
                ),
                None => self.spec_match(s@, i as int) is None,
            },
    ;
}

/// The result of reading `s` from position `i` on with a scan rule.
pub open spec fn scan_from<R: ScanRule>(rule: R, s: Seq<char>, i: nat) -> Seq<char>
    decreases s.len() - i,
{
    if i >= s.len() {
        Seq::empty()
    } else {
        match rule.spec_match(s, i as int) {
            Some(m) => if i < m.0 <= s.len() {
                m.1 + scan_from(rule, s, m.0 as nat)
            } else {
                seq![s[i as int]] + scan_from(rule, s, i + 1)
            },
            None => seq![s[i as int]] + scan_from(rule, s, i + 1),
        }
    }
}

/// The result of a scan rule on `s`.
pub open spec fn scan_rule<R: ScanRule>(rule: R, s: Seq<char>) -> Seq<char> {
    scan_from(rule, s, 0)
}

pub fn apply_scan<R: ScanRule>(rule: &R, s: &Vec<char>) -> (out: Vec<char>)
    ensures
        out@ == scan_rule(*rule, s@),
{
    let mut out: Vec<char> = Vec::new();
    let mut i: usize = 0;
    while i < s.len()
        invariant
            i <= s.len(),
            out@ + scan_from(*rule, s@, i as nat) == scan_rule(*rule, s@),
        decreases s.len() - i,
    {
        match rule.exec_match(s, i) {
            Some(m) => {
                let (e, rep) = m;
                assert(out@ + rep@ + scan_from(*rule, s@, e as nat) == scan_rule(*rule, s@));
                let mut k: usize = 0;
                let ghost before = out@;
                while k < rep.len()
                    invariant
                        k <= rep.len(),
                        out@ == before + rep@.take(k as int),
                    decreases rep.len() - k,
                {
                    out.push(rep[k]);
                    assert(rep@.take(k + 1) == rep@.take(k as int).push(rep@[k as int]));
                    k = k + 1;
                }
                assert(rep@.take(rep.len() as int) == rep@);
                i = e;
            },
            None => {
                assert(out@ + seq![s@[i as int]] + scan_from(*rule, s@, (i + 1) as nat)
                    == scan_rule(*rule, s@));
                out.push(s[i]);
                i = i + 1;
            },
        }
    }
    assert(scan_from(*rule, s@, i as nat) == Seq::<char>::empty());
    assert(out@ + Seq::<char>::empty() == out@);
    out
}

} // verus!
