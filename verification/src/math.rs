//! Math rendered at build time by katex-rs. A formula wider than the printed
//! page gets the class `math-wide-N`, which print.css shrinks (KaTeX cannot
//! break display math by itself).

use vstd::prelude::*;

use crate::text::{append, decimal, decimal_chars, from_chars, push_all, push_range, seq_at, to_chars, word_at};

verus! {

/// Index of the first occurrence of `p` in `s` at or after `k`, or -1.
pub open spec fn first_occurrence(s: Seq<char>, p: Seq<char>, k: int) -> int
    decreases s.len() + 1 - k,
{
    if k < 0 || k > s.len() {
        -1
    } else if seq_at(s, k, p) {
        k
    } else {
        first_occurrence(s, p, k + 1)
    }
}

pub proof fn lemma_first_occurrence(s: Seq<char>, p: Seq<char>, k: int)
    requires
        0 <= k,
    ensures
        first_occurrence(s, p, k) == -1 || (k <= first_occurrence(s, p, k) && seq_at(
            s,
            first_occurrence(s, p, k),
            p,
        )),
    decreases s.len() + 1 - k,
{
    if k <= s.len() && !seq_at(s, k, p) {
        lemma_first_occurrence(s, p, k + 1);
    }
}

/// `str::replacen(p, r, 1)`: the first occurrence of `p` replaced by `r`.
pub open spec fn replace_first_spec(s: Seq<char>, p: Seq<char>, r: Seq<char>) -> Seq<char> {
    let k = first_occurrence(s, p, 0);
    if k < 0 {
        s
    } else {
        s.take(k) + r + s.subrange(k + p.len(), s.len() as int)
    }
}

pub fn replace_first(s: &str, p: &str, r: &str) -> (out: String)
    ensures
        out@ == replace_first_spec(s@, p@, r@),
{
    let v = to_chars(s);
    let pv = to_chars(p);
    let rv = to_chars(r);
    let n = v.len();
    proof {
        lemma_first_occurrence(v@, pv@, 0);
    }
    let mut k: usize = 0;
    while k <= n
        invariant
            k <= n + 1,
            n == v@.len(),
            v@ == s@,
            pv@ == p@,
            rv@ == r@,
            first_occurrence(v@, pv@, k as int) == first_occurrence(v@, pv@, 0),
        decreases n + 1 - k,
    {
        if word_at(&v, k, pv.as_slice()) {
            let mut out: Vec<char> = Vec::new();
            push_range(&mut out, &v, 0, k);
            push_all(&mut out, rv.as_slice());
            push_range(&mut out, &v, k + pv.len(), n);
            assert(v@.subrange(0, k as int) == v@.take(k as int));
            return from_chars(&out);
        }
        if k == n {
            assert(first_occurrence(v@, pv@, n + 1) == -1);
            return from_chars(&v);
        }
        k = k + 1;
    }
    from_chars(&v)
}

/// The HTML of a formula with its width class: tier 0 leaves it as it is;
/// a display formula of tier `N` gets `math-wide-N` on its `katex-display`
/// element, an inline formula of any tier `math-wide-1` on its `katex`
/// element.
pub open spec fn tag_wide_math_spec(html: Seq<char>, display: bool, tier: u8) -> Seq<char> {
    if tier == 0 {
        html
    } else if display {
        replace_first_spec(
            html,
            "class=\"katex-display\""@,
            "class=\"katex-display math-wide-"@ + decimal(tier as nat) + "\""@,
        )
    } else {
        replace_first_spec(html, "class=\"katex\""@, "class=\"katex math-wide-1\""@)
    }
}

pub fn tag_wide_math(html: &str, display: bool, tier: u8) -> (r: String)
    ensures
        r@ == tag_wide_math_spec(html@, display, tier),
{
    if tier == 0 {
        let mut s = String::new();
        append(&mut s, html);
        return s;
    }
    if display {
        let mut rep = String::new();
        append(&mut rep, "class=\"katex-display math-wide-");
        let t = from_chars(&decimal_chars(tier as u64));
        append(&mut rep, t.as_str());
        append(&mut rep, "\"");
        replace_first(html, "class=\"katex-display\"", rep.as_str())
    } else {
        replace_first(html, "class=\"katex\"", "class=\"katex math-wide-1\"")
    }
}

/// What every KaTeX output holds: the `katex` span, and in display mode
/// the `katex-display` span.
pub open spec fn katex_marked(h: Seq<char>, display: bool) -> bool {
    &&& crate::assets::contains(h, "class=\"katex\""@)
    &&& display ==> crate::assets::contains(h, "class=\"katex-display\""@)
}

/// Whether KaTeX accepts the TeX `tex`, inline or as display math.
pub uninterp spec fn katex_accepts(tex: Seq<char>, display: bool) -> bool;

/// The text of the parse error that KaTeX reports for `tex`.
pub uninterp spec fn katex_error_of(tex: Seq<char>, display: bool) -> Seq<char>;

/// `katex::render_to_string` with KaTeX's default context and settings of
/// the display mode given, HTML plus MathML output, and errors reported
/// (`throw_on_error` stays at its default, true); an error comes back as
/// its text. The contract claims that whether KaTeX accepts the formula,
/// and the text of its error, depend on the TeX and the display mode
/// alone. Of the HTML, whose attribute order is not fixed, it claims what
/// every outcome holds: the `katex` span, and for display math the
/// `katex-display` span around it (classes are written apart from the other
/// attributes, as `class="…"`).
#[verifier::external_body]
fn render_katex(tex: &str, display: bool) -> (r: Result<String, String>)
    ensures
        r is Ok <==> katex_accepts(tex@, display),
        r matches Err(m) ==> m@ == katex_error_of(tex@, display),
        r matches Ok(h) ==> katex_marked(h@, display),
{
    let settings = katex::Settings::builder()
        .display_mode(display)
        .output(katex::OutputFormat::HtmlAndMathml)
        .build();
    match katex::render_to_string(&katex::KatexContext::default(), tex, &settings) {
        Ok(html) => Ok(html),
        Err(e) => Err(e.to_string()),
    }
}

pub open spec fn math_error_text(line: nat, reason: Seq<char>) -> Seq<char> {
    "chyba KaTeX (řádek "@ + decimal(line) + "): "@ + reason
}

pub fn math_error_message(line: usize, reason: &str) -> (r: String)
    ensures
        r@ == math_error_text(line as nat, reason@),
{
    let mut s = String::new();
    append(&mut s, "chyba KaTeX (řádek ");
    let n = from_chars(&decimal_chars(line as u64));
    append(&mut s, n.as_str());
    append(&mut s, "): ");
    append(&mut s, reason);
    s
}

/// Renders TeX with KaTeX, inline or as display math.
pub struct MathRenderer {}

impl MathRenderer {
    pub fn new() -> (r: MathRenderer) {
        MathRenderer {  }
    }

    /// The HTML of one formula from source line `line`, with the width class
    /// of `tier`. Invalid TeX fails the build with the line number and
    /// KaTeX's message.
    pub fn render(&self, tex: &str, display: bool, line: usize, tier: u8) -> (r: Result<
        String,
        String,
    >)
        ensures
            r is Ok <==> katex_accepts(tex@, display),
            match r {
                Ok(h) => exists|raw: Seq<char>|
                    katex_marked(raw, display) && h@ == tag_wide_math_spec(raw, display, tier),
                Err(m) => m@ == math_error_text(line as nat, katex_error_of(tex@, display)),
            },
    {
        match render_katex(tex, display) {
            Ok(html) => Ok(tag_wide_math(html.as_str(), display, tier)),
            Err(reason) => Err(math_error_message(line, reason.as_str())),
        }
    }
}

} // verus!
