//! Pieces of the HTML page that are decided here: localized labels, the date
//! in the byline, the company line, CSS variables, figure numbering and the
//! table of contents.

use vstd::prelude::*;

use crate::cli::Lang;
use crate::config::{Company, Config};
use crate::pack::{merge_company, merged_company, pack_fonts_css_spec, TemplatePack};
use crate::parse::{FrontMatter, Heading};
use crate::text::{
    NBSP,
    append,
    append_repeat,
    decimal,
    decimal_chars,
    find_from,
    find_from_exec,
    from_chars,
    parse_u32,
    parse_u32_spec,
    push_all,
    repeat,
    slice_chars,
    string_push,
    to_chars,
};

verus! {

pub open spec fn lang_code_spec(lang: Lang) -> Seq<char> {
    match lang {
        Lang::Cs => "cs"@,
        Lang::En => "en"@,
        Lang::De => "de"@,
    }
}

/// The `lang` attribute of the page.
pub fn lang_code(lang: Lang) -> (r: &'static str)
    ensures
        r@ == lang_code_spec(lang),
{
    match lang {
        Lang::Cs => "cs",
        Lang::En => "en",
        Lang::De => "de",
    }
}

pub open spec fn toc_title_spec(lang: Lang) -> Seq<char> {
    match lang {
        Lang::Cs => "Obsah"@,
        Lang::En => "Contents"@,
        Lang::De => "Inhalt"@,
    }
}

/// Title of the table of contents.
pub fn toc_title(lang: Lang) -> (r: &'static str)
    ensures
        r@ == toc_title_spec(lang),
{
    match lang {
        Lang::Cs => "Obsah",
        Lang::En => "Contents",
        Lang::De => "Inhalt",
    }
}

pub open spec fn version_label_spec(lang: Lang) -> Seq<char> {
    match lang {
        Lang::Cs => "verze"@,
        Lang::En => "version"@,
        Lang::De => "Version"@,
    }
}

fn version_label(lang: Lang) -> (r: &'static str)
    ensures
        r@ == version_label_spec(lang),
{
    match lang {
        Lang::Cs => "verze",
        Lang::En => "version",
        Lang::De => "Version",
    }
}

// ---------------------------------------------------------------------------
// Dates

/// `RRRR-MM-DD` split at its two hyphens (exactly two).
pub open spec fn date_parts(s: Seq<char>) -> Option<(Seq<char>, Seq<char>, Seq<char>)> {
    let p1 = find_from(s, '-', 0);
    if p1 >= s.len() {
        None
    } else {
        let p2 = find_from(s, '-', p1 + 1);
        if p2 >= s.len() || find_from(s, '-', p2 + 1) < s.len() {
            None
        } else {
            Some((s.subrange(0, p1), s.subrange(p1 + 1, p2), s.subrange(p2 + 1, s.len() as int)))
        }
    }
}

/// At least two digits, with a leading zero (`{:02}`).
pub open spec fn pad2(n: nat) -> Seq<char> {
    if n < 10 {
        seq!['0'] + decimal(n)
    } else {
        decimal(n)
    }
}

/// ISO date `RRRR-MM-DD` set for the language: cs `D. M. RRRR` with no-break
/// spaces (ČSN 01 6910), de `DD.MM.RRRR` (DIN 5008); anything else, and all
/// of `en`, stays as it is.
pub open spec fn format_date_spec(s: Seq<char>, lang: Lang) -> Seq<char> {
    if lang == Lang::En {
        s
    } else {
        match date_parts(s) {
            None => s,
            Some(p) => match (parse_u32_spec(p.0), parse_u32_spec(p.1), parse_u32_spec(p.2)) {
                (Some(y), Some(m), Some(d)) => if 1 <= m <= 12 && 1 <= d <= 31 {
                    if lang == Lang::Cs {
                        decimal(d as nat) + seq!['.', NBSP] + decimal(m as nat) + seq!['.', NBSP]
                            + decimal(y as nat)
                    } else {
                        pad2(d as nat) + seq!['.'] + pad2(m as nat) + seq!['.'] + decimal(
                            y as nat,
                        )
                    }
                } else {
                    s
                },
                _ => s,
            },
        }
    }
}

proof fn lemma_reads_as(t: Seq<char>, n: nat)
    requires
        t.len() >= 1,
        crate::text::all_ascii_digits(t),
        crate::text::digits_value(t) == n,
        n <= u32::MAX,
    ensures
        crate::text::parse_u32_spec(t) == Some(n as u32),
        forall|i: int| 0 <= i < t.len() ==> #[trigger] t[i] != '-',
{
    assert(crate::text::is_ascii_digit(t[0]));
    assert forall|i: int| 0 <= i < t.len() implies #[trigger] t[i] != '-' by {
        assert(crate::text::is_ascii_digit(t[i]));
    }
}

proof fn lemma_pad2_reads_back(n: nat)
    ensures
        pad2(n).len() >= 1,
        crate::text::all_ascii_digits(pad2(n)),
        crate::text::digits_value(pad2(n)) == n,
{
    crate::text::lemma_decimal_reads_back(n);
    if n < 10 {
        let t = pad2(n);
        let d = decimal(n);
        assert(d.len() == 1);
        assert(t =~= seq!['0', d[0]]);
        assert(t.drop_last() =~= seq!['0']);
        assert(seq!['0'].drop_last() =~= Seq::<char>::empty());
        let z = seq!['0'];
        assert(z.last() == '0');
        assert(('0' as u32) == 48);
        assert(crate::text::digits_value(z.drop_last()) == 0);
        assert(crate::text::digits_value(z) == crate::text::digits_value(z.drop_last()) * 10 + ((
        z.last() as u32) - 48) as nat);
        assert(crate::text::digits_value(z) == 0);
        assert(d.drop_last() =~= Seq::<char>::empty());
        assert(crate::text::digits_value(d) == ((d[0] as u32) - 48) as nat);
        assert(crate::text::is_ascii_digit(d[0]));
        assert forall|i: int| 0 <= i < t.len() implies #[trigger] crate::text::is_ascii_digit(
            t[i],
        ) by {
            if i == 1 {
                assert(t[1] == d[0]);
            }
        }
    }
}

proof fn lemma_find_at(s: Seq<char>, c: char, k: int, r: int)
    requires
        0 <= k <= r <= s.len(),
        r < s.len() ==> s[r] == c,
        forall|t: int| k <= t < r ==> s[t] != c,
    ensures
        find_from(s, c, k) == r,
{
    crate::text::lemma_find_from(s, c, k);
    let f = find_from(s, c, k);
    if f < r {
        assert(s[f] == c);
    }
    if f > r {
        assert(s[r] != c);
    }
}

/// An ISO date `Y-MM-DD` (month and day with at least two digits) with a
/// month 1–12 and a day 1–31 is set for the language: in Czech as `D. M. Y`
/// with no-break spaces, in German as `DD.MM.Y`; any other month or day
/// leaves the text as it is, and English leaves every date as it is.
pub proof fn lemma_iso_dates_formatted(y: u32, m: u32, d: u32)
    ensures
        1 <= m <= 12 && 1 <= d <= 31 ==> format_date_spec(
            decimal(y as nat) + seq!['-'] + pad2(m as nat) + seq!['-'] + pad2(d as nat),
            Lang::Cs,
        ) == decimal(d as nat) + seq!['.', '\u{a0}'] + decimal(m as nat) + seq!['.', '\u{a0}']
            + decimal(y as nat),
        1 <= m <= 12 && 1 <= d <= 31 ==> format_date_spec(
            decimal(y as nat) + seq!['-'] + pad2(m as nat) + seq!['-'] + pad2(d as nat),
            Lang::De,
        ) == pad2(d as nat) + seq!['.'] + pad2(m as nat) + seq!['.'] + decimal(y as nat),
        !(1 <= m <= 12 && 1 <= d <= 31) ==> format_date_spec(
            decimal(y as nat) + seq!['-'] + pad2(m as nat) + seq!['-'] + pad2(d as nat),
            Lang::Cs,
        ) == decimal(y as nat) + seq!['-'] + pad2(m as nat) + seq!['-'] + pad2(d as nat),
        !(1 <= m <= 12 && 1 <= d <= 31) ==> format_date_spec(
            decimal(y as nat) + seq!['-'] + pad2(m as nat) + seq!['-'] + pad2(d as nat),
            Lang::De,
        ) == decimal(y as nat) + seq!['-'] + pad2(m as nat) + seq!['-'] + pad2(d as nat),
        format_date_spec(
            decimal(y as nat) + seq!['-'] + pad2(m as nat) + seq!['-'] + pad2(d as nat),
            Lang::En,
        ) == decimal(y as nat) + seq!['-'] + pad2(m as nat) + seq!['-'] + pad2(d as nat),
{
    let a = decimal(y as nat);
    let b = pad2(m as nat);
    let c = pad2(d as nat);
    crate::text::lemma_decimal_reads_back(y as nat);
    lemma_pad2_reads_back(m as nat);
    lemma_pad2_reads_back(d as nat);
    lemma_reads_as(a, y as nat);
    lemma_reads_as(b, m as nat);
    lemma_reads_as(c, d as nat);
    let s = a + seq!['-'] + b + seq!['-'] + c;
    let p1 = a.len() as int;
    let p2 = p1 + 1 + b.len();
    assert(s[p1] == '-');
    assert(s[p2] == '-');
    assert forall|t: int| 0 <= t < p1 implies s[t] != '-' by {
        assert(s[t] == a[t]);
    }
    assert forall|t: int| p1 + 1 <= t < p2 implies s[t] != '-' by {
        assert(s[t] == b[t - p1 - 1]);
    }
    assert forall|t: int| p2 + 1 <= t < s.len() implies s[t] != '-' by {
        assert(s[t] == c[t - p2 - 1]);
    }
    lemma_find_at(s, '-', 0, p1);
    lemma_find_at(s, '-', p1 + 1, p2);
    lemma_find_at(s, '-', p2 + 1, s.len() as int);
    assert(s.subrange(0, p1) =~= a);
    assert(s.subrange(p1 + 1, p2) =~= b);
    assert(s.subrange(p2 + 1, s.len() as int) =~= c);
    assert(date_parts(s) == Some((a, b, c)));
    assert(NBSP == '\u{a0}');
    assert(seq!['.', NBSP] =~= seq!['.', '\u{a0}']);
}

fn pad2_chars(n: u32) -> (r: Vec<char>)
    ensures
        r@ == pad2(n as nat),
{
    let d = decimal_chars(n as u64);
    if n < 10 {
        let mut r = Vec::new();
        r.push('0');
        let ghost before = r@;
        let mut i: usize = 0;
        while i < d.len()
            invariant
                i <= d.len(),
                r@ == seq!['0'] + d@.take(i as int),
            decreases d.len() - i,
        {
            r.push(d[i]);
            assert(d@.take(i + 1) == d@.take(i as int).push(d@[i as int]));
            i = i + 1;
        }
        assert(d@.take(d.len() as int) == d@);
        r
    } else {
        d
    }
}

fn extend(out: &mut Vec<char>, v: &Vec<char>)
    ensures
        final(out)@ == old(out)@ + v@,
{
    let mut i: usize = 0;
    while i < v.len()
        invariant
            i <= v.len(),
            out@ == old(out)@ + v@.take(i as int),
        decreases v.len() - i,
    {
        out.push(v[i]);
        assert(v@.take(i + 1) == v@.take(i as int).push(v@[i as int]));
        i = i + 1;
    }
    assert(v@.take(v.len() as int) == v@);
}

pub fn format_date(date: &str, lang: Lang) -> (r: String)
    ensures
        r@ == format_date_spec(date@, lang),
{
    if lang == Lang::En {
        return date.to_owned();
    }
    let s = to_chars(date);
    let n = s.len();
    proof {
        crate::text::lemma_find_from(s@, '-', 0);
    }
    let p1 = find_from_exec(&s, '-', 0);
    if p1 >= n {
        return date.to_owned();
    }
    let p2 = find_from_exec(&s, '-', p1 + 1);
    if p2 >= n {
        return date.to_owned();
    }
    let p3 = find_from_exec(&s, '-', p2 + 1);
    if p3 < n {
        return date.to_owned();
    }
    let y = parse_u32(&slice_chars(&s, 0, p1));
    let m = parse_u32(&slice_chars(&s, p1 + 1, p2));
    let d = parse_u32(&slice_chars(&s, p2 + 1, n));
    match (y, m, d) {
        (Some(y), Some(m), Some(d)) => {
            if 1 <= m && m <= 12 && 1 <= d && d <= 31 {
                let mut out: Vec<char> = Vec::new();
                if lang == Lang::Cs {
                    extend(&mut out, &decimal_chars(d as u64));
                    out.push('.');
                    out.push(NBSP);
                    extend(&mut out, &decimal_chars(m as u64));
                    out.push('.');
                    out.push(NBSP);
                    extend(&mut out, &decimal_chars(y as u64));
                    assert(out@ =~= decimal(d as nat) + seq!['.', NBSP] + decimal(m as nat)
                        + seq!['.', NBSP] + decimal(y as nat));
                } else {
                    extend(&mut out, &pad2_chars(d));
                    out.push('.');
                    extend(&mut out, &pad2_chars(m));
                    out.push('.');
                    extend(&mut out, &decimal_chars(y as u64));
                    assert(out@ =~= pad2(d as nat) + seq!['.'] + pad2(m as nat) + seq!['.']
                        + decimal(y as nat));
                }
                from_chars(&out)
            } else {
                date.to_owned()
            }
        },
        _ => date.to_owned(),
    }
}

// ---------------------------------------------------------------------------
// Joining

/// The texts of a list of strings.
pub open spec fn views(v: Seq<String>) -> Seq<Seq<char>> {
    Seq::new(v.len(), |i: int| v[i]@)
}

/// The parts joined by `sep`.
pub open spec fn join(parts: Seq<Seq<char>>, sep: Seq<char>) -> Seq<char>
    decreases parts.len(),
{
    if parts.len() == 0 {
        Seq::empty()
    } else if parts.len() == 1 {
        parts[0]
    } else {
        join(parts.drop_last(), sep) + sep + parts.last()
    }
}

pub fn join_strings(parts: &Vec<String>, sep: &str) -> (r: String)
    ensures
        r@ == join(views(parts@), sep@),
{
    let mut out = String::new();
    let mut i: usize = 0;
    while i < parts.len()
        invariant
            i <= parts.len(),
            out@ == join(views(parts@.take(i as int)), sep@),
        decreases parts.len() - i,
    {
        let ghost before = views(parts@.take(i as int));
        let ghost after = views(parts@.take(i + 1));
        assert(after.drop_last() =~= before);
        assert(after.last() == parts@[i as int]@);
        if i > 0 {
            append(&mut out, sep);
        }
        append(&mut out, parts[i].as_str());
        i = i + 1;
    }
    assert(parts@.take(parts.len() as int) == parts@);
    out
}

/// The separator of the byline and the company line: space, middle dot,
/// space.
pub open spec fn middle_dot() -> Seq<char> {
    " \u{b7} "@
}

pub open spec fn opt_part(o: Option<Seq<char>>) -> Seq<Seq<char>> {
    match o {
        Some(t) => seq![t],
        None => Seq::empty(),
    }
}

pub open spec fn byline_parts(fm: Option<&FrontMatter>, lang: Lang) -> Seq<Seq<char>> {
    match fm {
        None => Seq::empty(),
        Some(f) => opt_part(
            match f.author {
                Some(a) => Some(a@),
                None => None,
            },
        ) + opt_part(
            match f.date {
                Some(d) => Some(format_date_spec(d@, lang)),
                None => None,
            },
        ) + opt_part(
            match f.version {
                Some(v) => Some(version_label_spec(lang) + " "@ + v@),
                None => None,
            },
        ),
    }
}

/// The line under the title: author, date and version, those present,
/// joined by middle dots; none when none is present.
pub open spec fn byline_spec(fm: Option<&FrontMatter>, lang: Lang) -> Option<Seq<char>> {
    let parts = byline_parts(fm, lang);
    if parts.len() == 0 {
        None
    } else {
        Some(join(parts, middle_dot()))
    }
}

pub fn byline(front_matter: Option<&FrontMatter>, lang: Lang) -> (r: Option<String>)
    ensures
        match r {
            Some(t) => byline_spec(front_matter, lang) == Some(t@),
            None => byline_spec(front_matter, lang) is None,
        },
{
    let mut parts: Vec<String> = Vec::new();
    if let Some(fm) = front_matter {
        if let Some(a) = &fm.author {
            parts.push(a.clone());
        }
        let ghost p1 = parts@;
        if let Some(d) = &fm.date {
            parts.push(format_date(d.as_str(), lang));
        }
        let ghost p2 = parts@;
        if let Some(v) = &fm.version {
            let mut t = String::new();
            append(&mut t, version_label(lang));
            append(&mut t, " ");
            append(&mut t, v.as_str());
            parts.push(t);
        }
        assert(views(parts@) =~= byline_parts(front_matter, lang));
    } else {
        assert(views(parts@) =~= byline_parts(front_matter, lang));
    }
    if parts.len() == 0 {
        None
    } else {
        Some(join_strings(&parts, " \u{b7} "))
    }
}

pub open spec fn company_parts(c: Company) -> Seq<Seq<char>> {
    opt_part(
        match c.address {
            Some(a) => Some(a@),
            None => None,
        },
    ) + opt_part(
        match c.ico {
            Some(i) => Some("I\u{10c} "@ + i@),
            None => None,
        },
    ) + opt_part(
        match c.dic {
            Some(d) => Some("DI\u{10c} "@ + d@),
            None => None,
        },
    ) + opt_part(
        match c.web {
            Some(w) => Some(w@),
            None => None,
        },
    ) + opt_part(
        match c.email {
            Some(e) => Some(e@),
            None => None,
        },
    )
}

/// The company line of a branded footer: address, `IČ`, `DIČ`, web and
/// e-mail, those present, joined by middle dots.
pub fn company_line(c: &Company) -> (r: String)
    ensures
        r@ == join(company_parts(*c), middle_dot()),
{
    let mut parts: Vec<String> = Vec::new();
    if let Some(a) = &c.address {
        parts.push(a.clone());
    }
    if let Some(i) = &c.ico {
        let mut t = String::new();
        append(&mut t, "I\u{10c} ");
        append(&mut t, i.as_str());
        parts.push(t);
    }
    if let Some(d) = &c.dic {
        let mut t = String::new();
        append(&mut t, "DI\u{10c} ");
        append(&mut t, d.as_str());
        parts.push(t);
    }
    if let Some(w) = &c.web {
        parts.push(w.clone());
    }
    if let Some(e) = &c.email {
        parts.push(e.clone());
    }
    assert(views(parts@) =~= company_parts(*c));
    join_strings(&parts, " \u{b7} ")
}

// ---------------------------------------------------------------------------
// CSS variables

pub open spec fn vars_css_spec(serif: Seq<char>, sans: Seq<char>, mono: Seq<char>) -> Seq<char> {
    ":root{--font-serif:'"@ + serif
        + "','Libertinus Serif',Georgia,'Times New Roman',serif;--font-sans:'"@ + sans
        + "','Libertinus Sans','Segoe UI',Arial,sans-serif;--font-mono:'"@ + mono
        + "','JetBrains Mono',Consolas,monospace;}\n"@
}

/// CSS variables with the font stacks; the primary families come from
/// `[fonts]` in mdprint.toml (the embedded fonts stay as fallbacks).
pub fn vars_css(cfg: &Config) -> (r: String)
    ensures
        r@ == vars_css_spec(cfg.font_serif@, cfg.font_sans@, cfg.font_mono@),
{
    let mut s = String::new();
    append(&mut s, ":root{--font-serif:'");
    append(&mut s, cfg.font_serif.as_str());
    append(&mut s, "','Libertinus Serif',Georgia,'Times New Roman',serif;--font-sans:'");
    append(&mut s, cfg.font_sans.as_str());
    append(&mut s, "','Libertinus Sans','Segoe UI',Arial,sans-serif;--font-mono:'");
    append(&mut s, cfg.font_mono.as_str());
    append(&mut s, "','JetBrains Mono',Consolas,monospace;}\n");
    s
}

// ---------------------------------------------------------------------------
// Figures

/// State of the figure numbering while the body is rendered.
pub struct RenderState {
    pub figure_prefix: String,
    pub figure_numbering: bool,
    pub figures: usize,
}

impl Default for RenderState {
    /// No prefix, no numbering, no figure counted yet.
    fn default() -> (r: RenderState)
        ensures
            r.figure_prefix@ == Seq::<char>::empty(),
            !r.figure_numbering,
            r.figures == 0,
    {
        RenderState { figure_prefix: String::new(), figure_numbering: false, figures: 0 }
    }
}

impl RenderState {
    pub fn new(cfg: &Config) -> (r: RenderState)
        ensures
            r.figure_prefix == cfg.figure_prefix,
            r.figure_numbering == cfg.figure_numbering,
            r.figures == 0,
    {
        RenderState {
            figure_prefix: cfg.figure_prefix.clone(),
            figure_numbering: cfg.figure_numbering,
            figures: 0,
        }
    }

    /// Counts a figure and gives its caption label (`Obr. 3:`), when figures
    /// are numbered.
    pub fn next_figure(&mut self) -> (label: Option<String>)
        requires
            old(self).figures < usize::MAX,
        ensures
            final(self).figures == old(self).figures + 1,
            final(self).figure_prefix == old(self).figure_prefix,
            final(self).figure_numbering == old(self).figure_numbering,
            match label {
                Some(l) => old(self).figure_numbering && l@ == old(self).figure_prefix@ + " "@
                    + decimal(final(self).figures as nat) + ":"@,
                None => !old(self).figure_numbering,
            },
    {
        self.figures = self.figures + 1;
        if self.figure_numbering {
            let mut l = String::new();
            append(&mut l, self.figure_prefix.as_str());
            append(&mut l, " ");
            let d = from_chars(&decimal_chars(self.figures as u64));
            append(&mut l, d.as_str());
            append(&mut l, ":");
            Some(l)
        } else {
            None
        }
    }
}


// ---------------------------------------------------------------------------
// Table of contents

/// Escapes the text of a contents entry (`&`, `<`, `>`).
pub open spec fn escape_toc_char(c: char) -> Seq<char> {
    if c == '&' {
        "&amp;"@
    } else if c == '<' {
        "&lt;"@
    } else if c == '>' {
        "&gt;"@
    } else {
        seq![c]
    }
}

pub open spec fn escape_toc(t: Seq<char>) -> Seq<char>
    decreases t.len(),
{
    if t.len() == 0 {
        Seq::empty()
    } else {
        escape_toc(t.drop_last()) + escape_toc_char(t.last())
    }
}

pub fn escape_toc_text(t: &str) -> (r: String)
    ensures
        r@ == escape_toc(t@),
{
    let v = to_chars(t);
    let mut out = String::new();
    let mut i: usize = 0;
    while i < v.len()
        invariant
            i <= v.len(),
            v@ == t@,
            out@ == escape_toc(v@.take(i as int)),
        decreases v.len() - i,
    {
        let c = v[i];
        if c == '&' {
            append(&mut out, "&amp;");
        } else if c == '<' {
            append(&mut out, "&lt;");
        } else if c == '>' {
            append(&mut out, "&gt;");
        } else {
            string_push(&mut out, c);
        }
        assert(v@.take(i + 1).drop_last() == v@.take(i as int));
        i = i + 1;
    }
    assert(v@.take(v.len() as int) == v@);
    out
}

/// One entry of the contents: level, anchor id and text.
pub type TocSpecEntry = (nat, Seq<char>, Seq<char>);

pub open spec fn toc_item(e: TocSpecEntry) -> Seq<char> {
    "<li><a href=\"#"@ + e.1 + "\">"@ + escape_toc(e.2) + "</a>\n"@
}

pub open spec fn min_level(es: Seq<TocSpecEntry>) -> nat
    decreases es.len(),
{
    if es.len() == 0 {
        0
    } else if es.len() == 1 {
        es[0].0
    } else {
        let m = min_level(es.drop_last());
        if es.last().0 < m {
            es.last().0
        } else {
            m
        }
    }
}

/// The list depth of an entry: its level above the shallowest one, plus one.
pub open spec fn toc_target(level: nat, base: nat) -> nat {
    if level >= base {
        (level - base + 1) as nat
    } else {
        1
    }
}

pub open spec fn toc_open() -> Seq<char> {
    "<ol>\n"@
}

pub open spec fn toc_close() -> Seq<char> {
    "</li>\n</ol>\n"@
}

/// The nested lists from entry `i` on, at list depth `depth`: a deeper entry
/// opens a list for every level it goes down; a shallower one closes lists
/// (each with an item); an entry at the same depth closes the previous item.
pub open spec fn toc_body(es: Seq<TocSpecEntry>, i: nat, depth: nat, base: nat) -> Seq<char>
    decreases es.len() - i,
{
    if i >= es.len() {
        repeat(toc_close(), depth)
    } else {
        let target = toc_target(es[i as int].0, base);
        let step = if depth < target {
            repeat(toc_open(), (target - depth) as nat)
        } else {
            repeat(toc_close(), (depth - target) as nat) + "</li>\n"@
        };
        step + toc_item(es[i as int]) + toc_body(es, i + 1, target, base)
    }
}

/// No entry from `i` on lies more than one level below the entry before it
/// (the one before `i` standing at list depth `depth`).
pub open spec fn toc_steps_from(es: Seq<TocSpecEntry>, i: nat, depth: nat, base: nat) -> bool {
    forall|j: int|
        i <= j < es.len() ==> toc_target(#[trigger] es[j].0, base) <= (if j == i {
            depth as int
        } else {
            toc_target(es[j - 1].0, base) as int
        }) + 1
}

/// The contents skip no level: the first entry is at the shallowest level
/// and none lies more than one level below the entry before it.
pub open spec fn toc_without_jumps(es: Seq<TocSpecEntry>) -> bool {
    toc_steps_from(es, 0, 0, min_level(es))
}

pub open spec fn toc_head(lang: Lang) -> Seq<char> {
    "<nav class=\"toc\">\n<h2 class=\"toc-title\">"@ + toc_title_spec(lang) + "</h2>\n"@
}

/// The contents as nested `<ol>` lists; none when there are no entries.
pub open spec fn toc_html_spec(es: Seq<TocSpecEntry>, lang: Lang) -> Option<Seq<char>> {
    if es.len() == 0 {
        None
    } else {
        Some(toc_head(lang) + toc_body(es, 0, 0, min_level(es)) + "</nav>\n"@)
    }
}

// ---------------------------------------------------------------------------
// Balance of the contents

/// What the start of `s` does to the lists of kind `xy`: `<xy` opens one,
/// `</xy` closes one (`li` for items, `ol` for lists).
pub open spec fn list_mark(s: Seq<char>, x: char, y: char) -> int {
    if s.len() > 2 && s[0] == '<' && s[1] == x && s[2] == y {
        1
    } else if s.len() > 3 && s[0] == '<' && s[1] == '/' && s[2] == x && s[3] == y {
        -1
    } else {
        0
    }
}

/// Opening minus closing tags of kind `xy` in `s`.
pub open spec fn list_balance(s: Seq<char>, x: char, y: char) -> int
    decreases s.len(),
{
    if s.len() == 0 {
        0
    } else {
        list_mark(s, x, y) + list_balance(s.drop_first(), x, y)
    }
}

/// No tag starts among the last three characters of `s`.
pub open spec fn tail_ok(s: Seq<char>) -> bool {
    forall|k: int| 0 <= k < s.len() && s.len() - 3 <= k ==> s[k] != '<'
}

pub open spec fn no_lt(s: Seq<char>) -> bool {
    forall|k: int| 0 <= k < s.len() ==> s[k] != '<'
}

proof fn lemma_list_balance_add(a: Seq<char>, b: Seq<char>, x: char, y: char)
    requires
        tail_ok(a),
        x != '/',
    ensures
        list_balance(a + b, x, y) == list_balance(a, x, y) + list_balance(b, x, y),
    decreases a.len(),
{
    if a.len() == 0 {
        assert(a + b =~= b);
    } else {
        assert((a + b).drop_first() =~= a.drop_first() + b);
        if a.len() >= 4 {
            assert((a + b)[1] == a[1] && (a + b)[2] == a[2] && (a + b)[3] == a[3]);
        } else {
            assert(a[0] != '<');
        }
        assert forall|k: int|
            0 <= k < a.drop_first().len() && a.drop_first().len() - 3 <= k implies a.drop_first()[k]
            != '<' by {
            assert(a.drop_first()[k] == a[k + 1]);
        }
        lemma_list_balance_add(a.drop_first(), b, x, y);
    }
}

proof fn lemma_no_lt_balance(s: Seq<char>, x: char, y: char)
    requires
        no_lt(s),
    ensures
        list_balance(s, x, y) == 0,
        tail_ok(s),
    decreases s.len(),
{
    if s.len() > 0 {
        assert forall|k: int| 0 <= k < s.drop_first().len() implies s.drop_first()[k] != '<' by {
            assert(s.drop_first()[k] == s[k + 1]);
        }
        lemma_no_lt_balance(s.drop_first(), x, y);
    }
}

proof fn lemma_single_tag(t: Seq<char>, x: char, y: char)
    requires
        t.len() >= 4,
        t[0] == '<',
        forall|k: int| 1 <= k < t.len() ==> t[k] != '<',
    ensures
        list_balance(t, x, y) == list_mark(t, x, y),
        tail_ok(t),
{
    assert forall|k: int| 0 <= k < t.drop_first().len() implies t.drop_first()[k] != '<' by {
        assert(t.drop_first()[k] == t[k + 1]);
    }
    lemma_no_lt_balance(t.drop_first(), x, y);
}

proof fn lemma_tail_ok_add(a: Seq<char>, b: Seq<char>)
    requires
        tail_ok(b),
        b.len() >= 3 || (b.len() == 0 && tail_ok(a)),
    ensures
        tail_ok(a + b),
{
    if b.len() == 0 {
        assert(a + b =~= a);
    } else {
        assert forall|k: int| 0 <= k < (a + b).len() && (a + b).len() - 3 <= k implies (a + b)[k]
            != '<' by {
            assert((a + b)[k] == b[k - a.len()]);
        }
    }
}

/// Both balances of the pieces the contents are made of.
proof fn lemma_toc_pieces()
    ensures
        list_balance(toc_open(), 'l', 'i') == 0 && list_balance(toc_open(), 'o', 'l') == 1,
        list_balance(toc_close(), 'l', 'i') == -1 && list_balance(toc_close(), 'o', 'l') == -1,
        list_balance("</li>\n"@, 'l', 'i') == -1 && list_balance("</li>\n"@, 'o', 'l') == 0,
        list_balance("</nav>\n"@, 'l', 'i') == 0 && list_balance("</nav>\n"@, 'o', 'l') == 0,
        tail_ok(toc_open()) && tail_ok(toc_close()) && tail_ok("</li>\n"@),
        toc_open().len() >= 3 && toc_close().len() >= 3 && "</li>\n"@.len() >= 3,
{
    reveal_strlit("<ol>\n");
    reveal_strlit("</li>\n");
    reveal_strlit("</ol>\n");
    reveal_strlit("</li>\n</ol>\n");
    reveal_strlit("</nav>\n");
    let o = "<ol>\n"@;
    let cl = "</li>\n"@;
    let co = "</ol>\n"@;
    let n = "</nav>\n"@;
    lemma_single_tag(o, 'l', 'i');
    lemma_single_tag(o, 'o', 'l');
    lemma_single_tag(cl, 'l', 'i');
    lemma_single_tag(cl, 'o', 'l');
    lemma_single_tag(co, 'l', 'i');
    lemma_single_tag(co, 'o', 'l');
    lemma_single_tag(n, 'l', 'i');
    lemma_single_tag(n, 'o', 'l');
    assert(toc_close() =~= cl + co);
    lemma_list_balance_add(cl, co, 'l', 'i');
    lemma_list_balance_add(cl, co, 'o', 'l');
    lemma_tail_ok_add(cl, co);
}

proof fn lemma_repeat_balance(w: Seq<char>, k: nat, x: char, y: char)
    requires
        tail_ok(w),
        w.len() >= 3,
        x != '/',
    ensures
        list_balance(repeat(w, k), x, y) == k * list_balance(w, x, y),
        tail_ok(repeat(w, k)),
        repeat(w, k).len() == 0 || repeat(w, k).len() >= 3,
    decreases k,
{
    if k > 0 {
        lemma_repeat_balance(w, (k - 1) as nat, x, y);
        lemma_list_balance_add(repeat(w, (k - 1) as nat), w, x, y);
        lemma_tail_ok_add(repeat(w, (k - 1) as nat), w);
        assert(k * list_balance(w, x, y) == (k - 1) * list_balance(w, x, y) + list_balance(w, x, y))
            by (nonlinear_arith);
    }
}

proof fn lemma_escape_toc_no_lt(t: Seq<char>)
    ensures
        no_lt(escape_toc(t)),
    decreases t.len(),
{
    if t.len() > 0 {
        lemma_escape_toc_no_lt(t.drop_last());
        reveal_strlit("&amp;");
        reveal_strlit("&lt;");
        reveal_strlit("&gt;");
        let a = escape_toc(t.drop_last());
        let b = escape_toc_char(t.last());
        assert forall|k: int| 0 <= k < (a + b).len() implies (a + b)[k] != '<' by {
            if k >= a.len() {
                assert((a + b)[k] == b[k - a.len()]);
            }
        }
    }
}

/// An item opens one `li` and no list; its anchor holds no `<`.
proof fn lemma_toc_item(e: TocSpecEntry)
    requires
        no_lt(e.1),
    ensures
        list_balance(toc_item(e), 'l', 'i') == 1,
        list_balance(toc_item(e), 'o', 'l') == 0,
        tail_ok(toc_item(e)),
        toc_item(e).len() >= 3,
{
    reveal_strlit("<li><a href=\"#");
    reveal_strlit("<li>");
    reveal_strlit("<a href=\"#");
    reveal_strlit("\">");
    reveal_strlit("</a>\n");
    let p1 = "<li>"@;
    let p2 = "<a href=\"#"@;
    let p3 = "\">"@;
    let p5 = "</a>\n"@;
    let esc = escape_toc(e.2);
    lemma_escape_toc_no_lt(e.2);
    assert("<li><a href=\"#"@ =~= p1 + p2);
    assert(toc_item(e) =~= p1 + p2 + e.1 + p3 + esc + p5);
    assert(no_lt(p3));
    lemma_single_tag(p1, 'l', 'i');
    lemma_single_tag(p1, 'o', 'l');
    lemma_single_tag(p2, 'l', 'i');
    lemma_single_tag(p2, 'o', 'l');
    lemma_single_tag(p5, 'l', 'i');
    lemma_single_tag(p5, 'o', 'l');
    lemma_no_lt_balance(e.1, 'l', 'i');
    lemma_no_lt_balance(e.1, 'o', 'l');
    lemma_no_lt_balance(p3, 'l', 'i');
    lemma_no_lt_balance(p3, 'o', 'l');
    lemma_no_lt_balance(esc, 'l', 'i');
    lemma_no_lt_balance(esc, 'o', 'l');
    // p1 + p2 + id + p3 + esc + p5, added from the left
    lemma_list_balance_add(p1, p2, 'l', 'i');
    lemma_list_balance_add(p1, p2, 'o', 'l');
    lemma_tail_ok_add(p1, p2);
    let a2 = p1 + p2;
    lemma_list_balance_add(a2, e.1, 'l', 'i');
    lemma_list_balance_add(a2, e.1, 'o', 'l');
    let a3 = a2 + e.1;
    assert(tail_ok(a3)) by {
        assert forall|k: int| 0 <= k < a3.len() && a3.len() - 3 <= k implies a3[k] != '<' by {
            if k >= a2.len() {
                assert(a3[k] == e.1[k - a2.len()]);
            } else {
                assert(a3[k] == a2[k]);
            }
        }
    }
    lemma_list_balance_add(a3, p3, 'l', 'i');
    lemma_list_balance_add(a3, p3, 'o', 'l');
    let a4 = a3 + p3;
    assert(tail_ok(a4)) by {
        assert forall|k: int| 0 <= k < a4.len() && a4.len() - 3 <= k implies a4[k] != '<' by {
            if k >= a3.len() {
                assert(a4[k] == p3[k - a3.len()]);
            } else {
                assert(a4[k] == a3[k]);
            }
        }
    }
    lemma_list_balance_add(a4, esc, 'l', 'i');
    lemma_list_balance_add(a4, esc, 'o', 'l');
    let a5 = a4 + esc;
    assert(tail_ok(a5)) by {
        assert forall|k: int| 0 <= k < a5.len() && a5.len() - 3 <= k implies a5[k] != '<' by {
            if k >= a4.len() {
                assert(a5[k] == esc[k - a4.len()]);
            } else {
                assert(a5[k] == a4[k]);
            }
        }
    }
    lemma_list_balance_add(a5, p5, 'l', 'i');
    lemma_list_balance_add(a5, p5, 'o', 'l');
    lemma_tail_ok_add(a5, p5);
}

/// The lists from entry `i` on close every list that is open at depth
/// `depth`, and all that they open themselves; so with every item, where
/// no entry skips a level.
proof fn lemma_toc_body_balance(es: Seq<TocSpecEntry>, i: nat, depth: nat, base: nat)
    requires
        forall|j: int| 0 <= j < es.len() ==> no_lt(#[trigger] es[j].1),
    ensures
        list_balance(toc_body(es, i, depth, base), 'o', 'l') == -(depth as int),
        toc_steps_from(es, i, depth, base) ==> list_balance(toc_body(es, i, depth, base), 'l', 'i')
            == -(depth as int),
        tail_ok(toc_body(es, i, depth, base)),
        toc_body(es, i, depth, base).len() == 0 || toc_body(es, i, depth, base).len() >= 3,
    decreases es.len() - i,
{
    lemma_toc_pieces();
    if i >= es.len() {
        lemma_repeat_balance(toc_close(), depth, 'l', 'i');
        lemma_repeat_balance(toc_close(), depth, 'o', 'l');
    } else {
        let target = toc_target(es[i as int].0, base);
        lemma_toc_body_balance(es, i + 1, target, base);
        lemma_toc_item(es[i as int]);
        let item = toc_item(es[i as int]);
        let rest = toc_body(es, i + 1, target, base);
        let step = if depth < target {
            repeat(toc_open(), (target - depth) as nat)
        } else {
            repeat(toc_close(), (depth - target) as nat) + "</li>\n"@
        };
        if depth < target {
            lemma_repeat_balance(toc_open(), (target - depth) as nat, 'l', 'i');
            lemma_repeat_balance(toc_open(), (target - depth) as nat, 'o', 'l');
        } else {
            lemma_repeat_balance(toc_close(), (depth - target) as nat, 'l', 'i');
            lemma_repeat_balance(toc_close(), (depth - target) as nat, 'o', 'l');
            lemma_list_balance_add(repeat(toc_close(), (depth - target) as nat), "</li>\n"@, 'l', 'i');
            lemma_list_balance_add(repeat(toc_close(), (depth - target) as nat), "</li>\n"@, 'o', 'l');
            lemma_tail_ok_add(repeat(toc_close(), (depth - target) as nat), "</li>\n"@);
        }
        lemma_list_balance_add(step, item, 'l', 'i');
        lemma_list_balance_add(step, item, 'o', 'l');
        lemma_tail_ok_add(step, item);
        lemma_list_balance_add(step + item, rest, 'l', 'i');
        lemma_list_balance_add(step + item, rest, 'o', 'l');
        lemma_tail_ok_add(step + item, rest);
        assert(toc_body(es, i, depth, base) == step + item + rest);
        if toc_steps_from(es, i, depth, base) {
            assert(toc_target(es[i as int].0, base) <= depth + 1);
            assert forall|j: int| (i + 1) as nat <= j < es.len() implies toc_target(
                #[trigger] es[j].0,
                base,
            ) <= (if j == (i + 1) as nat {
                target as int
            } else {
                toc_target(es[j - 1].0, base) as int
            }) + 1 by {
                assert(i <= j < es.len());
            }
            assert(toc_steps_from(es, i + 1, target, base));
        }
    }
}

/// The lists of the contents are balanced: as many `<ol>` as `</ol>`; and
/// as many `<li>` as `</li>` where no entry skips a level (a skipped level
/// opens a list with no item of its own). Both whenever no anchor holds a
/// `<`.
pub proof fn lemma_toc_balanced(es: Seq<TocSpecEntry>, lang: Lang)
    requires
        forall|j: int| 0 <= j < es.len() ==> no_lt(#[trigger] es[j].1),
    ensures
        toc_html_spec(es, lang) matches Some(h) ==> list_balance(h, 'o', 'l') == 0,
        toc_html_spec(es, lang) matches Some(h) ==> (toc_without_jumps(es) ==> list_balance(
            h,
            'l',
            'i',
        ) == 0),
{
    if es.len() > 0 {
        lemma_toc_pieces();
        lemma_toc_body_balance(es, 0, 0, min_level(es));
        let body = toc_body(es, 0, 0, min_level(es));
        reveal_strlit("<nav class=\"toc\">\n<h2 class=\"toc-title\">");
        reveal_strlit("<nav class=\"toc\">\n");
        reveal_strlit("<h2 class=\"toc-title\">");
        reveal_strlit("</h2>\n");
        reveal_strlit("Obsah");
        reveal_strlit("Contents");
        reveal_strlit("Inhalt");
        let h1 = "<nav class=\"toc\">\n"@;
        let h2 = "<h2 class=\"toc-title\">"@;
        let h4 = "</h2>\n"@;
        let title = toc_title_spec(lang);
        assert(no_lt(title));
        assert("<nav class=\"toc\">\n<h2 class=\"toc-title\">"@ =~= h1 + h2);
        assert(toc_head(lang) =~= h1 + h2 + title + h4);
        lemma_single_tag(h1, 'l', 'i');
        lemma_single_tag(h1, 'o', 'l');
        lemma_single_tag(h2, 'l', 'i');
        lemma_single_tag(h2, 'o', 'l');
        lemma_single_tag(h4, 'l', 'i');
        lemma_single_tag(h4, 'o', 'l');
        lemma_no_lt_balance(title, 'l', 'i');
        lemma_no_lt_balance(title, 'o', 'l');
        lemma_list_balance_add(h1, h2, 'l', 'i');
        lemma_list_balance_add(h1, h2, 'o', 'l');
        lemma_tail_ok_add(h1, h2);
        let a = h1 + h2;
        lemma_list_balance_add(a, title, 'l', 'i');
        lemma_list_balance_add(a, title, 'o', 'l');
        let b = a + title;
        assert(tail_ok(b)) by {
            assert forall|k: int| 0 <= k < b.len() && b.len() - 3 <= k implies b[k] != '<' by {
                if k >= a.len() {
                    assert(b[k] == title[k - a.len()]);
                } else {
                    assert(b[k] == a[k]);
                }
            }
        }
        lemma_list_balance_add(b, h4, 'l', 'i');
        lemma_list_balance_add(b, h4, 'o', 'l');
        lemma_tail_ok_add(b, h4);
        let head = b + h4;
        lemma_list_balance_add(head, body, 'l', 'i');
        lemma_list_balance_add(head, body, 'o', 'l');
        lemma_tail_ok_add(head, body);
        lemma_list_balance_add(head + body, "</nav>\n"@, 'l', 'i');
        lemma_list_balance_add(head + body, "</nav>\n"@, 'o', 'l');
        assert(toc_html_spec(es, lang) == Some(head + body + "</nav>\n"@));
    }
}

/// An entry of the contents.
pub struct TocEntry {
    pub level: u8,
    pub id: String,
    pub text: String,
}

pub open spec fn toc_entry_view(e: TocEntry) -> TocSpecEntry {
    (e.level as nat, e.id@, e.text@)
}

pub open spec fn toc_entries_view(es: Seq<TocEntry>) -> Seq<TocSpecEntry> {
    Seq::new(es.len(), |i: int| toc_entry_view(es[i]))
}

fn min_level_exec(es: &Vec<TocEntry>) -> (m: u8)
    ensures
        m as nat == min_level(toc_entries_view(es@)),
{
    let mut m: u8 = 0;
    let mut i: usize = 0;
    while i < es.len()
        invariant
            i <= es.len(),
            m as nat == min_level(toc_entries_view(es@).take(i as int)),
        decreases es.len() - i,
    {
        let ghost v = toc_entries_view(es@);
        assert(v.take(i + 1).drop_last() == v.take(i as int));
        if i == 0 || es[i].level < m {
            m = es[i].level;
        }
        i = i + 1;
    }
    assert(toc_entries_view(es@).take(es.len() as int) == toc_entries_view(es@));
    m
}

/// Contents (`--toc`): nested `<ol>` lists linking each entry to its anchor.
pub fn toc_html(entries: &Vec<TocEntry>, lang: Lang) -> (r: Option<String>)
    ensures
        match r {
            Some(h) => toc_html_spec(toc_entries_view(entries@), lang) == Some(h@),
            None => toc_html_spec(toc_entries_view(entries@), lang) is None,
        },
        (forall|j: int| 0 <= j < entries@.len() ==> no_lt(#[trigger] entries@[j].id@)) ==> (r matches Some(
            h,
        ) ==> list_balance(h@, 'o', 'l') == 0 && (toc_without_jumps(toc_entries_view(entries@))
            ==> list_balance(h@, 'l', 'i') == 0)),
{
    proof {
        if forall|j: int| 0 <= j < entries@.len() ==> no_lt(#[trigger] entries@[j].id@) {
            let es = toc_entries_view(entries@);
            assert forall|j: int| 0 <= j < es.len() implies no_lt(#[trigger] es[j].1) by {
                assert(es[j].1 == entries@[j].id@);
            }
            lemma_toc_balanced(es, lang);
        }
    }
    if entries.len() == 0 {
        return None;
    }
    let ghost es = toc_entries_view(entries@);
    let base = min_level_exec(entries) as usize;
    let mut html = String::new();
    append(&mut html, "<nav class=\"toc\">\n<h2 class=\"toc-title\">");
    append(&mut html, toc_title(lang));
    append(&mut html, "</h2>\n");
    let ghost head = html@;
    let mut depth: usize = 0;
    let mut i: usize = 0;
    while i < entries.len()
        invariant
            i <= entries.len(),
            es == toc_entries_view(entries@),
            base == min_level(es),
            depth <= 256,
            head == toc_head(lang),
            html@ + toc_body(es, i as nat, depth as nat, base as nat) == head + toc_body(
                es,
                0,
                0,
                base as nat,
            ),
        decreases entries.len() - i,
    {
        let level = entries[i].level as usize;
        let target: usize = if level >= base {
            level - base + 1
        } else {
            1
        };
        assert(target == toc_target(es[i as int].0, base as nat));
        let ghost before = html@;
        if depth < target {
            append_repeat(&mut html, "<ol>\n", target - depth);
        } else {
            append_repeat(&mut html, "</li>\n</ol>\n", depth - target);
            append(&mut html, "</li>\n");
        }
        append(&mut html, "<li><a href=\"#");
        append(&mut html, entries[i].id.as_str());
        append(&mut html, "\">");
        let esc = escape_toc_text(entries[i].text.as_str());
        append(&mut html, esc.as_str());
        append(&mut html, "</a>\n");
        assert(html@ == before + (if depth < target {
            repeat(toc_open(), (target - depth) as nat)
        } else {
            repeat(toc_close(), (depth - target) as nat) + "</li>\n"@
        }) + toc_item(es[i as int]));
        depth = target;
        i = i + 1;
    }
    append_repeat(&mut html, "</li>\n</ol>\n", depth);
    append(&mut html, "</nav>\n");
    Some(html)
}

#[verifier::external_type_specification]
#[verifier::external_body]
pub struct ExAnchorizer(comrak::Anchorizer);

/// The anchors an anchorizer has handed out so far.
pub uninterp spec fn anchor_ids(a: comrak::Anchorizer) -> Set<Seq<char>>;

/// The GFM slug of a heading text: lowercase, only letters, marks, numbers,
/// connector punctuation, spaces (as `-`) and hyphens.
pub uninterp spec fn anchorize_base(header: Seq<char>) -> Seq<char>;

/// The slug, or the slug with a numeric suffix `-N` that makes it unique.
pub open spec fn anchor_candidate(base: Seq<char>, u: nat) -> Seq<char> {
    if u == 0 {
        base
    } else {
        base + seq!['-'] + decimal(u)
    }
}

/// `id` is the slug of `text`, with or without a numeric suffix.
pub open spec fn is_anchor_for(id: Seq<char>, text: Seq<char>) -> bool {
    exists|u: nat| id == anchor_candidate(anchorize_base(text), u)
}

/// `comrak::Anchorizer::new`: an anchorizer that has handed out nothing.
#[verifier::external_body]
fn new_anchorizer() -> (a: comrak::Anchorizer)
    ensures
        anchor_ids(a) == Set::<Seq<char>>::empty(),
{
    comrak::Anchorizer::new()
}

/// The suffix `u` is the first free one for `base`: its candidate is not
/// handed out, every earlier candidate is.
pub open spec fn is_first_free(base: Seq<char>, ids: Set<Seq<char>>, u: nat) -> bool {
    &&& !ids.contains(anchor_candidate(base, u))
    &&& forall|v: nat| v < u ==> ids.contains(#[trigger] anchor_candidate(base, v))
}

/// `comrak::Anchorizer::anchorize`: the slug of `header`, or, when that is
/// taken, the slug suffixed with the first `-N` (N = 1, 2, …) not handed out
/// yet; afterwards it counts as handed out. A slug keeps only letters,
/// marks, numbers, connector punctuation, `-` and spaces (as `-`), so it
/// holds no `<`. The anchorizer's counter per
/// slug never passes a free suffix, as its source shows, so the first free
/// one is the one chosen.
#[verifier::external_body]
fn anchorize(a: &mut comrak::Anchorizer, header: &str) -> (r: String)
    ensures
        !anchor_ids(*old(a)).contains(r@),
        anchor_ids(*final(a)) == anchor_ids(*old(a)).insert(r@),
        no_lt(r@),
        exists|u: nat|
            is_first_free(anchorize_base(header@), anchor_ids(*old(a)), u) && r@ == anchor_candidate(
                anchorize_base(header@),
                u,
            ),
{
    a.anchorize(header)
}

/// The anchor that a heading with text `text` gets when the anchors `ids`
/// are handed out already.
pub open spec fn next_anchor(text: Seq<char>, ids: Set<Seq<char>>) -> Seq<char> {
    let base = anchorize_base(text);
    anchor_candidate(base, choose|u: nat| is_first_free(base, ids, u))
}

/// The anchors of the headings, given in document order as the renderer
/// gives them.
pub open spec fn anchor_seq(hs: Seq<Heading>) -> Seq<Seq<char>>
    decreases hs.len(),
{
    if hs.len() == 0 {
        Seq::empty()
    } else {
        let before = anchor_seq(hs.drop_last());
        before.push(next_anchor(hs.last().text@, before.to_set()))
    }
}

proof fn lemma_first_free_unique(base: Seq<char>, ids: Set<Seq<char>>, u: nat, w: nat)
    requires
        is_first_free(base, ids, u),
        is_first_free(base, ids, w),
    ensures
        u == w,
{
    if u < w {
        assert(ids.contains(anchor_candidate(base, u)));
    } else if w < u {
        assert(ids.contains(anchor_candidate(base, w)));
    }
}

/// The anchors given to the headings: one per heading, all different, each
/// the heading's slug with or without a numeric suffix.
pub open spec fn valid_anchors(hs: Seq<Heading>, ids: Seq<Seq<char>>) -> bool {
    &&& ids.len() == hs.len()
    &&& forall|i: int, j: int| 0 <= i < j < ids.len() ==> ids[i] != ids[j]
    &&& forall|i: int| 0 <= i < ids.len() ==> is_anchor_for(#[trigger] ids[i], hs[i].text@)
}

/// The headings of levels 1–3, with their anchors, in document order.
pub open spec fn toc_entries_of(hs: Seq<Heading>, ids: Seq<Seq<char>>) -> Seq<TocSpecEntry>
    decreases hs.len(),
{
    if hs.len() == 0 || ids.len() == 0 {
        Seq::empty()
    } else {
        let rest = toc_entries_of(hs.drop_last(), ids.drop_last());
        if hs.last().level <= 3 {
            rest.push((hs.last().level as nat, ids.last(), hs.last().text@))
        } else {
            rest
        }
    }
}

pub open spec fn has_toc_heading(hs: Seq<Heading>) -> bool {
    exists|i: int| 0 <= i < hs.len() && #[trigger] hs[i].level <= 3
}

proof fn lemma_toc_entries_empty(hs: Seq<Heading>, ids: Seq<Seq<char>>)
    requires
        ids.len() == hs.len(),
    ensures
        (toc_entries_of(hs, ids).len() == 0) == !has_toc_heading(hs),
    decreases hs.len(),
{
    if hs.len() > 0 {
        lemma_toc_entries_empty(hs.drop_last(), ids.drop_last());
        if has_toc_heading(hs.drop_last()) {
            let i = choose|i: int| 0 <= i < hs.drop_last().len() && #[trigger] hs.drop_last()[i].level <= 3;
            assert(hs[i].level <= 3);
        }
        if has_toc_heading(hs) && hs.last().level > 3 {
            let i = choose|i: int| 0 <= i < hs.len() && #[trigger] hs[i].level <= 3;
            assert(hs.drop_last()[i].level <= 3);
        }
    }
}

/// Contents (`--toc`): nested `<ol>` lists of the headings of levels 1–3.
/// Every heading of `headings` (all of the document, in order) is given its
/// anchor in turn, exactly as the HTML renderer gives them ids, so that the
/// links meet the ids even where equal headings were told apart.
pub fn build_toc(headings: &Vec<Heading>, lang: Lang) -> (r: Option<String>)
    ensures
        r is None <==> !has_toc_heading(headings@),
        valid_anchors(headings@, anchor_seq(headings@)),
        match r {
            Some(h) => toc_html_spec(toc_entries_of(headings@, anchor_seq(headings@)), lang) == Some(
                h@,
            ),
            None => true,
        },
        r matches Some(h) ==> list_balance(h@, 'o', 'l') == 0,
        r matches Some(h) ==> (toc_without_jumps(toc_entries_of(headings@, anchor_seq(headings@)))
            ==> list_balance(h@, 'l', 'i') == 0),
{
    let mut anchorizer = new_anchorizer();
    let mut entries: Vec<TocEntry> = Vec::new();
    let ghost mut ids: Seq<Seq<char>> = Seq::empty();
    assert(headings@.take(0) =~= Seq::<Heading>::empty());
    assert(ids.to_set() =~= Set::<Seq<char>>::empty());
    let mut i: usize = 0;
    while i < headings.len()
        invariant
            i <= headings.len(),
            ids.len() == i,
            valid_anchors(headings@.take(i as int), ids),
            forall|k: int| 0 <= k < i ==> anchor_ids(anchorizer).contains(#[trigger] ids[k]),
            toc_entries_view(entries@) == toc_entries_of(headings@.take(i as int), ids),
            ids == anchor_seq(headings@.take(i as int)),
            anchor_ids(anchorizer) == ids.to_set(),
            forall|k: int| 0 <= k < entries@.len() ==> no_lt(#[trigger] entries@[k].id@),
        decreases headings.len() - i,
    {
        let ghost old_ids = anchor_ids(anchorizer);
        let id = anchorize(&mut anchorizer, headings[i].text.as_str());
        assert(is_anchor_for(id@, headings@[i as int].text@));
        let ghost hs = headings@.take(i + 1);
        assert(hs.drop_last() == headings@.take(i as int));
        proof {
            let new_ids = ids.push(id@);
            assert(new_ids.drop_last() == ids);
            let base = anchorize_base(headings@[i as int].text@);
            let u = choose|u: nat| is_first_free(base, old_ids, u) && id@ == anchor_candidate(base, u);
            let w = choose|w: nat| is_first_free(base, old_ids, w);
            lemma_first_free_unique(base, old_ids, u, w);
            assert(hs.last() == headings@[i as int]);
            assert(anchor_seq(hs) == new_ids);
            ids.lemma_push_to_set_commute(id@);
            assert forall|a: int, b: int| 0 <= a < b < new_ids.len() implies new_ids[a]
                != new_ids[b] by {
                if b == ids.len() {
                    assert(old_ids.contains(ids[a]));
                }
            }
            assert forall|k: int| 0 <= k < new_ids.len() implies is_anchor_for(
                #[trigger] new_ids[k],
                hs[k].text@,
            ) by {
                if k < ids.len() {
                    assert(hs[k] == headings@.take(i as int)[k]);
                    assert(new_ids[k] == ids[k]);
                } else {
                    assert(hs[k] == headings@[i as int]);
                }
            }
            assert(valid_anchors(hs, new_ids));
            ids = new_ids;
        }
        if headings[i].level <= 3 {
            let ghost before = toc_entries_view(entries@);
            entries.push(
                TocEntry { level: headings[i].level, id, text: headings[i].text.clone() },
            );
            assert(toc_entries_view(entries@) =~= before.push(
                (headings@[i as int].level as nat, ids.last(), headings@[i as int].text@),
            ));
        }
        i = i + 1;
    }
    assert(headings@.take(headings.len() as int) == headings@);
    proof {
        lemma_toc_entries_empty(headings@, ids);
        let es = toc_entries_view(entries@);
        assert forall|j: int| 0 <= j < es.len() implies no_lt(#[trigger] es[j].1) by {
            assert(es[j].1 == entries@[j].id@);
        }
        lemma_toc_balanced(es, lang);
    }
    toc_html(&entries, lang)
}

// ---------------------------------------------------------------------------
// The page

/// What the page template is filled with, besides the style sheets that
/// come with the program.
pub struct PageContext {
    pub lang: String,
    pub title: String,
    pub author: Option<String>,
    pub byline: Option<String>,
    /// The header is shown only when the front matter has a title.
    pub show_header: bool,
    /// A template pack is active.
    pub brand: bool,
    pub company_name: Option<String>,
    pub company_line: Option<String>,
    /// Logos of the pack as PNG data URIs.
    pub logo_light: Option<String>,
    pub logo_dark: Option<String>,
    pub pack_fonts_css: String,
    pub pack_css: String,
    pub toc: Option<String>,
    pub vars_css: String,
    pub body: String,
}

pub open spec fn opt_str(o: Option<String>) -> Option<Seq<char>> {
    match o {
        Some(t) => Some(t@),
        None => None,
    }
}

pub open spec fn logo_uri(o: Option<Vec<u8>>) -> Option<Seq<char>> {
    match o {
        Some(b) => Some(crate::assets::image_data_uri_spec("image/png"@, b@)),
        None => None,
    }
}

/// The company data of a branded page: the pack's defaults, overridden
/// field by field by `[company]` of mdprint.toml.
pub open spec fn page_company(cfg: &Config, pack: Option<&TemplatePack>) -> Option<Company> {
    match pack {
        Some(p) => Some(merged_company(p.company, cfg.company)),
        None => None,
    }
}

pub open spec fn page_context_ok(
    r: PageContext,
    title: Seq<char>,
    fm: Option<&FrontMatter>,
    cfg: &Config,
    pack: Option<&TemplatePack>,
    toc: Option<Seq<char>>,
    body: Seq<char>,
) -> bool {
    &&& r.lang@ == lang_code_spec(cfg.lang)
    &&& r.title@ == title
    &&& opt_str(r.author) == match fm {
        Some(f) => opt_str(f.author),
        None => None,
    }
    &&& opt_str(r.byline) == byline_spec(fm, cfg.lang)
    &&& r.show_header == (fm matches Some(f) && f.title is Some)
    &&& r.brand == pack is Some
    &&& opt_str(r.company_name) == match page_company(cfg, pack) {
        Some(c) => opt_str(c.name),
        None => None,
    }
    &&& opt_str(r.company_line) == match page_company(cfg, pack) {
        Some(c) => Some(join(company_parts(c), middle_dot())),
        None => None,
    }
    &&& opt_str(r.logo_light) == match pack {
        Some(p) => logo_uri(p.logo_light),
        None => None,
    }
    &&& opt_str(r.logo_dark) == match pack {
        Some(p) => logo_uri(p.logo_dark),
        None => None,
    }
    &&& r.pack_fonts_css@ == match pack {
        Some(p) => pack_fonts_css_spec(p.fonts@),
        None => Seq::empty(),
    }
    &&& r.pack_css@ == match pack {
        Some(p) => p.css@,
        None => Seq::empty(),
    }
    &&& opt_str(r.toc) == toc
    &&& r.vars_css@ == vars_css_spec(cfg.font_serif@, cfg.font_sans@, cfg.font_mono@)
    &&& r.body@ == body
}

fn copy_str(s: &str) -> (r: String)
    ensures
        r@ == s@,
{
    let mut t = String::new();
    append(&mut t, s);
    t
}

fn logo_data_uri(logo: &Option<Vec<u8>>) -> (r: Option<String>)
    ensures
        opt_str(r) == logo_uri(*logo),
{
    match logo {
        Some(b) => Some(crate::assets::png_data_uri(b.as_slice())),
        None => None,
    }
}

/// The values of the page template: language, title, byline, header and
/// branding (company, logos, the pack's fonts and CSS), contents, CSS
/// variables and body.
pub fn page_context(
    title: &str,
    front_matter: Option<&FrontMatter>,
    cfg: &Config,
    pack: Option<&TemplatePack>,
    toc: Option<&str>,
    body: &str,
) -> (r: PageContext)
    ensures
        page_context_ok(
            r,
            title@,
            front_matter,
            cfg,
            pack,
            match toc {
                Some(t) => Some(t@),
                None => None,
            },
            body@,
        ),
{
    let author = match front_matter {
        Some(fm) => match &fm.author {
            Some(a) => Some(a.clone()),
            None => None,
        },
        None => None,
    };
    let show_header = match front_matter {
        Some(fm) => fm.title.is_some(),
        None => false,
    };
    let (company_name, company_line_text, logo_light, logo_dark, pack_fonts, pack_css) = match pack {
        Some(p) => {
            let c = merge_company(&p.company, &cfg.company);
            let name = match &c.name {
                Some(n) => Some(n.clone()),
                None => None,
            };
            let line = company_line(&c);
            (
                name,
                Some(line),
                logo_data_uri(&p.logo_light),
                logo_data_uri(&p.logo_dark),
                p.fonts_css(),
                p.css.clone(),
            )
        },
        None => (None, None, None, None, String::new(), String::new()),
    };
    PageContext {
        lang: copy_str(lang_code(cfg.lang)),
        title: copy_str(title),
        author,
        byline: byline(front_matter, cfg.lang),
        show_header,
        brand: pack.is_some(),
        company_name,
        company_line: company_line_text,
        logo_light,
        logo_dark,
        pack_fonts_css: pack_fonts,
        pack_css,
        toc: match toc {
            Some(t) => Some(copy_str(t)),
            None => None,
        },
        vars_css: vars_css(cfg),
        body: copy_str(body),
    }
}

} // verus!

