//! Front matter and document titles, over plain values taken from the parsed
//! document.

use vstd::prelude::*;

use crate::cli::Lang;
use crate::text::{
    append,
    from_chars,
    seq_at,
    slice_chars,
    string_push,
    to_chars,
    trim,
    trim_end_chars,
    trim_start_chars,
    word_at,
};

verus! {

/// YAML header of a document; every field is optional.
#[derive(Debug)]
pub struct FrontMatter {
    pub title: Option<String>,
    pub author: Option<String>,
    pub date: Option<String>,
    pub lang: Option<Lang>,
    /// Document version (`version: "1.2"`); a bare YAML number is accepted
    /// too and kept as its text.
    pub version: Option<String>,
    /// Template: "default", or the path of a pack folder (relative to the
    /// input).
    pub template: Option<String>,
}

/// The raw front matter block without its `---` fences and surrounding
/// white space.
pub open spec fn strip_delimiters_spec(raw: Seq<char>) -> Seq<char> {
    let t = trim(raw);
    let dashes = seq!['-', '-', '-'];
    let b = if seq_at(t, 0, dashes) {
        t.subrange(3, t.len() as int)
    } else {
        t
    };
    let b = if b.len() >= 3 && seq_at(b, b.len() - 3, dashes) {
        b.subrange(0, b.len() - 3)
    } else {
        b
    };
    trim(b)
}

pub fn strip_delimiters(raw: &str) -> (r: String)
    ensures
        r@ == strip_delimiters_spec(raw@),
{
    let s = to_chars(raw);
    let n = s.len();
    let a = trim_start_chars(&s, 0, n);
    let b = trim_end_chars(&s, a, n);
    let ghost t = s@.subrange(a as int, b as int);
    assert(t == trim(raw@)) by {
        assert(s@.subrange(0, n as int) == s@);
    }
    let dashes: [char; 3] = ['-', '-', '-'];
    assert(dashes@ =~= seq!['-', '-', '-']);
    let mut from = a;
    let mut to = b;
    let pre = word_at(&s, a, &dashes) && a + 3 <= b;
    assert(pre == seq_at(t, 0, seq!['-', '-', '-'])) by {
        if seq_at(t, 0, seq!['-', '-', '-']) {
            assert(s@.subrange(a as int, a + 3) == t.subrange(0, 3));
        }
        if pre {
            assert(s@.subrange(a as int, a + 3) == t.subrange(0, 3));
        }
    }
    if pre {
        from = a + 3;
    }
    let ghost b1 = s@.subrange(from as int, to as int);
    assert(b1 == (if seq_at(t, 0, seq!['-', '-', '-']) {
        t.subrange(3, t.len() as int)
    } else {
        t
    }));
    let suf = to - from >= 3 && word_at(&s, to - 3, &dashes);
    assert(suf == (b1.len() >= 3 && seq_at(b1, b1.len() - 3, seq!['-', '-', '-']))) by {
        if b1.len() >= 3 {
            assert(s@.subrange(to - 3, to as int) == b1.subrange(b1.len() - 3, b1.len() as int));
        }
    }
    if suf {
        to = to - 3;
    }
    let ghost b2 = s@.subrange(from as int, to as int);
    assert(b2 == (if b1.len() >= 3 && seq_at(b1, b1.len() - 3, seq!['-', '-', '-']) {
        b1.subrange(0, b1.len() - 3)
    } else {
        b1
    }));
    let c = trim_start_chars(&s, from, to);
    let d = trim_end_chars(&s, c, to);
    let r = slice_chars(&s, c, d);
    from_chars(&r)
}

/// A piece of the content of a node, in document order: text, inline code,
/// a line break (soft or hard), or anything else.
pub enum TextPiece {
    Text(String),
    Code(String),
    Break,
    Other,
}

pub open spec fn piece_text(p: TextPiece) -> Seq<char> {
    match p {
        TextPiece::Text(t) => t@,
        TextPiece::Code(c) => c@,
        TextPiece::Break => seq![' '],
        TextPiece::Other => Seq::empty(),
    }
}

/// The plain text of a node: its text and inline code in order, a space for
/// each line break.
pub open spec fn collect_text_spec(pieces: Seq<TextPiece>) -> Seq<char>
    decreases pieces.len(),
{
    if pieces.len() == 0 {
        Seq::empty()
    } else {
        collect_text_spec(pieces.drop_last()) + piece_text(pieces.last())
    }
}

/// Plain text of a node and its descendants (for titles and captions).
pub fn collect_text(pieces: &Vec<TextPiece>) -> (r: String)
    ensures
        r@ == collect_text_spec(pieces@),
{
    let mut out = String::new();
    let mut i: usize = 0;
    while i < pieces.len()
        invariant
            i <= pieces.len(),
            out@ == collect_text_spec(pieces@.take(i as int)),
        decreases pieces.len() - i,
    {
        match &pieces[i] {
            TextPiece::Text(t) => append(&mut out, t.as_str()),
            TextPiece::Code(c) => append(&mut out, c.as_str()),
            TextPiece::Break => string_push(&mut out, ' '),
            TextPiece::Other => {},
        }
        assert(pieces@.take(i + 1).drop_last() == pieces@.take(i as int));
        i = i + 1;
    }
    assert(pieces@.take(pieces.len() as int) == pieces@);
    out
}

/// A heading of the document: its level and its plain text.
#[derive(Clone, Debug)]
pub struct Heading {
    pub level: u8,
    pub text: String,
}

/// The text of the first level-1 heading at or after `i`.
pub open spec fn first_h1_from(hs: Seq<Heading>, i: int) -> Option<Seq<char>>
    decreases hs.len() - i,
{
    if i < 0 || i >= hs.len() {
        None
    } else if hs[i].level == 1 {
        Some(hs[i].text@)
    } else {
        first_h1_from(hs, i + 1)
    }
}

pub open spec fn document_title_spec(
    fm_title: Option<Seq<char>>,
    headings: Seq<Heading>,
    file_stem: Seq<char>,
) -> Seq<char> {
    match fm_title {
        Some(t) => t,
        None => match first_h1_from(headings, 0) {
            Some(t) => t,
            None => file_stem,
        },
    }
}

pub open spec fn fm_title(front_matter: Option<&FrontMatter>) -> Option<Seq<char>> {
    match front_matter {
        Some(fm) => match fm.title {
            Some(t) => Some(t@),
            None => None,
        },
        None => None,
    }
}

proof fn lemma_first_h1_found(hs: Seq<Heading>, k: int, i: int)
    requires
        0 <= k <= i < hs.len(),
        hs[i].level == 1,
        forall|j: int| 0 <= j < i ==> #[trigger] hs[j].level != 1,
    ensures
        first_h1_from(hs, k) == Some(hs[i].text@),
    decreases i - k,
{
    if k < i {
        lemma_first_h1_found(hs, k + 1, i);
    }
}

proof fn lemma_no_h1(hs: Seq<Heading>, k: int)
    requires
        0 <= k <= hs.len(),
        forall|j: int| 0 <= j < hs.len() ==> #[trigger] hs[j].level != 1,
    ensures
        first_h1_from(hs, k) is None,
    decreases hs.len() - k,
{
    if k < hs.len() {
        lemma_no_h1(hs, k + 1);
    }
}

/// The title: the front matter's title when it has one; else the text of
/// the level-1 heading that comes first (no heading before it has level
/// 1); else, when no heading has level 1, the file name.
pub proof fn lemma_title_is_first_h1(
    fm: Option<Seq<char>>,
    hs: Seq<Heading>,
    stem: Seq<char>,
    i: int,
)
    ensures
        fm matches Some(t) ==> document_title_spec(fm, hs, stem) == t,
        fm is None && 0 <= i < hs.len() && hs[i].level == 1 && (forall|j: int|
            0 <= j < i ==> #[trigger] hs[j].level != 1) ==> document_title_spec(fm, hs, stem)
            == hs[i].text@,
        fm is None && (forall|j: int| 0 <= j < hs.len() ==> #[trigger] hs[j].level != 1)
            ==> document_title_spec(fm, hs, stem) == stem,
{
    if fm is None && 0 <= i < hs.len() && hs[i].level == 1 && (forall|j: int|
        0 <= j < i ==> #[trigger] hs[j].level != 1) {
        lemma_first_h1_found(hs, 0, i);
    }
    if fm is None && (forall|j: int| 0 <= j < hs.len() ==> #[trigger] hs[j].level != 1) {
        lemma_no_h1(hs, 0);
    }
}

/// Document title: front matter `title`, else the text of the first H1, else
/// the file name. `headings` are all headings of the document in order.
pub fn document_title(
    front_matter: Option<&FrontMatter>,
    headings: &Vec<Heading>,
    file_stem: &str,
) -> (r: String)
    ensures
        r@ == document_title_spec(fm_title(front_matter), headings@, file_stem@),
{
    if let Some(fm) = front_matter {
        if let Some(t) = &fm.title {
            return t.clone();
        }
    }
    let mut i: usize = 0;
    while i < headings.len()
        invariant
            i <= headings.len(),
            fm_title(front_matter) is None,
            first_h1_from(headings@, i as int) == first_h1_from(headings@, 0),
        decreases headings.len() - i,
    {
        if headings[i].level == 1 {
            return headings[i].text.clone();
        }
        i = i + 1;
    }
    file_stem.to_owned()
}

} // verus!
