//! Inlined assets: data URIs and `@font-face` blocks with the font data as
//! base64. The bytes themselves are embedded by the program and handed in.

use vstd::prelude::*;

use crate::text::{append, decimal, decimal_chars, from_chars, seq_at, to_chars, word_at};

verus! {

/// The character of a six-bit value in the standard alphabet
/// (`A–Z a–z 0–9 + /`).
pub open spec fn base64_digit(v: int) -> char {
    if v < 26 {
        (65 + v) as char
    } else if v < 52 {
        (97 + v - 26) as char
    } else if v < 62 {
        (48 + v - 52) as char
    } else if v == 62 {
        '+'
    } else {
        '/'
    }
}

/// Standard base64 with padding (RFC 4648): every three bytes become four
/// characters; one or two bytes left at the end become two or three
/// characters and `=` padding.
pub open spec fn base64_standard(b: Seq<u8>) -> Seq<char>
    decreases b.len(),
{
    let x = if b.len() > 0 { b[0] as int } else { 0 };
    let y = if b.len() > 1 { b[1] as int } else { 0 };
    let z = if b.len() > 2 { b[2] as int } else { 0 };
    if b.len() == 0 {
        Seq::empty()
    } else if b.len() == 1 {
        seq![base64_digit(x / 4), base64_digit((x % 4) * 16), '=', '=']
    } else if b.len() == 2 {
        seq![base64_digit(x / 4), base64_digit((x % 4) * 16 + y / 16), base64_digit((y % 16) * 4), '=']
    } else {
        seq![
            base64_digit(x / 4),
            base64_digit((x % 4) * 16 + y / 16),
            base64_digit((y % 16) * 4 + z / 64),
            base64_digit(z % 64),
        ] + base64_standard(b.skip(3))
    }
}

/// `base64::engine::general_purpose::STANDARD.encode`: the contract claims
/// that the text is the standard, padded base64 of the bytes.
#[verifier::external_body]
fn base64_encode(bytes: &[u8]) -> (r: String)
    ensures
        r@ == base64_standard(bytes@),
{
    base64::Engine::encode(&base64::engine::general_purpose::STANDARD, bytes)
}

pub open spec fn image_data_uri_spec(mime: Seq<char>, bytes: Seq<u8>) -> Seq<char> {
    "data:"@ + mime + ";base64,"@ + base64_standard(bytes)
}

/// Image as a data URI (`data:<mime>;base64,…`).
pub fn image_data_uri(mime: &str, bytes: &[u8]) -> (r: String)
    ensures
        r@ == image_data_uri_spec(mime@, bytes@),
{
    let mut s = String::new();
    append(&mut s, "data:");
    append(&mut s, mime);
    append(&mut s, ";base64,");
    let b = base64_encode(bytes);
    append(&mut s, b.as_str());
    s
}

/// PNG as a data URI for `<img src>`.
pub fn png_data_uri(bytes: &[u8]) -> (r: String)
    ensures
        r@ == image_data_uri_spec("image/png"@, bytes@),
{
    image_data_uri("image/png", bytes)
}

/// An embedded font face.
pub struct FontFace {
    pub family: String,
    pub weight: u16,
    pub style: String,
    pub bytes: Vec<u8>,
}

pub open spec fn font_face_css_spec(
    family: Seq<char>,
    weight: nat,
    style: Seq<char>,
    bytes: Seq<u8>,
) -> Seq<char> {
    "@font-face{font-family:'"@ + family + "';font-weight:"@ + decimal(weight) + ";font-style:"@
        + style + ";src:url(data:font/woff2;base64,"@ + base64_standard(bytes)
        + ") format('woff2');}\n"@
}

/// `@font-face` block with the WOFF2 data as a base64 data URI.
pub fn font_face_css(family: &str, weight: u16, style: &str, bytes: &[u8]) -> (r: String)
    ensures
        r@ == font_face_css_spec(family@, weight as nat, style@, bytes@),
{
    let mut s = String::new();
    append(&mut s, "@font-face{font-family:'");
    append(&mut s, family);
    append(&mut s, "';font-weight:");
    let w = from_chars(&decimal_chars(weight as u64));
    append(&mut s, w.as_str());
    append(&mut s, ";font-style:");
    append(&mut s, style);
    append(&mut s, ";src:url(data:font/woff2;base64,");
    let b = base64_encode(bytes);
    append(&mut s, b.as_str());
    append(&mut s, ") format('woff2');}\n");
    s
}

pub open spec fn face_css(f: FontFace) -> Seq<char> {
    font_face_css_spec(f.family@, f.weight as nat, f.style@, f.bytes@)
}

pub open spec fn fonts_css_spec(faces: Seq<FontFace>) -> Seq<char>
    decreases faces.len(),
{
    if faces.len() == 0 {
        Seq::empty()
    } else {
        fonts_css_spec(faces.drop_last()) + face_css(faces.last())
    }
}

/// `@font-face` blocks of the embedded fonts, in order.
pub fn fonts_css(faces: &Vec<FontFace>) -> (r: String)
    ensures
        r@ == fonts_css_spec(faces@),
{
    let mut css = String::new();
    let mut i: usize = 0;
    while i < faces.len()
        invariant
            i <= faces.len(),
            css@ == fonts_css_spec(faces@.take(i as int)),
        decreases faces.len() - i,
    {
        let f = &faces[i];
        let block = font_face_css(f.family.as_str(), f.weight, f.style.as_str(), f.bytes.as_slice());
        append(&mut css, block.as_str());
        assert(faces@.take(i + 1).drop_last() == faces@.take(i as int));
        i = i + 1;
    }
    assert(faces@.take(faces.len() as int) == faces@);
    css
}

/// A KaTeX font file: its name (`KaTeX_Main-BoldItalic`) and its data.
pub struct KatexFont {
    pub name: String,
    pub bytes: Vec<u8>,
}

/// `w` occurs somewhere in `s`.
pub open spec fn contains(s: Seq<char>, w: Seq<char>) -> bool {
    exists|k: int| 0 <= k <= s.len() && #[trigger] seq_at(s, k, w)
}

pub fn contains_exec(s: &Vec<char>, w: &[char]) -> (r: bool)
    ensures
        r == contains(s@, w@),
{
    let n = s.len();
    let mut k: usize = 0;
    while k < n
        invariant
            k <= n == s@.len(),
            forall|t: int| 0 <= t < k ==> !#[trigger] seq_at(s@, t, w@),
        decreases n - k,
    {
        if word_at(s, k, w) {
            return true;
        }
        k = k + 1;
    }
    word_at(s, n, w)
}

/// Family, weight and style of a KaTeX font from its file name: family before
/// the first `-`, weight 700 when the rest says `Bold`, style italic when it
/// says `Italic`.
pub open spec fn katex_face_css(name: Seq<char>, bytes: Seq<u8>) -> Seq<char> {
    let p = crate::text::find_from(name, '-', 0);
    let family = name.subrange(0, p);
    let variant = name.subrange(p + 1, name.len() as int);
    let weight: nat = if contains(variant, "Bold"@) {
        700
    } else {
        400
    };
    let style = if contains(variant, "Italic"@) {
        "italic"@
    } else {
        "normal"@
    };
    font_face_css_spec(family, weight, style, bytes)
}

pub open spec fn has_dash(name: Seq<char>) -> bool {
    exists|k: int| 0 <= k < name.len() && name[k] == '-'
}

pub open spec fn katex_fonts_css_spec(files: Seq<KatexFont>) -> Seq<char>
    decreases files.len(),
{
    if files.len() == 0 {
        Seq::empty()
    } else {
        katex_fonts_css_spec(files.drop_last()) + katex_face_css(
            files.last().name@,
            files.last().bytes@,
        )
    }
}

/// `@font-face` blocks of the KaTeX fonts; `KaTeX_Main-BoldItalic` → family
/// `KaTeX_Main`, weight 700, style italic.
pub fn katex_fonts_css(files: &Vec<KatexFont>) -> (r: String)
    requires
        forall|i: int| 0 <= i < files@.len() ==> #[trigger] has_dash(files@[i].name@),
    ensures
        r@ == katex_fonts_css_spec(files@),
{
    let mut css = String::new();
    let mut i: usize = 0;
    while i < files.len()
        invariant
            i <= files.len(),
            forall|k: int| 0 <= k < files@.len() ==> #[trigger] has_dash(files@[k].name@),
            css@ == katex_fonts_css_spec(files@.take(i as int)),
        decreases files.len() - i,
    {
        let f = &files[i];
        let name = to_chars(f.name.as_str());
        proof {
            crate::text::lemma_find_from(name@, '-', 0);
            assert(has_dash(files@[i as int].name@));
        }
        let p = crate::text::find_from_exec(&name, '-', 0);
        assert(p < name.len()) by {
            let k = choose|k: int| 0 <= k < name@.len() && name@[k] == '-';
            assert(has_dash(name@));
        }
        let family = from_chars(&crate::text::slice_chars(&name, 0, p));
        let variant = crate::text::slice_chars(&name, p + 1, name.len());
        let bold: [char; 4] = ['B', 'o', 'l', 'd'];
        let italic: [char; 6] = ['I', 't', 'a', 'l', 'i', 'c'];
        proof {
            reveal_strlit("Bold");
            reveal_strlit("Italic");
        }
        assert(bold@ =~= "Bold"@);
        assert(italic@ =~= "Italic"@);
        let weight: u16 = if contains_exec(&variant, &bold) {
            700
        } else {
            400
        };
        let style = if contains_exec(&variant, &italic) {
            "italic"
        } else {
            "normal"
        };
        let block = font_face_css(family.as_str(), weight, style, f.bytes.as_slice());
        append(&mut css, block.as_str());
        assert(files@.take(i + 1).drop_last() == files@.take(i as int));
        i = i + 1;
    }
    assert(files@.take(files.len() as int) == files@);
    css
}

} // verus!
