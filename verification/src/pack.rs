//! Template packs: external branding loaded from a folder at run time. Here
//! the pack's contents as plain values, and the decisions made on them.

use vstd::prelude::*;

use crate::assets::font_face_css;
use crate::config::Company;
use crate::text::{append, ascii_lower, ascii_lower_char, to_chars};

verus! {

pub const MANIFEST_FILE: &'static str = "pack.toml";

pub const CSS_FILE: &'static str = "template.css";

pub const LOGO_LIGHT_FILE: &'static str = "logo-light.png";

pub const LOGO_DARK_FILE: &'static str = "logo-dark.png";

/// A font of the pack.
#[derive(Debug)]
pub struct PackFont {
    pub family: String,
    pub weight: u16,
    pub style: String,
    pub bytes: Vec<u8>,
}

/// A link in the footer (`[[links]]` in pack.toml).
#[derive(Debug)]
pub struct PackLink {
    pub label: String,
    pub url: String,
    /// The icon as a base64 data URI (`image/svg+xml` or `image/png`).
    pub icon_data_uri: Option<String>,
}

/// A loaded template pack.
#[derive(Debug)]
pub struct TemplatePack {
    pub name: String,
    pub css: String,
    pub fonts: Vec<PackFont>,
    pub links: Vec<PackLink>,
    pub logo_light: Option<Vec<u8>>,
    pub logo_dark: Option<Vec<u8>>,
    /// Defaults of the company data from pack.toml; `[company]` in
    /// mdprint.toml overrides them.
    pub company: Company,
}

pub open spec fn pack_font_css(f: PackFont) -> Seq<char> {
    crate::assets::font_face_css_spec(f.family@, f.weight as nat, f.style@, f.bytes@)
}

pub open spec fn pack_fonts_css_spec(fonts: Seq<PackFont>) -> Seq<char>
    decreases fonts.len(),
{
    if fonts.len() == 0 {
        Seq::empty()
    } else {
        pack_fonts_css_spec(fonts.drop_last()) + pack_font_css(fonts.last())
    }
}

impl TemplatePack {
    /// `@font-face` blocks of the pack's fonts (base64 data URIs, like the
    /// embedded ones).
    pub fn fonts_css(&self) -> (r: String)
        ensures
            r@ == pack_fonts_css_spec(self.fonts@),
    {
        let mut css = String::new();
        let mut i: usize = 0;
        while i < self.fonts.len()
            invariant
                i <= self.fonts.len(),
                css@ == pack_fonts_css_spec(self.fonts@.take(i as int)),
            decreases self.fonts.len() - i,
        {
            let f = &self.fonts[i];
            let block = font_face_css(
                f.family.as_str(),
                f.weight,
                f.style.as_str(),
                f.bytes.as_slice(),
            );
            append(&mut css, block.as_str());
            assert(self.fonts@.take(i + 1).drop_last() == self.fonts@.take(i as int));
            i = i + 1;
        }
        assert(self.fonts@.take(self.fonts.len() as int) == self.fonts@);
        css
    }
}

pub open spec fn prefer(over: Option<String>, fallback: Option<String>) -> Option<String> {
    match over {
        Some(v) => Some(v),
        None => fallback,
    }
}

pub open spec fn merged_company(pack: Company, toml: Company) -> Company {
    Company {
        name: prefer(toml.name, pack.name),
        address: prefer(toml.address, pack.address),
        ico: prefer(toml.ico, pack.ico),
        dic: prefer(toml.dic, pack.dic),
        web: prefer(toml.web, pack.web),
        email: prefer(toml.email, pack.email),
    }
}

fn prefer_exec(over: &Option<String>, fallback: &Option<String>) -> (r: Option<String>)
    ensures
        r == prefer(*over, *fallback),
{
    match over {
        Some(v) => Some(v.clone()),
        None => fallback.clone(),
    }
}

/// Company data: the values of mdprint.toml override the pack's defaults,
/// field by field.
pub fn merge_company(pack: &Company, toml: &Company) -> (r: Company)
    ensures
        r == merged_company(*pack, *toml),
{
    Company {
        name: prefer_exec(&toml.name, &pack.name),
        address: prefer_exec(&toml.address, &pack.address),
        ico: prefer_exec(&toml.ico, &pack.ico),
        dic: prefer_exec(&toml.dic, &pack.dic),
        web: prefer_exec(&toml.web, &pack.web),
        email: prefer_exec(&toml.email, &pack.email),
    }
}

/// `str::eq_ignore_ascii_case`.
pub open spec fn eq_ignore_ascii_case(a: Seq<char>, b: Seq<char>) -> bool {
    a.len() == b.len() && forall|i: int| 0 <= i < a.len() ==> ascii_lower(a[i]) == ascii_lower(b[i])
}

fn eq_ignore_case_exec(a: &str, b: &[char]) -> (r: bool)
    ensures
        r == eq_ignore_ascii_case(a@, b@),
{
    let x = to_chars(a);
    if x.len() != b.len() {
        return false;
    }
    let mut i: usize = 0;
    while i < x.len()
        invariant
            i <= x.len() == b.len(),
            x@ == a@,
            forall|t: int| 0 <= t < i ==> ascii_lower(x@[t]) == ascii_lower(b@[t]),
        decreases x.len() - i,
    {
        if ascii_lower_char(x[i]) != ascii_lower_char(b[i]) {
            return false;
        }
        i = i + 1;
    }
    true
}

/// The MIME type of a link icon from its file extension: `svg` →
/// `image/svg+xml`, `png` → `image/png` (any case); anything else is refused.
pub open spec fn icon_mime_spec(ext: Option<Seq<char>>) -> Option<Seq<char>> {
    match ext {
        Some(e) => if eq_ignore_ascii_case(e, seq!['s', 'v', 'g']) {
            Some("image/svg+xml"@)
        } else if eq_ignore_ascii_case(e, seq!['p', 'n', 'g']) {
            Some("image/png"@)
        } else {
            None
        },
        None => None,
    }
}

pub fn icon_mime(ext: Option<&str>) -> (r: Option<&'static str>)
    ensures
        match r {
            Some(m) => icon_mime_spec(
                match ext {
                    Some(e) => Some(e@),
                    None => None,
                },
            ) == Some(m@),
            None => icon_mime_spec(
                match ext {
                    Some(e) => Some(e@),
                    None => None,
                },
            ) is None,
        },
{
    match ext {
        Some(e) => {
            let svg: [char; 3] = ['s', 'v', 'g'];
            let png: [char; 3] = ['p', 'n', 'g'];
            assert(svg@ =~= seq!['s', 'v', 'g']);
            assert(png@ =~= seq!['p', 'n', 'g']);
            if eq_ignore_case_exec(e, &svg) {
                Some("image/svg+xml")
            } else if eq_ignore_case_exec(e, &png) {
                Some("image/png")
            } else {
                None
            }
        },
        None => None,
    }
}

/// A font as `[[fonts]]` of pack.toml declares it.
#[derive(Debug)]
pub struct FontDecl {
    pub file: String,
    pub family: String,
    pub weight: u16,
    pub style: Option<String>,
}

/// A footer link as `[[links]]` of pack.toml declares it; the icon is an
/// optional SVG or PNG file inside the pack folder.
#[derive(Debug)]
pub struct LinkDecl {
    pub label: String,
    pub url: String,
    pub icon: Option<String>,
}

/// A declared font with the bytes of its file; the style is `normal` when
/// the declaration names none.
pub fn pack_font(decl: FontDecl, bytes: Vec<u8>) -> (r: PackFont)
    ensures
        r.family == decl.family,
        r.weight == decl.weight,
        r.style@ == match decl.style {
            Some(s) => s@,
            None => "normal"@,
        },
        r.bytes@ == bytes@,
{
    let style = match decl.style {
        Some(s) => s,
        None => {
            let mut t = String::new();
            append(&mut t, "normal");
            t
        },
    };
    PackFont { family: decl.family, weight: decl.weight, style, bytes }
}

/// The extension of the icon file named by `rel`, as `Path::extension` has
/// it for the part after the last `/`.
pub open spec fn icon_ext_spec(rel: Seq<char>) -> Option<Seq<char>> {
    crate::images::stem_ext(crate::images::after_last(rel, '/')).1
}

pub fn icon_ext(rel: &str) -> (r: Option<String>)
    ensures
        match r {
            Some(e) => icon_ext_spec(rel@) == Some(e@),
            None => icon_ext_spec(rel@) is None,
        },
{
    let name = crate::images::file_name_chars(rel);
    let n = name.len();
    proof {
        crate::images::lemma_rfind(name@, '.');
    }
    match crate::images::rfind_char(&name, '.') {
        Some(d) => {
            if d == 0 {
                None
            } else {
                Some(crate::text::from_chars(&crate::text::slice_chars(&name, d + 1, n)))
            }
        },
        None => None,
    }
}

/// The MIME type of a link icon from its file name, or `None` when the
/// extension is neither `svg` nor `png` (in any case).
pub fn icon_mime_of(rel: &str) -> (r: Option<&'static str>)
    ensures
        match r {
            Some(m) => icon_mime_spec(icon_ext_spec(rel@)) == Some(m@),
            None => icon_mime_spec(icon_ext_spec(rel@)) is None,
        },
{
    match icon_ext(rel) {
        Some(e) => icon_mime(Some(e.as_str())),
        None => icon_mime(None),
    }
}

pub open spec fn bad_icon_text(rel: Seq<char>, manifest: Seq<char>) -> Seq<char> {
    "ikona odkazu "@ + rel + " v "@ + manifest + " musí být .svg nebo .png"@
}

/// The error for a link icon that is neither SVG nor PNG.
pub fn bad_icon_message(rel: &str, manifest: &str) -> (r: String)
    ensures
        r@ == bad_icon_text(rel@, manifest@),
{
    let mut m = String::new();
    append(&mut m, "ikona odkazu ");
    append(&mut m, rel);
    append(&mut m, " v ");
    append(&mut m, manifest);
    append(&mut m, " musí být .svg nebo .png");
    m
}

/// A declared link with its icon (MIME type and bytes), the icon as a data
/// URI.
pub fn pack_link(decl: LinkDecl, icon: Option<(&str, Vec<u8>)>) -> (r: PackLink)
    ensures
        r.label == decl.label,
        r.url == decl.url,
        match icon {
            Some((mime, bytes)) => r.icon_data_uri matches Some(u) && u@
                == crate::assets::image_data_uri_spec(mime@, bytes@),
            None => r.icon_data_uri is None,
        },
{
    let icon_data_uri = match icon {
        Some((mime, bytes)) => Some(crate::assets::image_data_uri(mime, bytes.as_slice())),
        None => None,
    };
    PackLink { label: decl.label, url: decl.url, icon_data_uri }
}

/// Whether the resolved path of a pack file lies inside the resolved pack
/// folder: it is the folder itself or a path below it. Both paths are
/// canonical (absolute, without `.` and `..` parts and repeated slashes),
/// so a component-wise prefix is a prefix ending at a `/`.
pub open spec fn inside_pack_spec(path: Seq<char>, root: Seq<char>) -> bool {
    ||| path == root
    ||| (crate::images::has_prefix(path, root) && root.len() > 0 && root.last() == '/')
    ||| crate::images::has_prefix(path, root + "/"@)
}

pub fn inside_pack(path: &str, root: &str) -> (r: bool)
    ensures
        r == inside_pack_spec(path@, root@),
{
    let p = to_chars(path);
    let mut rs = String::new();
    append(&mut rs, root);
    let rv = to_chars(root);
    let same = crate::text::str_eq(path, root);
    let under_slash_root = rv.len() > 0 && rv[rv.len() - 1] == '/' && crate::text::word_at(
        &p,
        0,
        rv.as_slice(),
    );
    append(&mut rs, "/");
    let with_slash = to_chars(rs.as_str());
    let below = crate::text::word_at(&p, 0, with_slash.as_slice());
    same || under_slash_root || below
}

pub open spec fn outside_pack_text(what: Seq<char>, rel: Seq<char>) -> Seq<char> {
    what + " "@ + rel + " leží mimo složku packu — cesty v pack.toml musí zůstat uvnitř"@
}

/// The error for a declared file that lies outside the pack folder.
pub fn outside_pack_message(what: &str, rel: &str) -> (r: String)
    ensures
        r@ == outside_pack_text(what@, rel@),
{
    let mut m = String::new();
    append(&mut m, what);
    append(&mut m, " ");
    append(&mut m, rel);
    append(&mut m, " leží mimo složku packu — cesty v pack.toml musí zůstat uvnitř");
    m
}

} // verus!
