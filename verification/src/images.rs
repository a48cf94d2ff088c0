//! Images of the document: which links are remote, the names under which
//! local and downloaded images are stored (`<slug>-<hash8>.<ext>`), the
//! bookkeeping that shares one file among equal images, and which files of
//! an earlier build may be removed.

use vstd::prelude::*;
use vstd::utf8::{decode_utf8, encode_utf8, valid_utf8};

use crate::text::{
    append, ascii_alnum, decimal, decimal_chars, from_chars, is_ascii_alnum, lower_ascii,
    lower_chars, seq_at, string_push, to_chars, word_at,
};

verus! {

/// An image that cannot be had.
#[derive(Debug)]
pub enum ImageError {
    Missing { path: String, line: usize },
    Fetch { url: String, line: usize, reason: String },
}

pub open spec fn image_error_text(e: ImageError) -> Seq<char> {
    match e {
        ImageError::Missing { path, line } => "obrázek nenalezen: "@ + path@ + " (řádek "@
            + decimal(line as nat) + ")"@,
        ImageError::Fetch { url, line, reason } => "stažení obrázku selhalo: "@ + url@
            + " (řádek "@ + decimal(line as nat) + "): "@ + reason@,
    }
}

impl ImageError {
    /// The message shown to the user.
    pub fn message(&self) -> (r: String)
        ensures
            r@ == image_error_text(*self),
    {
        let mut s = String::new();
        match self {
            ImageError::Missing { path, line } => {
                append(&mut s, "obrázek nenalezen: ");
                append(&mut s, path.as_str());
                append(&mut s, " (řádek ");
                let n = from_chars(&decimal_chars(*line as u64));
                append(&mut s, n.as_str());
                append(&mut s, ")");
            },
            ImageError::Fetch { url, line, reason } => {
                append(&mut s, "stažení obrázku selhalo: ");
                append(&mut s, url.as_str());
                append(&mut s, " (řádek ");
                let n = from_chars(&decimal_chars(*line as u64));
                append(&mut s, n.as_str());
                append(&mut s, "): ");
                append(&mut s, reason.as_str());
            },
        }
        s
    }
}

pub open spec fn has_prefix(s: Seq<char>, p: Seq<char>) -> bool {
    seq_at(s, 0, p)
}

/// A link that is not a file next to the document: `http://`, `https://` or
/// `data:`, in any case.
pub open spec fn is_remote_spec(url: Seq<char>) -> bool {
    let l = lower_ascii(url);
    has_prefix(l, "http://"@) || has_prefix(l, "https://"@) || has_prefix(l, "data:"@)
}

pub open spec fn is_data_spec(url: Seq<char>) -> bool {
    has_prefix(lower_ascii(url), "data:"@)
}

pub fn is_remote(url: &str) -> (r: bool)
    ensures
        r == is_remote_spec(url@),
{
    let l = lower_chars(&to_chars(url));
    let http: [char; 7] = ['h', 't', 't', 'p', ':', '/', '/'];
    let https: [char; 8] = ['h', 't', 't', 'p', 's', ':', '/', '/'];
    proof {
        reveal_strlit("http://");
        reveal_strlit("https://");
        reveal_strlit("data:");
    }
    assert(http@ =~= "http://"@);
    assert(https@ =~= "https://"@);
    word_at(&l, 0, &http) || word_at(&l, 0, &https) || is_data(url)
}

/// The link is a `data:` URI (any case).
pub fn is_data(url: &str) -> (r: bool)
    ensures
        r == is_data_spec(url@),
{
    let l = lower_chars(&to_chars(url));
    let data: [char; 5] = ['d', 'a', 't', 'a', ':'];
    proof {
        reveal_strlit("data:");
    }
    assert(data@ =~= "data:"@);
    word_at(&l, 0, &data)
}

/// What an image link asks for.
#[derive(Debug, Clone, Copy, PartialEq, Eq, Structural)]
pub enum ImageSite {
    /// A remote link that stays as it is.
    Keep,
    /// A remote link whose image is downloaded into the image folder.
    Fetch,
    /// A file next to the document, copied into the image folder.
    Local,
}

pub open spec fn classify_spec(url: Seq<char>, fetch: bool) -> ImageSite {
    if is_remote_spec(url) {
        if fetch && !is_data_spec(url) {
            ImageSite::Fetch
        } else {
            ImageSite::Keep
        }
    } else {
        ImageSite::Local
    }
}

/// Remote links are downloaded only when asked for, and `data:` URIs never.
pub fn classify(url: &str, fetch: bool) -> (r: ImageSite)
    ensures
        r == classify_spec(url@, fetch),
{
    if is_remote(url) {
        if fetch && !is_data(url) {
            ImageSite::Fetch
        } else {
            ImageSite::Keep
        }
    } else {
        ImageSite::Local
    }
}

/// The lower-case hexadecimal BLAKE3 digest of `bytes`.
pub uninterp spec fn blake3_hex(bytes: Seq<u8>) -> Seq<char>;

pub open spec fn is_lower_hex(c: char) -> bool {
    ('0' <= c <= '9') || ('a' <= c <= 'f')
}

/// `blake3::hash(bytes).to_hex()`: the contract claims that the text is the
/// named digest of the bytes, and, as the crate's `to_hex` writes it, 64
/// lower-case hexadecimal digits.
#[verifier::external_body]
fn blake3_hex_of(bytes: &[u8]) -> (r: String)
    ensures
        r@ == blake3_hex(bytes@),
        r@.len() == 64,
        forall|i: int| 0 <= i < 64 ==> #[trigger] is_lower_hex(r@[i]),
{
    blake3::hash(bytes).to_hex().to_string()
}

pub open spec fn short_hash_spec(bytes: Seq<u8>) -> Seq<char> {
    blake3_hex(bytes).take(8)
}

/// The first eight hexadecimal digits of the BLAKE3 digest of `content`.
pub fn short_hash(content: &[u8]) -> (r: String)
    ensures
        r@ == short_hash_spec(content@),
        r@.len() == 8,
        forall|i: int| 0 <= i < 8 ==> #[trigger] is_lower_hex(r@[i]),
{
    let full = to_chars(blake3_hex_of(content).as_str());
    let mut s = String::new();
    let mut i: usize = 0;
    while i < 8
        invariant
            i <= 8,
            full@.len() == 64,
            s@ == full@.take(i as int),
        decreases 8 - i,
    {
        string_push(&mut s, full[i]);
        assert(full@.take(i + 1) == full@.take(i as int).push(full@[i as int]));
        i = i + 1;
    }
    assert(forall|t: int| 0 <= t < 8 ==> s@[t] == full@[t]);
    s
}

/// The text that the `deunicode` crate makes of `s`.
pub uninterp spec fn deunicode_text(s: Seq<char>) -> Seq<char>;

/// Every character of `s` is ASCII other than DEL.
pub open spec fn plain_ascii(s: Seq<char>) -> bool {
    forall|i: int| 0 <= i < s.len() ==> (#[trigger] s[i] as u32) < 0x7f
}

/// `deunicode::deunicode`: the contract claims that the result is the
/// named transliteration of `s`, and that text of ASCII characters below
/// DEL comes back unchanged (the crate returns such text as it is).
#[verifier::external_body]
fn deunicode_of(s: &str) -> (r: String)
    ensures
        r@ == deunicode_text(s@),
        plain_ascii(s@) ==> r@ == s@,
{
    deunicode::deunicode(s)
}

/// Reads `s` left to right: alphanumeric characters are kept, every run of
/// other characters becomes one `-` between two kept ones. The second part
/// of the state says that such a run is pending.
pub open spec fn slug_scan(s: Seq<char>) -> (Seq<char>, bool)
    decreases s.len(),
{
    if s.len() == 0 {
        (Seq::empty(), false)
    } else {
        let (out, pending) = slug_scan(s.drop_last());
        let c = s.last();
        if is_ascii_alnum(c) {
            let with_dash = if pending && out.len() > 0 {
                out.push('-')
            } else {
                out
            };
            (with_dash.push(c), false)
        } else {
            (out, true)
        }
    }
}

/// Slug of a name: transliterated to ASCII, lower case, runs of other
/// characters made into single dashes; `img` when nothing is left.
pub open spec fn slugify_spec(stem: Seq<char>) -> Seq<char> {
    let out = slug_scan(lower_ascii(deunicode_text(stem))).0;
    if out.len() == 0 {
        "img"@
    } else {
        out
    }
}

pub open spec fn is_slug_char(c: char) -> bool {
    ('a' <= c <= 'z') || ('0' <= c <= '9') || c == '-'
}

/// Lower-case ASCII letters, digits and single dashes between them.
pub open spec fn is_clean_slug(s: Seq<char>) -> bool {
    &&& forall|i: int| 0 <= i < s.len() ==> #[trigger] is_slug_char(s[i])
    &&& s.len() > 0 ==> s[0] != '-' && s.last() != '-'
    &&& forall|i: int| 0 <= i < s.len() - 1 ==> !(#[trigger] s[i] == '-' && s[i + 1] == '-')
}

proof fn lemma_slug_scan_clean(s: Seq<char>)
    requires
        forall|i: int| 0 <= i < s.len() ==> !('A' <= #[trigger] s[i] <= 'Z'),
    ensures
        is_clean_slug(slug_scan(s).0),
    decreases s.len(),
{
    if s.len() > 0 {
        let p = s.drop_last();
        assert forall|i: int| 0 <= i < p.len() implies !('A' <= #[trigger] p[i] <= 'Z') by {
            assert(p[i] == s[i]);
        }
        lemma_slug_scan_clean(p);
        let (out, pending) = slug_scan(p);
        let c = s.last();
        if is_ascii_alnum(c) {
            let w = if pending && out.len() > 0 {
                out.push('-')
            } else {
                out
            };
            let r = w.push(c);
            assert(r == slug_scan(s).0);
            assert(is_slug_char(c));
            assert forall|i: int| 0 <= i < r.len() implies #[trigger] is_slug_char(r[i]) by {
                if i < out.len() {
                    assert(r[i] == out[i]);
                }
            }
            assert forall|i: int| 0 <= i < r.len() - 1 implies !(#[trigger] r[i] == '-' && r[i
                + 1] == '-') by {
                if i + 1 < out.len() {
                    assert(r[i] == out[i] && r[i + 1] == out[i + 1]);
                } else if i + 1 == out.len() {
                    assert(r[i] == out.last());
                }
            }
        }
    }
}

/// A slug is made of lower-case ASCII letters, digits and dashes, never
/// begins or ends with a dash, and never holds two dashes in a row.
pub proof fn lemma_slug_is_clean(stem: Seq<char>)
    ensures
        is_clean_slug(slugify_spec(stem)),
{
    let l = lower_ascii(deunicode_text(stem));
    assert forall|i: int| 0 <= i < l.len() implies !('A' <= #[trigger] l[i] <= 'Z') by {
        let c = deunicode_text(stem)[i];
        assert(l[i] == crate::text::ascii_lower(c));
        if 'A' <= c <= 'Z' {
            assert((c as u32) + 32 >= 97);
        }
    }
    lemma_slug_scan_clean(l);
    if slug_scan(l).0.len() == 0 {
        reveal_strlit("img");
        assert(is_slug_char("img"@[0]) && is_slug_char("img"@[1]) && is_slug_char("img"@[2]));
    }
}

pub fn slugify(stem: &str) -> (r: String)
    ensures
        r@ == slugify_spec(stem@),
        plain_ascii(stem@) ==> r@ == (if slug_scan(lower_ascii(stem@)).0.len() == 0 {
            "img"@
        } else {
            slug_scan(lower_ascii(stem@)).0
        }),
{
    let d = deunicode_of(stem);
    let ascii = lower_chars(&to_chars(d.as_str()));
    let mut out: Vec<char> = Vec::new();
    let mut pending = false;
    let mut i: usize = 0;
    while i < ascii.len()
        invariant
            i <= ascii.len(),
            (out@, pending) == slug_scan(ascii@.take(i as int)),
        decreases ascii.len() - i,
    {
        let c = ascii[i];
        assert(ascii@.take(i + 1).drop_last() == ascii@.take(i as int));
        if ascii_alnum(c) {
            if pending && out.len() > 0 {
                out.push('-');
            }
            pending = false;
            out.push(c);
        } else {
            pending = true;
        }
        i = i + 1;
    }
    assert(ascii@.take(ascii.len() as int) == ascii@);
    if out.len() == 0 {
        let mut s = String::new();
        append(&mut s, "img");
        s
    } else {
        from_chars(&out)
    }
}

/// Index of the last `c` in `s`, or -1.
pub open spec fn rfind(s: Seq<char>, c: char) -> int
    decreases s.len(),
{
    if s.len() == 0 {
        -1
    } else if s.last() == c {
        s.len() - 1
    } else {
        rfind(s.drop_last(), c)
    }
}

pub proof fn lemma_rfind(s: Seq<char>, c: char)
    ensures
        -1 <= rfind(s, c) < s.len(),
        rfind(s, c) >= 0 ==> s[rfind(s, c)] == c,
        forall|t: int| rfind(s, c) < t < s.len() ==> s[t] != c,
    decreases s.len(),
{
    if s.len() > 0 && s.last() != c {
        lemma_rfind(s.drop_last(), c);
        assert forall|t: int| rfind(s, c) < t < s.len() implies s[t] != c by {
            if t < s.len() - 1 {
                assert(s[t] == s.drop_last()[t]);
            }
        }
    }
}

pub fn rfind_char(s: &Vec<char>, c: char) -> (r: Option<usize>)
    ensures
        match r {
            Some(k) => k == rfind(s@, c),
            None => rfind(s@, c) == -1,
        },
{
    let mut j = s.len();
    assert(s@.take(j as int) == s@);
    while j > 0
        invariant
            j <= s@.len(),
            rfind(s@.take(j as int), c) == rfind(s@, c),
        decreases j,
    {
        assert(s@.take(j as int).drop_last() == s@.take(j - 1));
        if s[j - 1] == c {
            return Some(j - 1);
        }
        j = j - 1;
    }
    None
}

/// The part of `s` after its last `c` (all of `s` when there is none).
pub open spec fn after_last(s: Seq<char>, c: char) -> Seq<char> {
    s.subrange(rfind(s, c) + 1, s.len() as int)
}

fn after_last_exec(s: &Vec<char>, c: char) -> (r: Vec<char>)
    ensures
        r@ == after_last(s@, c),
{
    proof {
        lemma_rfind(s@, c);
    }
    let n = s.len();
    match rfind_char(s, c) {
        Some(k) => crate::text::slice_chars(s, k + 1, n),
        None => crate::text::slice_chars(s, 0, s.len()),
    }
}

/// Stem and extension of a file name, as `Path::file_stem` and
/// `Path::extension` split it: at the last `.`, unless that dot is the first
/// character or there is none.
pub open spec fn stem_ext(name: Seq<char>) -> (Seq<char>, Option<Seq<char>>) {
    let d = rfind(name, '.');
    if d <= 0 {
        (name, None)
    } else {
        (name.take(d), Some(name.subrange(d + 1, name.len() as int)))
    }
}

pub open spec fn named_file(slug: Seq<char>, hash: Seq<char>, ext: Option<Seq<char>>) -> Seq<char> {
    match ext {
        Some(e) => if e.len() > 0 {
            slug + "-"@ + hash + "."@ + lower_ascii(e)
        } else {
            slug + "-"@ + hash
        },
        None => slug + "-"@ + hash,
    }
}

fn named_file_exec(slug: &str, hash: &str, ext: Option<&Vec<char>>) -> (r: String)
    ensures
        r@ == named_file(
            slug@,
            hash@,
            match ext {
                Some(e) => Some(e@),
                None => None,
            },
        ),
{
    let mut s = String::new();
    append(&mut s, slug);
    append(&mut s, "-");
    append(&mut s, hash);
    match ext {
        Some(e) => {
            if e.len() > 0 {
                append(&mut s, ".");
                let l = from_chars(&lower_chars(e));
                append(&mut s, l.as_str());
            }
        },
        None => {},
    }
    s
}

/// Name of a copied image: slug of the file's stem, the content hash, and
/// the extension in lower case. The file name is the part of the (resolved)
/// path after its last `/`.
pub open spec fn target_name_spec(source: Seq<char>, hash: Seq<char>) -> Seq<char> {
    let (stem, ext) = stem_ext(after_last(source, '/'));
    named_file(slugify_spec(stem), hash, ext)
}

/// The characters of the file name of `path`: those after its last `/`.
pub fn file_name_chars(path: &str) -> (r: Vec<char>)
    ensures
        r@ == after_last(path@, '/'),
{
    after_last_exec(&to_chars(path), '/')
}

pub fn target_name(source: &str, hash: &str) -> (r: String)
    ensures
        r@ == target_name_spec(source@, hash@),
{
    let name = file_name_chars(source);
    proof {
        lemma_rfind(name@, '.');
    }
    let nl = name.len();
    match rfind_char(&name, '.') {
        Some(d) => {
            if d == 0 {
                let slug = slugify(from_chars(&name).as_str());
                named_file_exec(slug.as_str(), hash, None)
            } else {
                let stem = from_chars(&crate::text::slice_chars(&name, 0, d));
                let ext = crate::text::slice_chars(&name, d + 1, nl);
                let slug = slugify(stem.as_str());
                named_file_exec(slug.as_str(), hash, Some(&ext))
            }
        },
        None => {
            let slug = slugify(from_chars(&name).as_str());
            named_file_exec(slug.as_str(), hash, None)
        },
    }
}

/// Index of the first `?` or `#` in `s`, or its length.
pub open spec fn query_start(s: Seq<char>) -> int
    decreases s.len(),
{
    if s.len() == 0 {
        0
    } else if s[0] == '?' || s[0] == '#' {
        0
    } else {
        1 + query_start(s.drop_first())
    }
}

pub proof fn lemma_query_start(s: Seq<char>)
    ensures
        0 <= query_start(s) <= s.len(),
    decreases s.len(),
{
    if s.len() > 0 && s[0] != '?' && s[0] != '#' {
        lemma_query_start(s.drop_first());
    }
}

/// `s` without its trailing slashes.
pub open spec fn trim_slashes(s: Seq<char>) -> Seq<char>
    decreases s.len(),
{
    if s.len() > 0 && s.last() == '/' {
        trim_slashes(s.drop_last())
    } else {
        s
    }
}

/// An extension worth keeping: one to five ASCII letters or digits.
pub open spec fn good_ext(e: Seq<char>) -> bool {
    1 <= e.len() <= 5 && forall|i: int| 0 <= i < e.len() ==> #[trigger] is_ascii_alnum(e[i])
}

/// Name of a downloaded image, fixed by its URL alone: slug of the last
/// segment of the URL's path, eight digits of the hash of the whole URL, and
/// the segment's extension in lower case when it is a plausible one.
pub open spec fn remote_target_name_spec(url: Seq<char>) -> Seq<char> {
    let hash = short_hash_spec(encode_utf8(url));
    let path = trim_slashes(url.take(query_start(url)));
    let last = after_last(path, '/');
    let d = rfind(last, '.');
    let ext = last.subrange(d + 1, last.len() as int);
    if d >= 0 && good_ext(ext) {
        slugify_spec(last.take(d)) + "-"@ + hash + "."@ + lower_ascii(ext)
    } else {
        slugify_spec(last) + "-"@ + hash
    }
}

fn good_ext_exec(e: &Vec<char>) -> (r: bool)
    ensures
        r == good_ext(e@),
{
    if e.len() < 1 || e.len() > 5 {
        return false;
    }
    let mut i: usize = 0;
    while i < e.len()
        invariant
            i <= e.len(),
            forall|t: int| 0 <= t < i ==> #[trigger] is_ascii_alnum(e@[t]),
        decreases e.len() - i,
    {
        if !ascii_alnum(e[i]) {
            return false;
        }
        i = i + 1;
    }
    true
}

/// A plain file name: lower-case ASCII letters, digits, dashes and dots,
/// beginning with a letter or digit (never a path, never hidden).
pub open spec fn is_clean_file_name(n: Seq<char>) -> bool {
    &&& n.len() > 0
    &&& ('a' <= n[0] <= 'z' || '0' <= n[0] <= '9')
    &&& forall|i: int| 0 <= i < n.len() ==> is_slug_char(#[trigger] n[i]) || n[i] == '.'
}

proof fn lemma_remote_name_clean(url: Seq<char>)
    requires
        short_hash_spec(encode_utf8(url)).len() == 8,
        forall|i: int| 0 <= i < 8 ==> #[trigger] is_lower_hex(short_hash_spec(encode_utf8(url))[i]),
    ensures
        is_clean_file_name(remote_target_name_spec(url)),
{
    let hash = short_hash_spec(encode_utf8(url));
    let path = trim_slashes(url.take(query_start(url)));
    let last = after_last(path, '/');
    let d = rfind(last, '.');
    let ext = last.subrange(d + 1, last.len() as int);
    reveal_strlit("-");
    reveal_strlit(".");
    reveal_strlit("img");
    let dash = "-"@;
    let dot = "."@;
    let stem = if d >= 0 && good_ext(ext) {
        last.take(d)
    } else {
        last
    };
    let slug = slugify_spec(stem);
    lemma_slug_is_clean(stem);
    assert(slug.len() > 0);
    assert(slug[0] != '-');
    let head = slug + dash + hash;
    assert forall|i: int| 0 <= i < head.len() implies is_slug_char(#[trigger] head[i]) by {
        if i < slug.len() {
            assert(head[i] == slug[i]);
        } else if i == slug.len() {
            assert(head[i] == dash[0]);
        } else {
            assert(head[i] == hash[i - slug.len() - 1]);
            assert(is_lower_hex(hash[i - slug.len() - 1]));
        }
    }
    assert(head[0] == slug[0]);
    if d >= 0 && good_ext(ext) {
        let le = lower_ascii(ext);
        let n = head + dot + le;
        assert(remote_target_name_spec(url) == n);
        assert forall|i: int| 0 <= i < n.len() implies is_slug_char(#[trigger] n[i]) || n[i]
            == '.' by {
            if i < head.len() {
                assert(n[i] == head[i]);
            } else if i == head.len() {
                assert(n[i] == dot[0]);
            } else {
                let k = i - head.len() - 1;
                assert(n[i] == le[k]);
                assert(is_ascii_alnum(ext[k]));
                if 'A' <= ext[k] <= 'Z' {
                    assert((ext[k] as u32) + 32 <= 122);
                }
            }
        }
        assert(n[0] == head[0]);
    } else {
        assert(remote_target_name_spec(url) == head);
    }
}

pub fn remote_target_name(url: &str) -> (r: String)
    ensures
        r@ == remote_target_name_spec(url@),
        is_clean_file_name(r@),
{
    let hash = short_hash(url.as_bytes());
    let u = to_chars(url);
    proof {
        lemma_query_start(u@);
        lemma_remote_name_clean(url@);
    }
    let mut q: usize = 0;
    assert(u@.skip(0) == u@);
    while q < u.len() && u[q] != '?' && u[q] != '#'
        invariant
            q <= u@.len(),
            q + query_start(u@.skip(q as int)) == query_start(u@),
        decreases u.len() - q,
    {
        assert(u@.skip(q as int).drop_first() == u@.skip(q + 1));
        q = q + 1;
    }
    assert(query_start(u@) == q);
    let mut e = q;
    while e > 0 && u[e - 1] == '/'
        invariant
            e <= q <= u@.len(),
            trim_slashes(u@.take(e as int)) == trim_slashes(u@.take(q as int)),
        decreases e,
    {
        assert(u@.take(e as int).drop_last() == u@.take(e - 1));
        e = e - 1;
    }
    assert(trim_slashes(u@.take(e as int)) == u@.take(e as int));
    let path = crate::text::slice_chars(&u, 0, e);
    assert(path@ == u@.take(e as int));
    let last = after_last_exec(&path, '/');
    proof {
        lemma_rfind(last@, '.');
    }
    let mut s = String::new();
    let ll = last.len();
    match rfind_char(&last, '.') {
        Some(d) => {
            let ext = crate::text::slice_chars(&last, d + 1, ll);
            if good_ext_exec(&ext) {
                let stem = from_chars(&crate::text::slice_chars(&last, 0, d));
                let slug = slugify(stem.as_str());
                append(&mut s, slug.as_str());
                append(&mut s, "-");
                append(&mut s, hash.as_str());
                append(&mut s, ".");
                let l = from_chars(&lower_chars(&ext));
                append(&mut s, l.as_str());
                return s;
            }
        },
        None => {},
    }
    let slug = slugify(from_chars(&last).as_str());
    append(&mut s, slug.as_str());
    append(&mut s, "-");
    append(&mut s, hash.as_str());
    s
}

/// Value of an ASCII hexadecimal digit (either case).
pub open spec fn hex_value(b: u8) -> Option<u8> {
    if 48 <= b <= 57 {
        Some((b - 48) as u8)
    } else if 97 <= b <= 102 {
        Some((b - 87) as u8)
    } else if 65 <= b <= 70 {
        Some((b - 55) as u8)
    } else {
        None
    }
}

/// Percent decoding of bytes: `%` and two hexadecimal digits stand for the
/// byte they spell; every other byte, a lone `%` too, stands for itself.
pub open spec fn percent_decoded(b: Seq<u8>) -> Seq<u8>
    decreases b.len(),
{
    if b.len() == 0 {
        Seq::empty()
    } else if b[0] == 37 && b.len() >= 3 && hex_value(b[1]) is Some && hex_value(b[2]) is Some {
        seq![(hex_value(b[1])->0 * 16 + hex_value(b[2])->0) as u8] + percent_decoded(b.skip(3))
    } else {
        seq![b[0]] + percent_decoded(b.skip(1))
    }
}

/// `percent_encoding::percent_decode_str(s).decode_utf8()`: the contract
/// claims that the decoded bytes are read as UTF-8 text, and that the call
/// fails exactly when they are not valid UTF-8.
#[verifier::external_body]
fn percent_decode_utf8(s: &str) -> (r: Option<String>)
    ensures
        match r {
            Some(t) => valid_utf8(percent_decoded(encode_utf8(s@))) && t@ == decode_utf8(
                percent_decoded(encode_utf8(s@)),
            ),
            None => !valid_utf8(percent_decoded(encode_utf8(s@))),
        },
{
    match percent_encoding::percent_decode_str(s).decode_utf8() {
        Ok(t) => Some(t.into_owned()),
        Err(_) => None,
    }
}

/// `s` with every backslash made a slash.
pub open spec fn forward_slashes(s: Seq<char>) -> Seq<char> {
    Seq::new(
        s.len(),
        |i: int|
            if s[i] == '\\' {
                '/'
            } else {
                s[i]
            },
    )
}

/// The path that an image link names: percent-decoded (`%20` and the like)
/// and with backslashes made slashes. `None` when the decoded bytes are not
/// UTF-8.
pub fn source_path_text(url: &str) -> (r: Option<String>)
    ensures
        match r {
            Some(t) => valid_utf8(percent_decoded(encode_utf8(url@))) && t@ == forward_slashes(
                decode_utf8(percent_decoded(encode_utf8(url@))),
            ),
            None => !valid_utf8(percent_decoded(encode_utf8(url@))),
        },
{
    match percent_decode_utf8(url) {
        Some(t) => {
            let v = to_chars(t.as_str());
            let mut out = String::new();
            let mut i: usize = 0;
            while i < v.len()
                invariant
                    i <= v.len(),
                    out@ == forward_slashes(v@.take(i as int)),
                decreases v.len() - i,
            {
                let c = if v[i] == '\\' {
                    '/'
                } else {
                    v[i]
                };
                string_push(&mut out, c);
                assert(forward_slashes(v@.take(i + 1)) =~= forward_slashes(v@.take(i as int)).push(
                    c,
                ));
                i = i + 1;
            }
            assert(v@.take(v.len() as int) == v@);
            Some(out)
        },
        None => None,
    }
}

/// A name that stands for a file directly in the image folder: not empty,
/// no `/`, and neither `.` nor `..`.
pub open spec fn is_plain_file_name(name: Seq<char>) -> bool {
    &&& name.len() > 0
    &&& forall|i: int| 0 <= i < name.len() ==> name[i] != '/'
    &&& name != "."@
    &&& name != ".."@
}

pub fn plain_file_name(name: &str) -> (r: bool)
    ensures
        r == is_plain_file_name(name@),
{
    let v = to_chars(name);
    if v.len() == 0 {
        return false;
    }
    let mut i: usize = 0;
    while i < v.len()
        invariant
            i <= v.len(),
            v@ == name@,
            forall|t: int| 0 <= t < i ==> v@[t] != '/',
        decreases v.len() - i,
    {
        if v[i] == '/' {
            return false;
        }
        i = i + 1;
    }
    proof {
        reveal_strlit(".");
        reveal_strlit("..");
    }
    let dot: [char; 1] = ['.'];
    let dotdot: [char; 2] = ['.', '.'];
    assert(dot@ =~= "."@);
    assert(dotdot@ =~= ".."@);
    let is_dot = v.len() == 1 && word_at(&v, 0, &dot);
    let is_dotdot = v.len() == 2 && word_at(&v, 0, &dotdot);
    if is_dot {
        assert(v@ =~= "."@);
    }
    if is_dotdot {
        assert(v@ =~= ".."@);
    }
    if !is_dot {
        assert(v@ != "."@) by {
            if v@ == "."@ {
                assert(v@.subrange(0, 1) =~= dot@);
            }
        }
    }
    if !is_dotdot {
        assert(v@ != ".."@) by {
            if v@ == ".."@ {
                assert(v@.subrange(0, 2) =~= dotdot@);
            }
        }
    }
    !is_dot && !is_dotdot
}

pub open spec fn names(v: Seq<String>) -> Seq<Seq<char>> {
    Seq::new(v.len(), |i: int| v[i]@)
}

fn contains_name(v: &Vec<String>, name: &str) -> (r: bool)
    ensures
        r == names(v@).contains(name@),
{
    let mut i: usize = 0;
    while i < v.len()
        invariant
            i <= v.len(),
            forall|t: int| 0 <= t < i ==> v@[t]@ != name@,
        decreases v.len() - i,
    {
        if crate::text::str_eq(v[i].as_str(), name) {
            assert(names(v@)[i as int] == name@);
            return true;
        }
        i = i + 1;
    }
    assert forall|t: int| 0 <= t < names(v@).len() implies names(v@)[t] != name@ by {
        assert(names(v@)[t] == v@[t]@);
    }
    false
}

/// The files of the last build's manifest that this build no longer wrote
/// and that lie directly in the image folder: those, and only those, may be
/// removed. They come in the order of the old manifest.
pub open spec fn is_orphan(name: Seq<char>, current: Seq<String>) -> bool {
    !names(current).contains(name) && is_plain_file_name(name)
}

pub fn orphans(old: &Vec<String>, current: &Vec<String>) -> (r: Vec<String>)
    ensures
        names(r@) == names(old@).filter(|n: Seq<char>| is_orphan(n, current@)),
{
    let mut r: Vec<String> = Vec::new();
    let mut i: usize = 0;
    while i < old.len()
        invariant
            i <= old.len(),
            names(r@) == names(old@).take(i as int).filter(|n: Seq<char>| is_orphan(n, current@)),
        decreases old.len() - i,
    {
        let name = old[i].as_str();
        assert(names(old@).take(i + 1).drop_last() == names(old@).take(i as int));
        assert(names(old@).take(i + 1).last() == name@);
        proof {
            reveal(Seq::filter);
        }
        if !contains_name(current, name) && plain_file_name(name) {
            let ghost before = r@;
            r.push(old[i].clone());
            assert(names(r@) =~= names(before).push(name@));
        } else {
        }
        i = i + 1;
    }
    assert(names(old@).take(old.len() as int) == names(old@));
    r
}

/// A sweep removes only names of the old manifest that this build did not
/// record again and that name a file directly in the image folder; it
/// keeps every name of the old manifest that meets those terms.
pub proof fn lemma_orphans_sound(old: Seq<String>, current: Seq<String>, name: Seq<char>)
    ensures
        names(old).filter(|n: Seq<char>| is_orphan(n, current)).contains(name) <==> (names(
            old,
        ).contains(name) && !names(current).contains(name) && is_plain_file_name(name)),
{
    let p = |n: Seq<char>| is_orphan(n, current);
    let f = names(old).filter(p);
    if f.contains(name) {
        names(old).lemma_filter_contains_rev(p, name);
        let j = choose|j: int| 0 <= j < f.len() && f[j] == name;
        names(old).lemma_filter_pred(p, j);
    }
    if names(old).contains(name) && p(name) {
        let i = choose|i: int| 0 <= i < names(old).len() && names(old)[i] == name;
        names(old).lemma_filter_contains(p, i);
    }
}

/// The map that a list of (key, name) pairs stands for; a later pair for
/// the same key overrides an earlier one.
pub open spec fn table_map(t: Seq<(String, String)>) -> Map<Seq<char>, Seq<char>>
    decreases t.len(),
{
    if t.len() == 0 {
        Map::empty()
    } else {
        table_map(t.drop_last()).insert(t.last().0@, t.last().1@)
    }
}

pub open spec fn map_get(m: Map<Seq<char>, Seq<char>>, k: Seq<char>) -> Option<Seq<char>> {
    if m.dom().contains(k) {
        Some(m[k])
    } else {
        None
    }
}

pub open spec fn opt_view(o: Option<String>) -> Option<Seq<char>> {
    match o {
        Some(s) => Some(s@),
        None => None,
    }
}

fn table_get(t: &Vec<(String, String)>, k: &str) -> (r: Option<String>)
    ensures
        opt_view(r) == map_get(table_map(t@), k@),
{
    let mut j = t.len();
    assert(t@.take(j as int) == t@);
    while j > 0
        invariant
            j <= t@.len(),
            map_get(table_map(t@.take(j as int)), k@) == map_get(table_map(t@), k@),
        decreases j,
    {
        assert(t@.take(j as int).drop_last() == t@.take(j - 1));
        assert(t@.take(j as int).last() == t@[j - 1]);
        if crate::text::str_eq(t[j - 1].0.as_str(), k) {
            return Some(t[j - 1].1.clone());
        }
        j = j - 1;
    }
    None
}

/// What the images of one build were stored as: the name given to each
/// content hash, to each resolved source file and to each downloaded URL,
/// and the files written, each once.
pub struct ImageRegistry {
    by_hash: Vec<(String, String)>,
    by_source: Vec<(String, String)>,
    by_url: Vec<(String, String)>,
    files: Vec<String>,
}

impl ImageRegistry {
    pub closed spec fn hash_names(&self) -> Map<Seq<char>, Seq<char>> {
        table_map(self.by_hash@)
    }

    pub closed spec fn source_names(&self) -> Map<Seq<char>, Seq<char>> {
        table_map(self.by_source@)
    }

    pub closed spec fn url_names(&self) -> Map<Seq<char>, Seq<char>> {
        table_map(self.by_url@)
    }

    /// The files written, in the order in which they were first recorded.
    pub closed spec fn file_names(&self) -> Seq<Seq<char>> {
        names(self.files@)
    }

    /// No file is recorded twice.
    pub open spec fn wf(&self) -> bool {
        self.file_names().no_duplicates()
    }

    pub fn new() -> (r: Self)
        ensures
            r.wf(),
            r.hash_names() == Map::<Seq<char>, Seq<char>>::empty(),
            r.source_names() == Map::<Seq<char>, Seq<char>>::empty(),
            r.url_names() == Map::<Seq<char>, Seq<char>>::empty(),
            r.file_names() == Seq::<Seq<char>>::empty(),
    {
        let r = ImageRegistry {
            by_hash: Vec::new(),
            by_source: Vec::new(),
            by_url: Vec::new(),
            files: Vec::new(),
        };
        assert(names(r.files@) =~= Seq::<Seq<char>>::empty());
        r
    }

    pub fn name_for_hash(&self, hash: &str) -> (r: Option<String>)
        ensures
            opt_view(r) == map_get(self.hash_names(), hash@),
    {
        table_get(&self.by_hash, hash)
    }

    pub fn name_for_source(&self, source: &str) -> (r: Option<String>)
        ensures
            opt_view(r) == map_get(self.source_names(), source@),
    {
        table_get(&self.by_source, source)
    }

    pub fn name_for_url(&self, url: &str) -> (r: Option<String>)
        ensures
            opt_view(r) == map_get(self.url_names(), url@),
    {
        table_get(&self.by_url, url)
    }

    pub fn remember_hash(&mut self, hash: &str, name: &str)
        ensures
            final(self).hash_names() == old(self).hash_names().insert(hash@, name@),
            final(self).source_names() == old(self).source_names(),
            final(self).url_names() == old(self).url_names(),
            final(self).file_names() == old(self).file_names(),
    {
        let ghost before = self.by_hash@;
        self.by_hash.push((hash.to_string(), name.to_string()));
        assert(self.by_hash@.drop_last() == before);
    }

    pub fn remember_source(&mut self, source: &str, name: &str)
        ensures
            final(self).source_names() == old(self).source_names().insert(source@, name@),
            final(self).hash_names() == old(self).hash_names(),
            final(self).url_names() == old(self).url_names(),
            final(self).file_names() == old(self).file_names(),
    {
        let ghost before = self.by_source@;
        self.by_source.push((source.to_string(), name.to_string()));
        assert(self.by_source@.drop_last() == before);
    }

    pub fn remember_url(&mut self, url: &str, name: &str)
        ensures
            final(self).url_names() == old(self).url_names().insert(url@, name@),
            final(self).hash_names() == old(self).hash_names(),
            final(self).source_names() == old(self).source_names(),
            final(self).file_names() == old(self).file_names(),
    {
        let ghost before = self.by_url@;
        self.by_url.push((url.to_string(), name.to_string()));
        assert(self.by_url@.drop_last() == before);
    }

    /// Records a written file; one that is recorded already stays as it is.
    pub fn add_file(&mut self, name: &str)
        requires
            old(self).wf(),
        ensures
            final(self).wf(),
            final(self).file_names().to_set() == old(self).file_names().to_set().insert(name@),
            old(self).file_names().contains(name@) ==> final(self).file_names() == old(
                self,
            ).file_names(),
            !old(self).file_names().contains(name@) ==> final(self).file_names() == old(
                self,
            ).file_names().push(name@),
            final(self).hash_names() == old(self).hash_names(),
            final(self).source_names() == old(self).source_names(),
            final(self).url_names() == old(self).url_names(),
    {
        if !contains_name(&self.files, name) {
            let ghost before = names(self.files@);
            self.files.push(name.to_string());
            assert(names(self.files@) =~= before.push(name@));
            proof {
                before.lemma_push_to_set_commute(name@);
            }
        } else {
            assert(names(self.files@).to_set() =~= names(self.files@).to_set().insert(name@));
        }
    }

    /// The files written, in the order in which they were first recorded.
    pub fn files(&self) -> (r: Vec<String>)
        ensures
            names(r@) == self.file_names(),
    {
        let mut r: Vec<String> = Vec::new();
        let mut i: usize = 0;
        while i < self.files.len()
            invariant
                i <= self.files.len(),
                names(r@) == names(self.files@).take(i as int),
            decreases self.files.len() - i,
        {
            let ghost before = r@;
            r.push(self.files[i].clone());
            assert(names(r@) =~= names(before).push(self.files@[i as int]@));
            assert(names(self.files@).take(i + 1) =~= names(self.files@).take(i as int).push(
                self.files@[i as int]@,
            ));
            i = i + 1;
        }
        assert(names(self.files@).take(self.files.len() as int) == names(self.files@));
        r
    }
}

/// What a lookup gives back of what was remembered: after a hash, source
/// or URL is remembered with a name, looking it up gives that name, and
/// every other key keeps what it gave before.
pub proof fn lemma_remembered_name_found(
    before: Map<Seq<char>, Seq<char>>,
    key: Seq<char>,
    name: Seq<char>,
    other: Seq<char>,
)
    ensures
        map_get(before.insert(key, name), key) == Some(name),
        other != key ==> map_get(before.insert(key, name), other) == map_get(before, other),
{
}

/// The file list after recording `name`: unchanged when it is there.
pub open spec fn with_file(files: Seq<Seq<char>>, name: Seq<char>) -> Seq<Seq<char>> {
    if files.contains(name) {
        files
    } else {
        files.push(name)
    }
}

/// What to do with a local image, in the order of the checks: a source
/// already copied, or content already stored, is reused; new content is
/// written under a new name.
#[derive(Debug, PartialEq, Eq)]
pub enum LocalStep {
    /// The image is stored under this name already.
    Reuse(String),
    /// The source is new: its content (and hash) must be read.
    NeedContent,
    /// The content is new: write it under this name.
    Write(String),
}

impl ImageRegistry {
    /// One local image: `source` is its resolved path, `hash` the short
    /// hash of its content once that has been read. A known source gives
    /// its name; else, without a hash, the content is asked for; else known
    /// content gives its name and the source is remembered with it; else the
    /// image gets its own name (`target_name`), remembered for its hash and
    /// its source. The file list records every name given out.
    pub fn local_image_step(&mut self, source: &str, hash: Option<&str>) -> (r: LocalStep)
        requires
            old(self).wf(),
        ensures
            final(self).wf(),
            final(self).url_names() == old(self).url_names(),
            old(self).source_names().dom().contains(source@) ==> {
                let n = old(self).source_names()[source@];
                &&& r matches LocalStep::Reuse(m) && m@ == n
                &&& final(self).source_names() == old(self).source_names()
                &&& final(self).hash_names() == old(self).hash_names()
                &&& final(self).file_names() == with_file(old(self).file_names(), n)
            },
            !old(self).source_names().dom().contains(source@) && hash is None ==> {
                &&& r == LocalStep::NeedContent
                &&& final(self).source_names() == old(self).source_names()
                &&& final(self).hash_names() == old(self).hash_names()
                &&& final(self).file_names() == old(self).file_names()
            },
            !old(self).source_names().dom().contains(source@) && hash is Some
                && old(self).hash_names().dom().contains(hash->0@) ==> {
                let n = old(self).hash_names()[hash->0@];
                &&& r matches LocalStep::Reuse(m) && m@ == n
                &&& final(self).source_names() == old(self).source_names().insert(source@, n)
                &&& final(self).hash_names() == old(self).hash_names()
                &&& final(self).file_names() == with_file(old(self).file_names(), n)
            },
            !old(self).source_names().dom().contains(source@) && hash is Some
                && !old(self).hash_names().dom().contains(hash->0@) ==> {
                let n = target_name_spec(source@, hash->0@);
                &&& r matches LocalStep::Write(m) && m@ == n
                &&& final(self).source_names() == old(self).source_names().insert(source@, n)
                &&& final(self).hash_names() == old(self).hash_names().insert(hash->0@, n)
                &&& final(self).file_names() == with_file(old(self).file_names(), n)
            },
    {
        match self.name_for_source(source) {
            Some(n) => {
                self.add_file(n.as_str());
                LocalStep::Reuse(n)
            },
            None => match hash {
                None => LocalStep::NeedContent,
                Some(h) => match self.name_for_hash(h) {
                    Some(n) => {
                        self.remember_source(source, n.as_str());
                        self.add_file(n.as_str());
                        LocalStep::Reuse(n)
                    },
                    None => {
                        let n = target_name(source, h);
                        self.remember_hash(h, n.as_str());
                        self.remember_source(source, n.as_str());
                        self.add_file(n.as_str());
                        LocalStep::Write(n)
                    },
                },
            },
        }
    }
}

/// The link that replaces an image's URL: `<folder>/<name>`.
pub fn link_url(dir_name: &str, name: &str) -> (r: String)
    ensures
        r@ == dir_name@ + "/"@ + name@,
{
    let mut s = String::new();
    append(&mut s, dir_name);
    append(&mut s, "/");
    append(&mut s, name);
    s
}

} // verus!
