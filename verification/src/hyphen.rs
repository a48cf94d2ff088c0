//! Soft hyphens (U+00AD) from the patterns of the `hyphenation` crate. A
//! word is hyphenated when it has at least six characters and no soft hyphen
//! of its own; no break stands closer than three characters to either end.
//! CSS `hyphens: manual` then uses a break only where a line wraps.

use hyphenation::{Hyphenator as _, Load, Standard};
use vstd::prelude::*;
use vstd::utf8::encode_utf8;

use crate::cli::Lang;
use crate::text::{alpha, append, from_chars, is_alpha, push_range, string_push, to_chars, SOFT_HYPHEN};

verus! {

pub const MIN_WORD_CHARS: usize = 6;

pub const MIN_MARGIN_CHARS: usize = 3;

/// Bytes of the UTF-8 text of the first `k` characters of `w` (as `str::len`
/// reports it).
pub open spec fn byte_offset(w: Seq<char>, k: int) -> usize {
    encode_utf8(w.take(k)).len() as usize
}

/// The character position at which the byte offset `b` falls, searched
/// from position `k` on; -1 when `b` is not the start of a character (or
/// the end) of `w`.
pub open spec fn break_index(w: Seq<char>, b: int, k: int) -> int
    decreases w.len() + 1 - k,
{
    if k < 0 || k > w.len() {
        -1
    } else if byte_offset(w, k) as int == b {
        k
    } else {
        break_index(w, b, k + 1)
    }
}

pub proof fn lemma_break_index(w: Seq<char>, b: int, k: int)
    requires
        0 <= k,
    ensures
        break_index(w, b, k) == -1 || k <= break_index(w, b, k) <= w.len(),
    decreases w.len() + 1 - k,
{
    if k <= w.len() && byte_offset(w, k) as int != b {
        lemma_break_index(w, b, k + 1);
    }
}

/// The breaks of `breaks` (byte offsets, in order) that are used: those at
/// a character boundary, at least three characters from both ends, and not
/// before the previous one. Gives the text up to the last used break, with
/// a soft hyphen after each piece, and that break's character position.
pub open spec fn apply_breaks(w: Seq<char>, breaks: Seq<usize>) -> (Seq<char>, int)
    decreases breaks.len(),
{
    if breaks.len() == 0 {
        (Seq::empty(), 0)
    } else {
        let (out, last) = apply_breaks(w, breaks.drop_last());
        let k = break_index(w, breaks.last() as int, 0);
        if k < 0 || k < MIN_MARGIN_CHARS || w.len() - k < MIN_MARGIN_CHARS || k < last {
            (out, last)
        } else {
            (out + w.subrange(last, k) + seq![SOFT_HYPHEN], k)
        }
    }
}

pub open spec fn hyphenate_word_spec(w: Seq<char>, breaks: Seq<usize>) -> Seq<char> {
    if w.len() < MIN_WORD_CHARS || w.contains(SOFT_HYPHEN) {
        w
    } else {
        let (out, last) = apply_breaks(w, breaks);
        out + w.subrange(last, w.len() as int)
    }
}

/// `s` without its soft hyphens.
pub open spec fn strip_shy(s: Seq<char>) -> Seq<char>
    decreases s.len(),
{
    if s.len() == 0 {
        Seq::empty()
    } else if s.last() == SOFT_HYPHEN {
        strip_shy(s.drop_last())
    } else {
        strip_shy(s.drop_last()).push(s.last())
    }
}

pub proof fn lemma_strip_shy_add(a: Seq<char>, b: Seq<char>)
    ensures
        strip_shy(a + b) == strip_shy(a) + strip_shy(b),
    decreases b.len(),
{
    if b.len() == 0 {
        assert(a + b =~= a);
    } else {
        assert((a + b).drop_last() =~= a + b.drop_last());
        lemma_strip_shy_add(a, b.drop_last());
    }
}

proof fn lemma_apply_breaks(w: Seq<char>, breaks: Seq<usize>)
    ensures
        0 <= apply_breaks(w, breaks).1 <= w.len(),
        strip_shy(apply_breaks(w, breaks).0) == strip_shy(w.take(apply_breaks(w, breaks).1)),
    decreases breaks.len(),
{
    if breaks.len() > 0 {
        lemma_apply_breaks(w, breaks.drop_last());
        lemma_break_index(w, breaks.last() as int, 0);
        let (out, last) = apply_breaks(w, breaks.drop_last());
        let k = break_index(w, breaks.last() as int, 0);
        if !(k < 0 || k < MIN_MARGIN_CHARS || w.len() - k < MIN_MARGIN_CHARS || k < last) {
            lemma_strip_shy_add(out + w.subrange(last, k), seq![SOFT_HYPHEN]);
            lemma_strip_shy_add(out, w.subrange(last, k));
            assert(strip_shy(seq![SOFT_HYPHEN]) == Seq::<char>::empty()) by {
                assert(seq![SOFT_HYPHEN].drop_last() =~= Seq::<char>::empty());
                assert(seq![SOFT_HYPHEN].last() == SOFT_HYPHEN);
                assert(strip_shy(Seq::<char>::empty()) == Seq::<char>::empty());
            }
            lemma_strip_shy_add(w.take(last), w.subrange(last, k));
            assert(w.take(last) + w.subrange(last, k) =~= w.take(k));
            assert(out + w.subrange(last, k) + seq![SOFT_HYPHEN] + Seq::<char>::empty() =~= out
                + w.subrange(last, k) + seq![SOFT_HYPHEN]);
        }
    }
}

/// Hyphenating a word only adds soft hyphens.
pub proof fn lemma_hyphenate_word_keeps_text(w: Seq<char>, breaks: Seq<usize>)
    ensures
        strip_shy(hyphenate_word_spec(w, breaks)) == strip_shy(w),
{
    if !(w.len() < MIN_WORD_CHARS || w.contains(SOFT_HYPHEN)) {
        lemma_apply_breaks(w, breaks);
        let (out, last) = apply_breaks(w, breaks);
        lemma_strip_shy_add(out, w.subrange(last, w.len() as int));
        lemma_strip_shy_add(w.take(last), w.subrange(last, w.len() as int));
        assert(w.take(last) + w.subrange(last, w.len() as int) =~= w);
    }
}

/// Every soft hyphen of `r` has at least three characters (soft hyphens
/// not counted) before it, and at least three after it in a word of `n`
/// characters.
pub open spec fn breaks_within_margins(r: Seq<char>, n: int) -> bool {
    forall|i: int|
        0 <= i < r.len() && r[i] == SOFT_HYPHEN ==> MIN_MARGIN_CHARS <= #[trigger] strip_shy(
            r.take(i),
        ).len() <= n - MIN_MARGIN_CHARS
}

proof fn lemma_strip_shy_none(s: Seq<char>)
    requires
        !s.contains(SOFT_HYPHEN),
    ensures
        strip_shy(s) == s,
    decreases s.len(),
{
    if s.len() > 0 {
        assert(!s.drop_last().contains(SOFT_HYPHEN)) by {
            if s.drop_last().contains(SOFT_HYPHEN) {
                let j = choose|j: int| 0 <= j < s.drop_last().len() && s.drop_last()[j] == SOFT_HYPHEN;
                assert(s[j] == SOFT_HYPHEN);
            }
        }
        lemma_strip_shy_none(s.drop_last());
        assert(s.last() != SOFT_HYPHEN) by {
            assert(s[s.len() - 1] == s.last());
        }
        assert(s.drop_last().push(s.last()) =~= s);
    }
}

proof fn lemma_apply_breaks_margins(w: Seq<char>, breaks: Seq<usize>)
    requires
        !w.contains(SOFT_HYPHEN),
    ensures
        breaks_within_margins(apply_breaks(w, breaks).0, w.len() as int),
        strip_shy(apply_breaks(w, breaks).0) == w.take(apply_breaks(w, breaks).1),
        0 <= apply_breaks(w, breaks).1 <= w.len(),
    decreases breaks.len(),
{
    lemma_apply_breaks(w, breaks);
    let (out2, last2) = apply_breaks(w, breaks);
    assert(!w.take(last2).contains(SOFT_HYPHEN)) by {
        if w.take(last2).contains(SOFT_HYPHEN) {
            let j = choose|j: int| 0 <= j < w.take(last2).len() && w.take(last2)[j] == SOFT_HYPHEN;
            assert(w[j] == SOFT_HYPHEN);
        }
    }
    lemma_strip_shy_none(w.take(last2));
    if breaks.len() > 0 {
        lemma_apply_breaks_margins(w, breaks.drop_last());
        let (out, last) = apply_breaks(w, breaks.drop_last());
        let k = break_index(w, breaks.last() as int, 0);
        lemma_break_index(w, breaks.last() as int, 0);
        if !(k < 0 || k < MIN_MARGIN_CHARS || w.len() - k < MIN_MARGIN_CHARS || k < last) {
            let piece = w.subrange(last, k);
            assert(out2 == out + piece + seq![SOFT_HYPHEN]);
            assert forall|i: int|
                0 <= i < out2.len() && out2[i] == SOFT_HYPHEN implies MIN_MARGIN_CHARS
                <= #[trigger] strip_shy(out2.take(i)).len() <= w.len() - MIN_MARGIN_CHARS by {
                if i < out.len() {
                    assert(out2.take(i) =~= out.take(i));
                    assert(out2[i] == out[i]);
                } else if i < out.len() + piece.len() {
                    assert(out2[i] == piece[i - out.len()]);
                    assert(piece[i - out.len()] == w[last + i - out.len()]);
                } else {
                    assert(i == out2.len() - 1);
                    assert(out2.take(i) =~= out + piece);
                    lemma_strip_shy_add(out, piece);
                    assert(!piece.contains(SOFT_HYPHEN)) by {
                        if piece.contains(SOFT_HYPHEN) {
                            let j = choose|j: int| 0 <= j < piece.len() && piece[j] == SOFT_HYPHEN;
                            assert(w[last + j] == SOFT_HYPHEN);
                        }
                    }
                    lemma_strip_shy_none(piece);
                    assert(w.take(last) + piece =~= w.take(k));
                }
            }
        }
    }
}

/// No soft hyphen that hyphenation adds stands closer than three
/// characters to either end of the word.
pub proof fn lemma_hyphen_margins(w: Seq<char>, breaks: Seq<usize>)
    requires
        !w.contains(SOFT_HYPHEN),
    ensures
        breaks_within_margins(hyphenate_word_spec(w, breaks), w.len() as int),
{
    let r = hyphenate_word_spec(w, breaks);
    if w.len() < MIN_WORD_CHARS {
        assert forall|i: int| 0 <= i < r.len() && r[i] == SOFT_HYPHEN implies MIN_MARGIN_CHARS
            <= #[trigger] strip_shy(r.take(i)).len() <= w.len() - MIN_MARGIN_CHARS by {
            assert(w[i] == SOFT_HYPHEN);
        }
    } else {
        lemma_apply_breaks_margins(w, breaks);
        let (out, last) = apply_breaks(w, breaks);
        let rest = w.subrange(last, w.len() as int);
        assert forall|i: int| 0 <= i < r.len() && r[i] == SOFT_HYPHEN implies MIN_MARGIN_CHARS
            <= #[trigger] strip_shy(r.take(i)).len() <= w.len() - MIN_MARGIN_CHARS by {
            if i < out.len() {
                assert(r.take(i) =~= out.take(i));
                assert(r[i] == out[i]);
            } else {
                assert(r[i] == rest[i - out.len()]);
                assert(rest[i - out.len()] == w[last + i - out.len()]);
            }
        }
    }
}

/// The byte offset of every character position of `w`, `0..=len`.
fn byte_offsets(w: &Vec<char>) -> (r: Vec<usize>)
    ensures
        r@.len() == w@.len() + 1,
        forall|k: int| 0 <= k <= w@.len() ==> r@[k] == byte_offset(w@, k),
{
    let mut r: Vec<usize> = Vec::new();
    let mut prefix = String::new();
    let mut k: usize = 0;
    assert(w@.take(0) =~= prefix@);
    r.push(prefix.as_str().len());
    while k < w.len()
        invariant
            k <= w@.len(),
            prefix@ == w@.take(k as int),
            r@.len() == k + 1,
            forall|t: int| 0 <= t <= k ==> r@[t] == byte_offset(w@, t),
        decreases w.len() - k,
    {
        string_push(&mut prefix, w[k]);
        assert(prefix@ == w@.take(k + 1));
        r.push(prefix.as_str().len());
        k = k + 1;
    }
    r
}

fn break_index_exec(offsets: &Vec<usize>, w: &Vec<char>, b: usize) -> (r: Option<usize>)
    requires
        offsets@.len() == w@.len() + 1,
        forall|k: int| 0 <= k <= w@.len() ==> offsets@[k] == byte_offset(w@, k),
    ensures
        match r {
            Some(k) => k as int == break_index(w@, b as int, 0),
            None => break_index(w@, b as int, 0) == -1,
        },
{
    let mut k: usize = 0;
    while k < offsets.len()
        invariant
            k <= offsets@.len() == w@.len() + 1,
            forall|t: int| 0 <= t <= w@.len() ==> offsets@[t] == byte_offset(w@, t),
            break_index(w@, b as int, k as int) == break_index(w@, b as int, 0),
        decreases offsets.len() - k,
    {
        if offsets[k] == b {
            return Some(k);
        }
        k = k + 1;
    }
    None
}

/// A word with soft hyphens at the given breaks (byte offsets into the
/// word, as the dictionary reports them).
pub fn hyphenate_word(word: &str, breaks: &Vec<usize>) -> (r: String)
    ensures
        r@ == hyphenate_word_spec(word@, breaks@),
{
    let w = to_chars(word);
    let n = w.len();
    let mut has_shy = false;
    let mut i: usize = 0;
    while i < n
        invariant
            i <= n == w@.len(),
            has_shy == (exists|t: int| 0 <= t < i && w@[t] == SOFT_HYPHEN),
        decreases n - i,
    {
        if w[i] == SOFT_HYPHEN {
            has_shy = true;
        }
        i = i + 1;
    }
    assert(has_shy == w@.contains(SOFT_HYPHEN));
    if n < MIN_WORD_CHARS || has_shy {
        return from_chars(&w);
    }
    let offsets = byte_offsets(&w);
    let mut out: Vec<char> = Vec::new();
    let mut last: usize = 0;
    let mut j: usize = 0;
    while j < breaks.len()
        invariant
            j <= breaks@.len(),
            n == w@.len(),
            offsets@.len() == w@.len() + 1,
            forall|k: int| 0 <= k <= w@.len() ==> offsets@[k] == byte_offset(w@, k),
            (out@, last as int) == apply_breaks(w@, breaks@.take(j as int)),
            last <= n,
        decreases breaks.len() - j,
    {
        assert(breaks@.take(j + 1).drop_last() == breaks@.take(j as int));
        proof {
            lemma_break_index(w@, breaks@[j as int] as int, 0);
            lemma_apply_breaks(w@, breaks@.take(j + 1));
        }
        match break_index_exec(&offsets, &w, breaks[j]) {
            Some(k) => {
                if k >= MIN_MARGIN_CHARS && n - k >= MIN_MARGIN_CHARS && k >= last {
                    push_range(&mut out, &w, last, k);
                    out.push(SOFT_HYPHEN);
                    last = k;
                }
            },
            None => {},
        }
        j = j + 1;
    }
    assert(breaks@.take(breaks.len() as int) == breaks@);
    push_range(&mut out, &w, last, n);
    from_chars(&out)
}

/// Letters and soft hyphens make up words; anything else stands between
/// them.
pub open spec fn is_word_char(c: char) -> bool {
    is_alpha(c) || c == SOFT_HYPHEN
}

/// The breaks a dictionary gives a word, from the map of its contents.
pub open spec fn breaks_for(m: Map<Seq<char>, Seq<usize>>, w: Seq<char>) -> Seq<usize> {
    m[w]
}

/// Cuts `s` into words and the rest, left to right, each word hyphenated at
/// the breaks that `m` gives it. The state: the text so far and the current
/// word.
pub open spec fn hyph_scan(s: Seq<char>, m: Map<Seq<char>, Seq<usize>>) -> (Seq<char>, Seq<char>)
    decreases s.len(),
{
    if s.len() == 0 {
        (Seq::empty(), Seq::empty())
    } else {
        let (out, word) = hyph_scan(s.drop_last(), m);
        let c = s.last();
        if is_word_char(c) {
            (out, word.push(c))
        } else if word.len() == 0 {
            (out.push(c), word)
        } else {
            (out + hyphenate_word_spec(word, breaks_for(m, word)) + seq![c], Seq::empty())
        }
    }
}

/// The text with each word hyphenated at the breaks that `m` gives it.
pub open spec fn hyphenate_text_spec(s: Seq<char>, m: Map<Seq<char>, Seq<usize>>) -> Seq<char> {
    let (out, word) = hyph_scan(s, m);
    if word.len() == 0 {
        out
    } else {
        out + hyphenate_word_spec(word, breaks_for(m, word))
    }
}

proof fn lemma_hyph_scan_keeps_text(s: Seq<char>, m: Map<Seq<char>, Seq<usize>>)
    ensures
        strip_shy(hyph_scan(s, m).0 + hyph_scan(s, m).1) == strip_shy(s),
    decreases s.len(),
{
    if s.len() > 0 {
        let p = s.drop_last();
        lemma_hyph_scan_keeps_text(p, m);
        let (out, word) = hyph_scan(p, m);
        let c = s.last();
        assert(p.push(c) =~= s);
        lemma_strip_shy_add(p, seq![c]);
        assert(p + seq![c] =~= s);
        if is_word_char(c) {
            assert(out + word.push(c) =~= (out + word) + seq![c]);
            lemma_strip_shy_add(out + word, seq![c]);
        } else if word.len() == 0 {
            assert(out + word =~= out);
            assert(out.push(c) + Seq::<char>::empty() =~= out + seq![c]);
            lemma_strip_shy_add(out, seq![c]);
        } else {
            let h = hyphenate_word_spec(word, breaks_for(m, word));
            lemma_hyphenate_word_keeps_text(word, breaks_for(m, word));
            assert(out + h + seq![c] + Seq::<char>::empty() =~= (out + h) + seq![c]);
            lemma_strip_shy_add(out + h, seq![c]);
            lemma_strip_shy_add(out, h);
            lemma_strip_shy_add(out, word);
        }
    }
}

/// Hyphenating a text only adds soft hyphens: without them the result is
/// the text itself, whatever breaks the dictionary gives.
pub proof fn lemma_hyphenate_text_keeps_text(s: Seq<char>, m: Map<Seq<char>, Seq<usize>>)
    ensures
        strip_shy(hyphenate_text_spec(s, m)) == strip_shy(s),
{
    lemma_hyph_scan_keeps_text(s, m);
    let (out, word) = hyph_scan(s, m);
    if word.len() == 0 {
        assert(out + word =~= out);
    } else {
        lemma_hyphenate_word_keeps_text(word, breaks_for(m, word));
        lemma_strip_shy_add(out, word);
        lemma_strip_shy_add(out, hyphenate_word_spec(word, breaks_for(m, word)));
    }
}

proof fn lemma_scan_word(p: Seq<char>, w: Seq<char>, m: Map<Seq<char>, Seq<usize>>, k: int)
    requires
        0 <= k <= w.len(),
        hyph_scan(p, m).1.len() == 0,
        forall|i: int| 0 <= i < w.len() ==> is_alpha(#[trigger] w[i]) || w[i] == SOFT_HYPHEN,
    ensures
        hyph_scan(p + w.take(k), m) == (hyph_scan(p, m).0, w.take(k)),
    decreases k,
{
    if k == 0 {
        assert(p + w.take(0) =~= p);
        assert(w.take(0) =~= hyph_scan(p, m).1);
    } else {
        lemma_scan_word(p, w, m, k - 1);
        assert((p + w.take(k)).drop_last() =~= p + w.take(k - 1));
        assert((p + w.take(k)).last() == w[k - 1]);
        assert(w.take(k - 1).push(w[k - 1]) =~= w.take(k));
    }
}

/// A word, a run of alphabetic characters (letters with diacritics as much
/// as plain ones) and soft hyphens, is hyphenated whole: at the breaks that
/// the dictionary holds for the whole run. So it is on its own, between two
/// spaces, and next to another word with any other character between them.
pub proof fn lemma_word_hyphenated_whole(
    w: Seq<char>,
    v: Seq<char>,
    c: char,
    m: Map<Seq<char>, Seq<usize>>,
)
    requires
        w.len() > 0,
        forall|i: int| 0 <= i < w.len() ==> is_alpha(#[trigger] w[i]) || w[i] == SOFT_HYPHEN,
        v.len() > 0,
        forall|i: int| 0 <= i < v.len() ==> is_alpha(#[trigger] v[i]) || v[i] == SOFT_HYPHEN,
        !is_alpha(c),
        c != SOFT_HYPHEN,
    ensures
        hyphenate_text_spec(w + seq![c] + v, m) == hyphenate_word_spec(w, m[w]) + seq![c]
            + hyphenate_word_spec(v, m[v]),
        hyphenate_text_spec(w, m) == hyphenate_word_spec(w, m[w]),
        hyphenate_text_spec(seq![' '] + w + seq![' '], m) == seq![' '] + hyphenate_word_spec(
            w,
            m[w],
        ) + seq![' '],
{
    let e = Seq::<char>::empty();
    assert(hyph_scan(e, m) == (e, e));
    lemma_scan_word(e, w, m, w.len() as int);
    assert(e + w.take(w.len() as int) =~= w);
    assert(w.take(w.len() as int) =~= w);
    assert(e + hyphenate_word_spec(w, m[w]) =~= hyphenate_word_spec(w, m[w]));
    let sp = seq![' '];
    assert(sp.drop_last() =~= e);
    assert(!is_alpha(' '));
    assert(hyph_scan(sp, m) == (sp, e)) by {
        assert(e.push(' ') =~= sp);
    }
    lemma_scan_word(sp, w, m, w.len() as int);
    let t = sp + w + sp;
    assert(sp + w.take(w.len() as int) =~= sp + w);
    assert(t.drop_last() =~= sp + w);
    assert(t.last() == ' ');
    assert(hyph_scan(t, m) == (sp + hyphenate_word_spec(w, breaks_for(m, w)) + seq![' '], e));
    let hw = hyphenate_word_spec(w, m[w]);
    let wc = w + seq![c];
    assert(wc.drop_last() =~= e + w.take(w.len() as int));
    assert(wc.last() == c);
    assert(hyph_scan(wc, m) == (hw + seq![c], e)) by {
        assert(e + hw + seq![c] =~= hw + seq![c]);
    }
    lemma_scan_word(wc, v, m, v.len() as int);
    assert(v.take(v.len() as int) =~= v);
    assert(wc + v.take(v.len() as int) =~= w + seq![c] + v);
    assert(hyph_scan(w + seq![c] + v, m) == (hw + seq![c], v));
    assert(hw + seq![c] + hyphenate_word_spec(v, m[v]) =~= hw + seq![c]
        + hyphenate_word_spec(v, m[v]));
}

/// What a hyphenation dictionary holds: for every word, the byte offsets
/// at which it breaks the word.
pub uninterp spec fn dictionary_breaks_map(dict: Standard) -> Map<Seq<char>, Seq<usize>>;

/// What the dictionary embedded for `lang` holds (the patterns the
/// `embed_all` feature of `hyphenation` compiles in).
pub uninterp spec fn embedded_breaks(lang: Lang) -> Map<Seq<char>, Seq<usize>>;

/// `Standard::from_embedded` for the dictionary of `lang` (Czech, US
/// English, German 1996 spelling). The contract claims that the embedded
/// dictionary is there (the crate is built with `embed_all`) and that what
/// it holds is the named contents of that language's dictionary.
#[verifier::external_body]
fn embedded_dictionary(lang: Lang) -> (r: Option<Standard>)
    ensures
        r is Some,
        r is Some ==> dictionary_breaks_map(r->0) == embedded_breaks(lang),
{
    let language = match lang {
        Lang::Cs => hyphenation::Language::Czech,
        Lang::En => hyphenation::Language::EnglishUS,
        Lang::De => hyphenation::Language::German1996,
    };
    match Standard::from_embedded(language) {
        Ok(d) => Some(d),
        Err(_) => None,
    }
}

/// `Standard::hyphenate(word).breaks`: the byte offsets at which the
/// dictionary breaks the word. The contract claims that they are what the
/// dictionary holds for that word; the caller checks each one.
#[verifier::external_body]
fn dictionary_breaks(dict: &Standard, word: &str) -> (r: Vec<usize>)
    ensures
        r@ == dictionary_breaks_map(*dict)[word@],
{
    dict.hyphenate(word).breaks
}

#[verifier::external_type_specification]
#[verifier::external_body]
pub struct ExStandard(Standard);

/// The name of the dictionary of a language, as the error message gives it.
pub open spec fn dictionary_name(lang: Lang) -> Seq<char> {
    match lang {
        Lang::Cs => "Czech"@,
        Lang::En => "EnglishUS"@,
        Lang::De => "German1996"@,
    }
}

pub open spec fn missing_dictionary_text(lang: Lang) -> Seq<char> {
    "embedovaný slovník dělení pro "@ + dictionary_name(lang) + " chybí"@
}

/// Inserts soft hyphens with the dictionary of one language.
pub struct Hyphenator {
    dict: Standard,
}

impl Hyphenator {
    /// The breaks that this hyphenator's dictionary holds.
    pub closed spec fn breaks(&self) -> Map<Seq<char>, Seq<usize>> {
        dictionary_breaks_map(self.dict)
    }

    /// The hyphenator of `lang`, with that language's embedded dictionary.
    pub fn new(lang: Lang) -> (r: Result<Hyphenator, String>)
        ensures
            r matches Ok(h) && h.breaks() == embedded_breaks(lang),
    {
        match embedded_dictionary(lang) {
            Some(dict) => Ok(Hyphenator { dict }),
            None => {
                let mut m = String::new();
                append(&mut m, "embedovaný slovník dělení pro ");
                match lang {
                    Lang::Cs => append(&mut m, "Czech"),
                    Lang::En => append(&mut m, "EnglishUS"),
                    Lang::De => append(&mut m, "German1996"),
                }
                append(&mut m, " chybí");
                Err(m)
            },
        }
    }

    /// The text with its words hyphenated: cut into runs of letters (and
    /// soft hyphens) and the rest, each run hyphenated at the breaks that
    /// the dictionary holds for it.
    pub fn hyphenate_text(&self, text: &str) -> (r: String)
        ensures
            r@ == hyphenate_text_spec(text@, self.breaks()),
            strip_shy(r@) == strip_shy(text@),
    {
        let v = to_chars(text);
        let mut out = String::new();
        let mut word: Vec<char> = Vec::new();
        let mut i: usize = 0;
        while i < v.len()
            invariant
                i <= v@.len(),
                v@ == text@,
                hyph_scan(v@.take(i as int), self.breaks()) == (out@, word@),
            decreases v.len() - i,
        {
            let c = v[i];
            assert(v@.take(i + 1).drop_last() == v@.take(i as int));
            if alpha(c) || c == SOFT_HYPHEN {
                word.push(c);
            } else if word.len() == 0 {
                string_push(&mut out, c);
            } else {
                let w = from_chars(&word);
                let breaks = dictionary_breaks(&self.dict, w.as_str());
                let h = hyphenate_word(w.as_str(), &breaks);
                append(&mut out, h.as_str());
                string_push(&mut out, c);
                word = Vec::new();
            }
            i = i + 1;
        }
        assert(v@.take(v.len() as int) == v@);
        if word.len() > 0 {
            let w = from_chars(&word);
            let breaks = dictionary_breaks(&self.dict, w.as_str());
            let h = hyphenate_word(w.as_str(), &breaks);
            append(&mut out, h.as_str());
        }
        proof {
            lemma_hyphenate_text_keeps_text(text@, self.breaks());
        }
        out
    }
}

} // verus!
