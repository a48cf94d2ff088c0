//! Microtypography on the text nodes of a document. Only text is touched —
//! code, mathematics, URLs and attributes never reach these functions.
//! Rules after Pecina (*Knihy a typografie*), ČSN 01 6910 and DIN 5008; each
//! rule is a function of its own.

pub mod dash;
pub mod misc;
pub mod nbsp;
pub mod quotes;

use vstd::prelude::*;

use crate::cli::Lang;
use crate::text::{from_chars, to_chars};
use dash::{em_dash_chars, em_dash_spec, number_range_chars, number_range_spec, spaced_dash_chars, spaced_dash_spec};
use misc::{
    apostrophe_chars,
    apostrophe_spec,
    ellipsis_chars,
    ellipsis_spec,
    multiply_sign_chars,
    multiply_sign_spec,
    thousands_groups_chars,
    thousands_spec,
};
use nbsp::{
    abbreviations_chars,
    abbreviations_spec,
    dates_chars,
    dates_de_chars,
    dates_de_spec,
    dates_spec,
    german_abbreviations_chars,
    german_abbreviations_spec,
    initials_chars,
    initials_pass,
    number_unit_chars,
    number_unit_spec,
    paragraph_sign_chars,
    paragraph_sign_spec,
    prepositions_pass,
    single_letter_prepositions_chars,
};
use quotes::{czech_quotes_chars, czech_quotes_spec, english_quotes_chars, english_quotes_spec};

verus! {

/// The Czech rules, in their order: quotes before dashes (so that
/// `"a" - "b"` does not confuse the pairing), the apostrophe after the single
/// quotes are paired, thousands groups after units (both read digits).
pub open spec fn czech_spec(s: Seq<char>) -> Seq<char> {
    let s = czech_quotes_spec(s);
    let s = apostrophe_spec(s);
    let s = ellipsis_spec(s);
    let s = spaced_dash_spec(s);
    let s = number_range_spec(s);
    let s = multiply_sign_spec(s);
    let s = prepositions_pass(prepositions_pass(s));
    let s = number_unit_spec(s);
    let s = abbreviations_spec(s);
    let s = initials_pass(initials_pass(s));
    let s = dates_spec(s);
    let s = paragraph_sign_spec(s);
    thousands_spec(s)
}

/// The English rules: no Czech binding; number and unit is an SI
/// convention; English groups thousands with commas, so U+202F is not used.
pub open spec fn english_spec(s: Seq<char>) -> Seq<char> {
    let s = english_quotes_spec(s);
    let s = apostrophe_spec(s);
    let s = ellipsis_spec(s);
    let s = em_dash_spec(s);
    let s = number_range_spec(s);
    let s = multiply_sign_spec(s);
    number_unit_spec(s)
}

/// The German rules: the Gedankenstrich is a spaced en dash as in Czech.
pub open spec fn german_spec(s: Seq<char>) -> Seq<char> {
    let s = czech_quotes_spec(s);
    let s = apostrophe_spec(s);
    let s = ellipsis_spec(s);
    let s = spaced_dash_spec(s);
    let s = number_range_spec(s);
    let s = multiply_sign_spec(s);
    let s = number_unit_spec(s);
    let s = german_abbreviations_spec(s);
    let s = dates_de_spec(s);
    let s = paragraph_sign_spec(s);
    thousands_spec(s)
}

pub open spec fn transform_spec(s: Seq<char>, lang: Lang) -> Seq<char> {
    match lang {
        Lang::Cs => czech_spec(s),
        Lang::En => english_spec(s),
        Lang::De => german_spec(s),
    }
}

pub fn transform_chars(s: &Vec<char>, lang: Lang) -> (r: Vec<char>)
    ensures
        r@ == transform_spec(s@, lang),
{
    match lang {
        Lang::Cs => {
            let s = czech_quotes_chars(s);
            let s = apostrophe_chars(&s);
            let s = ellipsis_chars(&s);
            let s = spaced_dash_chars(&s);
            let s = number_range_chars(&s);
            let s = multiply_sign_chars(&s);
            let s = single_letter_prepositions_chars(&s);
            let s = number_unit_chars(&s);
            let s = abbreviations_chars(&s);
            let s = initials_chars(&s);
            let s = dates_chars(&s);
            let s = paragraph_sign_chars(&s);
            thousands_groups_chars(&s)
        },
        Lang::En => {
            let s = english_quotes_chars(s);
            let s = apostrophe_chars(&s);
            let s = ellipsis_chars(&s);
            let s = em_dash_chars(&s);
            let s = number_range_chars(&s);
            let s = multiply_sign_chars(&s);
            number_unit_chars(&s)
        },
        Lang::De => {
            let s = czech_quotes_chars(s);
            let s = apostrophe_chars(&s);
            let s = ellipsis_chars(&s);
            let s = spaced_dash_chars(&s);
            let s = number_range_chars(&s);
            let s = multiply_sign_chars(&s);
            let s = number_unit_chars(&s);
            let s = german_abbreviations_chars(&s);
            let s = dates_de_chars(&s);
            let s = paragraph_sign_chars(&s);
            thousands_groups_chars(&s)
        },
    }
}

/// All the rules of `lang`, in their order, on one text.
pub fn transform(text: &str, lang: Lang) -> (r: String)
    ensures
        r@ == transform_spec(text@, lang),
{
    from_chars(&transform_chars(&to_chars(text), lang))
}

/// Applies the typography to every text node of a document, given in
/// document order; nodes of any other kind are never passed here.
pub fn apply(texts: &mut Vec<String>, lang: Lang)
    ensures
        final(texts)@.len() == old(texts)@.len(),
        forall|i: int|
            0 <= i < old(texts)@.len() ==> #[trigger] final(texts)@[i]@ == transform_spec(
                old(texts)@[i]@,
                lang,
            ),
{
    let mut i: usize = 0;
    while i < texts.len()
        invariant
            i <= texts.len(),
            texts@.len() == old(texts)@.len(),
            forall|k: int| 0 <= k < i ==> #[trigger] texts@[k]@ == transform_spec(old(texts)@[k]@, lang),
            forall|k: int| i <= k < texts@.len() ==> #[trigger] texts@[k] == old(texts)@[k],
        decreases texts.len() - i,
    {
        let t = transform(texts[i].as_str(), lang);
        texts.set(i, t);
        i = i + 1;
    }
}

} // verus!
