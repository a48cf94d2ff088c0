use mdprint::cli::Lang;
use mdprint::hyphen::{hyphenate_word, Hyphenator};

const SHY: &str = "\u{ad}";

fn cs() -> Hyphenator {
    Hyphenator::new(Lang::Cs).unwrap()
}

#[test]
fn hyphenates_long_czech_words() {
    let h = cs();
    let out = h.hyphenate_text("nejneobhospodařovávatelnějšímu");
    assert!(out.contains(SHY), "{out:?}");
    let first = out.find(SHY).unwrap();
    let last = out.rfind(SHY).unwrap();
    assert!(out[..first].chars().count() >= 3);
    assert!(out[last..].chars().filter(|c| *c != '\u{ad}').count() >= 3);
}

#[test]
fn short_words_untouched() {
    let h = cs();
    for w in ["dům", "lesu", "pěti", "slovo"] {
        assert_eq!(h.hyphenate_text(w), w, "slovo {w:?} se nemá dělit");
    }
}

#[test]
fn interpunction_and_numbers_preserved() {
    let h = cs();
    let out = h.hyphenate_text("Nosník (železobetonový), rozpětí 12 m.");
    let stripped: String = out.chars().filter(|c| *c != '\u{ad}').collect();
    assert_eq!(stripped, "Nosník (železobetonový), rozpětí 12 m.");
    assert!(out.contains(SHY), "dlouhé slovo se má dělit: {out:?}");
}

#[test]
fn existing_soft_hyphens_respected() {
    let h = cs();
    let manual = "že\u{ad}lezobeton";
    assert_eq!(h.hyphenate_text(manual), manual);
}

#[test]
fn english_dictionary_loads_and_hyphenates() {
    let h = Hyphenator::new(Lang::En).unwrap();
    let out = h.hyphenate_text("hyphenation");
    assert!(out.contains(SHY), "{out:?}");
}

#[test]
fn german_dictionary_loads() {
    let h = Hyphenator::new(Lang::De).unwrap();
    let out = h.hyphenate_text("Donaudampfschifffahrt");
    let stripped: String = out.chars().filter(|c| *c != '\u{ad}').collect();
    assert_eq!(stripped, "Donaudampfschifffahrt");
}

#[test]
fn breaks_keep_margins_and_skip_bad_offsets() {
    // "abcdefgh": breaks at 1 and 7 are too close to the ends, 4 is used
    assert_eq!(hyphenate_word("abcdefgh", &vec![1, 4, 7]), "abcd\u{ad}efgh");
    // byte 3 falls inside "č" (bytes 2..4) of "abčdefgh": not a boundary
    assert_eq!(hyphenate_word("abčdefgh", &vec![3]), "abčdefgh");
    // "abčdefgh": byte 4 is after "abč" (three characters)
    assert_eq!(hyphenate_word("abčdefgh", &vec![4]), "abč\u{ad}defgh");
    // a break before the previous one is skipped
    assert_eq!(hyphenate_word("abcdefghij", &vec![5, 3]), "abcde\u{ad}fghij");
    // short words and words with their own soft hyphen stay as they are
    assert_eq!(hyphenate_word("abcde", &vec![3]), "abcde");
    assert_eq!(hyphenate_word("abc\u{ad}defgh", &vec![3]), "abc\u{ad}defgh");
}
