use comrak::nodes::NodeValue;
use comrak::{parse_document, Arena, Options};
use mdprint::cli::Lang;
use mdprint::document::{node_steps, NodeKind};
use mdprint::typo::dash::{em_dash, number_range, spaced_dash};
use mdprint::typo::misc::{apostrophe, ellipsis, multiply_sign, thousands_groups};
use mdprint::typo::nbsp::{
    abbreviations, dates, dates_de, german_abbreviations, initials, number_unit, paragraph_sign,
    single_letter_prepositions,
};
use mdprint::typo::quotes::{czech_quotes, double_low_quotes, english_quotes};
use mdprint::typo::{apply, transform};

fn table(f: fn(&str) -> String, cases: &[(&str, &str)]) {
    for (input, expected) in cases {
        assert_eq!(&f(input), expected, "vstup: {input:?}");
    }
}

#[test]
fn dashes() {
    table(
        spaced_dash,
        &[
            ("Praha - Brno", "Praha\u{a0}– Brno"),
            ("text - vsuvka - text", "text\u{a0}– vsuvka\u{a0}– text"),
            ("Praha – Brno", "Praha\u{a0}– Brno"),
            ("modro-zelený", "modro-zelený"),
            ("je-li", "je-li"),
        ],
    );
}

#[test]
fn em_dashes() {
    table(
        em_dash,
        &[
            ("word - word", "word\u{2014}word"),
            ("word -- word", "word\u{2014}word"),
            ("word--word", "word\u{2014}word"),
            ("wait – no", "wait\u{2014}no"),
            ("well-known", "well-known"),
            ("state-of-the-art", "state-of-the-art"),
        ],
    );
}

#[test]
fn ranges() {
    table(
        number_range,
        &[
            ("10-20", "10–20"),
            ("strany 5-8 a 9-12", "strany 5–8 a 9–12"),
            ("1918-1938", "1918–1938"),
            ("modro-zelený", "modro-zelený"),
        ],
    );
}

#[test]
fn ellipsis_rule() {
    table(
        ellipsis,
        &[
            ("a tak dále...", "a tak dále…"),
            ("a... b", "a… b"),
            ("beze změny.", "beze změny."),
        ],
    );
}

#[test]
fn multiply() {
    table(
        multiply_sign,
        &[
            ("2 x 3", "2\u{a0}×\u{a0}3"),
            ("40x60 cm", "40×60 cm"),
            ("2 x 3 x 4", "2\u{a0}×\u{a0}3\u{a0}×\u{a0}4"),
            ("axb", "axb"),
            ("text x text", "text x text"),
            ("0x1F", "0x1F"),
        ],
    );
}

#[test]
fn thousands() {
    table(
        thousands_groups,
        &[
            ("1 000", "1\u{202f}000"),
            ("1 000 000 Kč", "1\u{202f}000\u{202f}000 Kč"),
            ("10 500,75", "10\u{202f}500,75"),
            ("10000", "10000"),
            ("v roce 20 22", "v roce 20 22"),
        ],
    );
}

#[test]
fn prepositions() {
    table(
        single_letter_prepositions,
        &[
            ("k lesu", "k\u{a0}lesu"),
            ("Jdu v zimě o berlích", "Jdu v\u{a0}zimě o\u{a0}berlích"),
            ("A i U s K", "A\u{a0}i\u{a0}U\u{a0}s\u{a0}K"),
            ("(v závorce)", "(v\u{a0}závorce)"),
            ("„u citátu“", "„u\u{a0}citátu“"),
            ("kva s tančí", "kva s\u{a0}tančí"),
            ("kilo vody", "kilo vody"),
        ],
    );
}

#[test]
fn units() {
    table(
        number_unit,
        &[
            ("10 kg", "10\u{a0}kg"),
            ("25 °C", "25\u{a0}°C"),
            ("100 %", "100\u{a0}%"),
            ("210 GPa,", "210\u{a0}GPa,"),
            ("5 mm a 3 kN.", "5\u{a0}mm a 3\u{a0}kN."),
            ("1500 Kč", "1500\u{a0}Kč"),
            ("10 metrů", "10 metrů"),
            ("2 ml mléka", "2\u{a0}ml mléka"),
        ],
    );
}

#[test]
fn abbrevs() {
    table(
        abbreviations,
        &[
            ("č. 12", "č.\u{a0}12"),
            ("str. 45", "str.\u{a0}45"),
            ("tj. celek", "tj.\u{a0}celek"),
            ("např. tady", "např.\u{a0}tady"),
            ("viz obr. 3 a tab. 2", "viz obr.\u{a0}3 a tab.\u{a0}2"),
            ("dům. Pak", "dům. Pak"),
        ],
    );
}

#[test]
fn initials_and_dates() {
    table(
        initials,
        &[
            ("J. Novák", "J.\u{a0}Novák"),
            ("J. K. Tyl", "J.\u{a0}K.\u{a0}Tyl"),
            ("konec věty. Další", "konec věty. Další"),
        ],
    );
    table(
        dates,
        &[
            ("1. 1. 2026", "1.\u{a0}1.\u{a0}2026"),
            ("narozen 28. 10. 1918.", "narozen 28.\u{a0}10.\u{a0}1918."),
            ("5. července", "5.\u{a0}července"),
            ("5. kapitola", "5. kapitola"),
        ],
    );
}

#[test]
fn german_dates_and_abbrevs() {
    table(
        dates_de,
        &[
            ("am 1. 1. 2026", "am 1.\u{a0}1.\u{a0}2026"),
            ("am 3. Oktober 1990", "am 3.\u{a0}Oktober 1990"),
            ("das 5. Kapitel", "das 5. Kapitel"),
        ],
    );
    table(
        german_abbreviations,
        &[
            ("z. B. hier", "z.\u{a0}B. hier"),
            ("d. h. sofort", "d.\u{a0}h. sofort"),
            ("i. d. R. gilt", "i.\u{a0}d.\u{a0}R. gilt"),
            ("siehe Nr. 5 und S. 12", "siehe Nr.\u{a0}5 und S.\u{a0}12"),
            ("vgl. Abb. 3 und Tab. 2", "vgl. Abb.\u{a0}3 und Tab.\u{a0}2"),
            ("Haus. Der", "Haus. Der"),
        ],
    );
}

#[test]
fn paragraph() {
    table(
        paragraph_sign,
        &[("§ 12", "§\u{a0}12"), ("dle § 1058", "dle §\u{a0}1058")],
    );
}

#[test]
fn czech() {
    table(
        czech_quotes,
        &[
            ("řekl \"ahoj\" a šel", "řekl „ahoj“ a šel"),
            ("\"Celá věta.\"", "„Celá věta.“"),
            (
                "dvě \"slova\" a \"ještě\" jednou",
                "dvě „slova“ a „ještě“ jednou",
            ),
            ("vnořené 'царь' slovo", "vnořené ‚царь‘ slovo"),
            ("\"vně 'uvnitř' vně\"", "„vně ‚uvnitř‘ vně“"),
            ("d'Artagnan", "d'Artagnan"),
            ("deska 5\" široká", "deska 5\" široká"),
        ],
    );
}

#[test]
fn english() {
    table(
        english_quotes,
        &[
            ("he said \"hi\" there", "he said \u{201c}hi\u{201d} there"),
            ("nested 'word' here", "nested \u{2018}word\u{2019} here"),
        ],
    );
}

#[test]
fn english_pipeline() {
    assert_eq!(
        transform("He said \"hello\" to k friend...", Lang::En),
        "He said \u{201c}hello\u{201d} to k friend\u{2026}",
        "žádná česká pravidla (k se neváže)"
    );
    assert_eq!(
        transform("don't stop - see pages 10-20, load 10 kN", Lang::En),
        "don\u{2019}t stop\u{2014}see pages 10\u{2013}20, load 10\u{a0}kN"
    );
    assert_eq!(
        transform("1 000 000 cycles", Lang::En),
        "1 000 000 cycles",
        "tisícové U+202F se v EN nepoužívá"
    );
}

#[test]
fn german_pipeline() {
    assert_eq!(
        transform(
            "Er sagte \"Hallo\" - z. B. am 1. 1. 2026, siehe Nr. 5.",
            Lang::De
        ),
        "Er sagte „Hallo“\u{a0}– z.\u{a0}B. am 1.\u{a0}1.\u{a0}2026, siehe Nr.\u{a0}5."
    );
    assert_eq!(
        transform(
            "Die Last beträgt 10 kN, geht's um 1 000 000 Zyklen...",
            Lang::De
        ),
        "Die Last beträgt 10\u{a0}kN, geht\u{2019}s um 1\u{202f}000\u{202f}000 Zyklen\u{2026}"
    );
}

#[test]
fn czech_pipeline_combines_rules() {
    assert_eq!(
        transform("Jdu k lesu - je to 1 000 m...", Lang::Cs),
        "Jdu k\u{a0}lesu\u{a0}– je to 1\u{202f}000 m…"
    );
    // a unit binds to its number only before a space or punctuation
    assert_eq!(transform("je to 1 000 m.", Lang::Cs), "je to 1\u{202f}000\u{a0}m.");
}

#[test]
fn apply_transforms_every_text() {
    let mut texts = vec!["Jdu k lesu s ".to_string(), " vzorcem.".to_string()];
    apply(&mut texts, Lang::Cs);
    assert_eq!(texts[0], "Jdu k\u{a0}lesu s\u{a0}");
    assert_eq!(texts[1], " vzorcem.");
}

#[test]
fn apostrophe_only_between_letters() {
    assert_eq!(apostrophe("don't"), "don\u{2019}t");
    assert_eq!(apostrophe("'quoted"), "'quoted");
    assert_eq!(apostrophe("5' long"), "5' long");
}

#[test]
fn german_quotes_are_low_high() {
    assert_eq!(double_low_quotes("sagte \"Hallo\""), "sagte „Hallo“");
}

#[test]
fn rules_leave_their_own_output_alone() {
    let once = single_letter_prepositions("A i U s K v lese");
    assert_eq!(single_letter_prepositions(&once), once);
    let once = initials("J. K. Tyl");
    assert_eq!(initials(&once), once);
    let once = thousands_groups("1 000 000 Kč");
    assert_eq!(thousands_groups(&once), once);
}

#[test]
fn only_text_nodes_are_touched() {
    let arena = Arena::new();
    let mut opts = Options::default();
    opts.extension.math_dollars = true;
    let root = parse_document(
        &arena,
        "Jdu k lesu s `k lesu v kódu` a $k + v$ vzorcem.\n",
        &opts,
    );
    for node in root.descendants() {
        let kind = match &node.data.borrow().value {
            NodeValue::Text(_) => NodeKind::Text,
            NodeValue::Code(_) => NodeKind::Code,
            NodeValue::CodeBlock(_) => NodeKind::CodeBlock,
            NodeValue::Math(_) => NodeKind::Math,
            _ => NodeKind::Other,
        };
        if !node_steps(kind, false).typography {
            continue;
        }
        let mut data = node.data.borrow_mut();
        if let NodeValue::Text(t) = &mut data.value {
            let mut texts = vec![t.to_string()];
            apply(&mut texts, Lang::Cs);
            *t = texts.remove(0).into();
        }
    }

    let mut texts = String::new();
    let mut code = String::new();
    let mut math = String::new();
    for node in root.descendants() {
        match &node.data.borrow().value {
            NodeValue::Text(t) => texts.push_str(t),
            NodeValue::Code(c) => code.push_str(&c.literal),
            NodeValue::Math(m) => math.push_str(&m.literal),
            _ => {}
        }
    }
    assert!(texts.contains("k\u{a0}lesu"), "{texts:?}");
    assert!(texts.contains("s\u{a0}"), "{texts:?}");
    assert_eq!(code, "k lesu v kódu");
    assert_eq!(math, "k + v");
}
