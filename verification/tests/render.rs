use mdprint::cli::Lang;
use mdprint::config::Company;
use mdprint::parse::{FrontMatter, Heading};
use mdprint::render::{build_toc, byline, company_line, format_date, lang_code, toc_title};

#[test]
fn czech_date_from_iso() {
    assert_eq!(format_date("2026-09-02", Lang::Cs), "2.\u{a0}9.\u{a0}2026");
    assert_eq!(format_date("léto 2026", Lang::Cs), "léto 2026");
    assert_eq!(format_date("2026-09-02", Lang::En), "2026-09-02");
}

#[test]
fn german_date_is_din() {
    assert_eq!(format_date("2026-09-04", Lang::De), "04.09.2026");
}

fn fm(author: Option<&str>, date: Option<&str>, version: Option<&str>) -> FrontMatter {
    FrontMatter {
        title: Some("T".to_string()),
        author: author.map(|s| s.to_string()),
        date: date.map(|s| s.to_string()),
        lang: None,
        version: version.map(|s| s.to_string()),
        template: None,
    }
}

#[test]
fn version_appears_in_byline_parts() {
    let f = fm(Some("A. B."), Some("2026-09-02"), Some("1.2"));
    assert_eq!(
        byline(Some(&f), Lang::Cs).as_deref(),
        Some("A. B. · 2.\u{a0}9.\u{a0}2026 · verze 1.2")
    );
    let f = fm(None, None, Some("3"));
    assert_eq!(byline(Some(&f), Lang::Cs).as_deref(), Some("verze 3"));
    let f = fm(None, None, None);
    assert_eq!(byline(Some(&f), Lang::Cs), None);
    assert_eq!(byline(None, Lang::En), None);
}

#[test]
fn company_line_joins_present_parts() {
    let c = Company {
        name: Some("Toml a.s.".to_string()),
        address: Some("Brno".to_string()),
        ico: Some("12345678".to_string()),
        dic: None,
        web: Some("demo.example".to_string()),
        email: None,
    };
    assert_eq!(company_line(&c), "Brno · IČ 12345678 · demo.example");
}

#[test]
fn labels_by_language() {
    assert_eq!(lang_code(Lang::De), "de");
    assert_eq!(toc_title(Lang::Cs), "Obsah");
    assert_eq!(toc_title(Lang::En), "Contents");
    assert_eq!(toc_title(Lang::De), "Inhalt");
}

fn h(level: u8, text: &str) -> Heading {
    Heading { level, text: text.to_string() }
}

#[test]
fn toc_nests_levels_and_dedups_ids() {
    let hs = vec![
        h(1, "Úvod"),
        h(2, "Česká sekce"),
        h(3, "Detail"),
        h(4, "Hluboký nadpis mimo TOC"),
        h(2, "Česká sekce"),
    ];
    let toc = build_toc(&hs, Lang::Cs).unwrap();
    assert!(toc.starts_with("<nav class=\"toc\">\n<h2 class=\"toc-title\">Obsah</h2>\n"));
    for anchor in ["#úvod", "#česká-sekce", "#detail", "#česká-sekce-1"] {
        assert!(toc.contains(&format!("<a href=\"{anchor}\">")), "chybí TOC odkaz {anchor}");
    }
    assert!(!toc.contains("#hluboký-nadpis-mimo-toc\">"));
    assert_eq!(toc.matches("<ol>").count(), 3);
    assert_eq!(toc.matches("</ol>").count(), 3);
}

#[test]
fn toc_without_headings_is_none() {
    assert!(build_toc(&vec![h(4, "Hluboko")], Lang::Cs).is_none());
    assert!(build_toc(&vec![], Lang::En).is_none());
}

#[test]
fn toc_ids_take_the_first_free_suffix_over_all_headings() {
    let toc = build_toc(&vec![h(4, "x"), h(2, "x"), h(2, "x-1"), h(2, "x")], Lang::En).unwrap();
    assert!(toc.contains("<a href=\"#x-1\">x</a>"), "{toc}");
    assert!(toc.contains("<a href=\"#x-1-1\">x-1</a>"), "{toc}");
    assert!(toc.contains("<a href=\"#x-2\">x</a>"), "{toc}");
    assert!(!toc.contains("<a href=\"#x\">"), "{toc}");
}

#[test]
fn toc_level_jumps_open_a_list_per_level() {
    let toc = build_toc(&vec![h(1, "A"), h(3, "B")], Lang::En).unwrap();
    assert_eq!(
        toc,
        "<nav class=\"toc\">\n<h2 class=\"toc-title\">Contents</h2>\n<ol>\n<li><a href=\"#a\">A</a>\n<ol>\n<ol>\n<li><a href=\"#b\">B</a>\n</li>\n</ol>\n</li>\n</ol>\n</li>\n</ol>\n</nav>\n"
    );
    for hs in [
        vec![h(1, "A"), h(3, "B")],
        vec![h(2, "A"), h(1, "B")],
        vec![h(3, "A"), h(1, "B"), h(3, "C"), h(2, "D")],
    ] {
        let toc = build_toc(&hs, Lang::Cs).unwrap();
        assert_eq!(toc.matches("<ol>").count(), toc.matches("</ol>").count(), "{toc}");
        assert_eq!(toc.matches("<li><a href=").count(), hs.len(), "{toc}");
    }
}

#[test]
fn toc_without_level_jumps_is_balanced() {
    for hs in [
        vec![h(1, "A"), h(2, "B"), h(3, "C"), h(1, "D")],
        vec![h(2, "A"), h(3, "B"), h(2, "C"), h(3, "D"), h(3, "E")],
        vec![h(3, "A"), h(3, "B")],
    ] {
        let toc = build_toc(&hs, Lang::De).unwrap();
        assert_eq!(toc.matches("<li>").count(), toc.matches("</li>").count(), "{toc}");
        assert_eq!(toc.matches("<ol>").count(), toc.matches("</ol>").count(), "{toc}");
    }
}
