use mdprint::parse::{collect_text, document_title, strip_delimiters, FrontMatter, Heading, TextPiece};

fn fm_with_title(title: Option<&str>) -> FrontMatter {
    FrontMatter {
        title: title.map(|s| s.to_string()),
        author: None,
        date: None,
        lang: None,
        version: None,
        template: None,
    }
}

#[test]
fn missing_front_matter_falls_back_to_h1() {
    let headings = vec![Heading { level: 1, text: "První nadpis".to_string() }];
    assert_eq!(document_title(None, &headings, "soubor"), "První nadpis");
    let fm = fm_with_title(Some("Pokus"));
    assert_eq!(document_title(Some(&fm), &headings, "soubor"), "Pokus");
}

#[test]
fn no_h1_falls_back_to_file_stem() {
    let headings = vec![Heading { level: 2, text: "Jen dvojka".to_string() }];
    assert_eq!(document_title(None, &headings, "soubor"), "soubor");
    assert_eq!(document_title(Some(&fm_with_title(None)), &vec![], "soubor"), "soubor");
}

#[test]
fn delimiters_are_stripped() {
    assert_eq!(strip_delimiters("---\ntitle: Pokus\n---\n"), "title: Pokus");
    assert_eq!(strip_delimiters("  title: x  "), "title: x");
    assert_eq!(strip_delimiters("------"), "");
}

#[test]
fn plain_text_of_pieces() {
    let pieces = vec![
        TextPiece::Text("První ".to_string()),
        TextPiece::Code("nadpis".to_string()),
        TextPiece::Break,
        TextPiece::Other,
        TextPiece::Text("konec".to_string()),
    ];
    assert_eq!(collect_text(&pieces), "První nadpis konec");
}
