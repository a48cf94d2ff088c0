use mdprint::assets::{
    fonts_css, font_face_css, image_data_uri, katex_fonts_css, png_data_uri, FontFace, KatexFont,
};

fn face(family: &str, weight: u16, style: &str) -> FontFace {
    // WOFF2 data starts with the magic "wOF2"
    FontFace {
        family: family.to_string(),
        weight,
        style: style.to_string(),
        bytes: b"wOF2\x00\x01\x00\x00font".to_vec(),
    }
}

fn embedded_faces() -> Vec<FontFace> {
    vec![
        face("Libertinus Serif", 400, "normal"),
        face("Libertinus Serif", 400, "italic"),
        face("Libertinus Serif", 700, "normal"),
        face("Libertinus Serif", 700, "italic"),
        face("Libertinus Sans", 400, "normal"),
        face("Libertinus Sans", 400, "italic"),
        face("Libertinus Sans", 700, "normal"),
        face("JetBrains Mono", 400, "normal"),
        face("JetBrains Mono", 400, "italic"),
        face("JetBrains Mono", 700, "normal"),
    ]
}

#[test]
fn fonts_css_has_all_faces() {
    let faces = embedded_faces();
    let css = fonts_css(&faces);
    assert_eq!(css.matches("@font-face").count(), faces.len());
    assert!(css.contains("Libertinus Serif"));
    assert!(css.contains("JetBrains Mono"));
    // WOFF2 magic "wOF2" in base64 starts with "d09G"
    assert_eq!(css.matches("base64,d09G").count(), faces.len());
}

#[test]
fn font_face_block_is_exact() {
    let css = font_face_css("X", 700, "italic", b"abc");
    assert_eq!(
        css,
        "@font-face{font-family:'X';font-weight:700;font-style:italic;src:url(data:font/woff2;base64,YWJj) format('woff2');}\n"
    );
}

#[test]
fn data_uris() {
    assert_eq!(png_data_uri(b"png"), "data:image/png;base64,cG5n");
    assert_eq!(
        image_data_uri("image/svg+xml", b"<svg/>"),
        "data:image/svg+xml;base64,PHN2Zy8+"
    );
    assert_eq!(png_data_uri(b""), "data:image/png;base64,");
}

#[test]
fn katex_font_names_give_family_weight_style() {
    let files = vec![
        KatexFont { name: "KaTeX_Main-BoldItalic".to_string(), bytes: b"wOF2".to_vec() },
        KatexFont { name: "KaTeX_AMS-Regular".to_string(), bytes: b"wOF2".to_vec() },
        KatexFont { name: "KaTeX_Math-Italic".to_string(), bytes: b"wOF2".to_vec() },
    ];
    let css = katex_fonts_css(&files);
    assert!(css.contains("font-family:'KaTeX_Main';font-weight:700;font-style:italic;"));
    assert!(css.contains("font-family:'KaTeX_AMS';font-weight:400;font-style:normal;"));
    assert!(css.contains("font-family:'KaTeX_Math';font-weight:400;font-style:italic;"));
    assert_eq!(css.matches("@font-face").count(), 3);
}
