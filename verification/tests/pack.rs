use mdprint::config::Company;
use mdprint::pack::{
    bad_icon_message, icon_ext, icon_mime_of, inside_pack, merge_company, outside_pack_message,
    pack_font, pack_link, FontDecl, LinkDecl, PackFont, TemplatePack,
};

#[test]
fn company_merge_prefers_toml() {
    let pack = Company {
        name: Some("Pack s.r.o.".into()),
        web: Some("pack.example".into()),
        ..Company::empty()
    };
    let toml = Company {
        name: Some("Toml a.s.".into()),
        ico: Some("123".into()),
        ..Company::empty()
    };
    let merged = merge_company(&pack, &toml);
    assert_eq!(merged.name.as_deref(), Some("Toml a.s."));
    assert_eq!(merged.web.as_deref(), Some("pack.example"));
    assert_eq!(merged.ico.as_deref(), Some("123"));
}

#[test]
fn link_icons_must_be_svg_or_png() {
    assert_eq!(icon_mime_of("ikony/github.svg"), Some("image/svg+xml"));
    assert_eq!(icon_mime_of("logo.PNG"), Some("image/png"));
    assert_eq!(icon_mime_of("ikona.gif"), None);
    assert_eq!(icon_mime_of("svg"), None);
    assert_eq!(icon_mime_of(".svg"), None);
    assert_eq!(icon_ext("a/b.c/d"), None);
    assert_eq!(icon_ext("a.b/c.txt").as_deref(), Some("txt"));
    assert!(bad_icon_message("ikona.gif", "/p/pack.toml").contains("musí být .svg nebo .png"));
}

#[test]
fn pack_files_stay_inside_the_folder() {
    assert!(inside_pack("/p/pack/font.woff2", "/p/pack"));
    assert!(inside_pack("/p/pack", "/p/pack"));
    assert!(inside_pack("/x", "/"));
    assert!(!inside_pack("/p/tajny.svg", "/p/pack"));
    assert!(!inside_pack("/p/packing/a.svg", "/p/pack"));
    assert!(outside_pack_message("ikona odkazu", "../tajny.svg").contains("mimo složku packu"));
}

#[test]
fn declared_fonts_and_links() {
    let f = pack_font(
        FontDecl { file: "f.woff2".into(), family: "Demo Mono".into(), weight: 400, style: None },
        b"wOF2".to_vec(),
    );
    assert_eq!(f.style, "normal");
    let l = pack_link(
        LinkDecl { label: "GitHub".into(), url: "https://github.com".into(), icon: Some("g.svg".into()) },
        Some(("image/svg+xml", b"<svg/>".to_vec())),
    );
    assert_eq!(l.icon_data_uri.as_deref(), Some("data:image/svg+xml;base64,PHN2Zy8+"));
    let l = pack_link(
        LinkDecl { label: "Web".into(), url: "https://x".into(), icon: None },
        None,
    );
    assert!(l.icon_data_uri.is_none());
}

#[test]
fn pack_fonts_are_inlined() {
    let pack = TemplatePack {
        name: "demo".into(),
        css: ".brand-header{}".into(),
        fonts: vec![PackFont {
            family: "Demo Mono".into(),
            weight: 400,
            style: "normal".into(),
            bytes: b"wOF2".to_vec(),
        }],
        links: vec![],
        logo_light: None,
        logo_dark: None,
        company: Company::empty(),
    };
    let css = pack.fonts_css();
    assert!(css.contains("base64,d09G"));
    assert!(css.contains("font-family:'Demo Mono'"));
}
