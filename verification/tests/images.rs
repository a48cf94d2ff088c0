use mdprint::images::{
    classify, is_remote, link_url, orphans, plain_file_name, remote_target_name, short_hash,
    slugify, source_path_text, target_name, ImageError, ImageRegistry, ImageSite, LocalStep,
};

#[test]
fn slug_removes_diacritics_spaces_and_case() {
    assert_eq!(slugify("Průřez Nosníku č. 12"), "prurez-nosniku-c-12");
    assert_eq!(slugify("obrázek"), "obrazek");
    assert_eq!(slugify("a__b--c"), "a-b-c");
    assert_eq!(slugify("---"), "img");
    assert_eq!(slugify(""), "img");
}

#[test]
fn target_name_keeps_lowercase_extension() {
    let name = target_name("C:/x/Foto Zdi.PNG", "abcd1234");
    assert_eq!(name, "foto-zdi-abcd1234.png");
}

#[test]
fn target_name_without_extension_or_with_leading_dot() {
    assert_eq!(target_name("/a/b/README", "00000000"), "readme-00000000");
    assert_eq!(target_name("/a/.hidden", "11111111"), "hidden-11111111");
    assert_eq!(target_name("/a/x.tar.GZ", "22222222"), "x-tar-22222222.gz");
}

#[test]
fn remote_names_are_deterministic_and_clean() {
    let a = remote_target_name("https://ex.cz/cesta/Graf%20A.png?v=2#f");
    let b = remote_target_name("https://ex.cz/cesta/Graf%20A.png?v=2#f");
    assert_eq!(a, b);
    assert!(a.starts_with("graf-20a-") && a.ends_with(".png"), "{a}");
    let c = remote_target_name("https://ex.cz/cesta/Graf%20A.png?v=3");
    assert_ne!(a, c);
    let d = remote_target_name("https://ex.cz/api/obrazek");
    assert!(d.starts_with("obrazek-") && !d.contains('.'), "{d}");
}

#[test]
fn remote_name_uses_hash_of_whole_url() {
    let url = "https://ex.cz/a/b.JPEG/";
    let name = remote_target_name(url);
    assert_eq!(name, format!("b-{}.jpeg", short_hash(url.as_bytes())));
    let long_ext = remote_target_name("https://ex.cz/file.toolong");
    assert!(long_ext.starts_with("file-toolong-"), "{long_ext}");
}

#[test]
fn short_hash_is_eight_lowercase_hex_digits() {
    let h = short_hash(b"abc");
    assert_eq!(h.len(), 8);
    assert!(h.chars().all(|c| c.is_ascii_hexdigit() && !c.is_ascii_uppercase()));
    // BLAKE3("abc") = 6437b3ac38465133...
    assert_eq!(h, "6437b3ac");
}

#[test]
fn remote_and_data_links() {
    assert!(is_remote("HTTPS://x.cz/a.png"));
    assert!(is_remote("http://x"));
    assert!(is_remote("Data:image/png;base64,AAAA"));
    assert!(!is_remote("obrazky/a.png"));
    assert!(!is_remote("httpx://a"));
    assert_eq!(classify("https://x/a.png", false), ImageSite::Keep);
    assert_eq!(classify("https://x/a.png", true), ImageSite::Fetch);
    assert_eq!(classify("data:image/png;base64,AA", true), ImageSite::Keep);
    assert_eq!(classify("a.png", true), ImageSite::Local);
}

#[test]
fn source_path_is_percent_decoded_with_forward_slashes() {
    assert_eq!(
        source_path_text("../m%C5%AFj%20obr%C3%A1zek.png").as_deref(),
        Some("../můj obrázek.png")
    );
    assert_eq!(
        source_path_text("..\\můj obrázek.png").as_deref(),
        Some("../můj obrázek.png")
    );
    assert_eq!(source_path_text("100%.png").as_deref(), Some("100%.png"));
    assert_eq!(source_path_text("%FF.png"), None);
}

#[test]
fn orphans_are_old_names_not_written_again() {
    let old = vec![
        "x-1.png".to_string(),
        "y-2.png".to_string(),
        "../mimo.png".to_string(),
        "..".to_string(),
    ];
    let current = vec!["x-1.png".to_string()];
    assert_eq!(orphans(&old, &current), vec!["y-2.png".to_string()]);
    assert!(plain_file_name("a.png"));
    assert!(!plain_file_name("a/b.png"));
    assert!(!plain_file_name("."));
    assert!(!plain_file_name(""));
}

#[test]
fn registry_shares_names_and_records_files_once() {
    let mut reg = ImageRegistry::new();
    assert_eq!(reg.name_for_hash("abcd1234"), None);
    reg.remember_hash("abcd1234", "schema-abcd1234.png");
    reg.remember_source("/a/schéma.png", "schema-abcd1234.png");
    reg.remember_url("https://x/y.png", "y-00000000.png");
    assert_eq!(reg.name_for_hash("abcd1234").as_deref(), Some("schema-abcd1234.png"));
    assert_eq!(reg.name_for_source("/a/schéma.png").as_deref(), Some("schema-abcd1234.png"));
    assert_eq!(reg.name_for_source("/b/schéma.png"), None);
    assert_eq!(reg.name_for_url("https://x/y.png").as_deref(), Some("y-00000000.png"));
    reg.add_file("schema-abcd1234.png");
    reg.add_file("kopie-abcd1234.png");
    reg.add_file("schema-abcd1234.png");
    assert_eq!(
        reg.files(),
        vec!["schema-abcd1234.png".to_string(), "kopie-abcd1234.png".to_string()]
    );
    assert_eq!(link_url("img_dokument", "a.png"), "img_dokument/a.png");
}

#[test]
fn image_errors_name_the_line() {
    let e = ImageError::Missing { path: "neni.png".to_string(), line: 5 };
    assert_eq!(e.message(), "obrázek nenalezen: neni.png (řádek 5)");
    let e = ImageError::Fetch {
        url: "https://example.invalid/a.png".to_string(),
        line: 1,
        reason: "offline".to_string(),
    };
    assert_eq!(
        e.message(),
        "stažení obrázku selhalo: https://example.invalid/a.png (řádek 1): offline"
    );
}

#[test]
fn local_images_are_shared_by_source_and_content() {
    let mut reg = ImageRegistry::new();
    assert_eq!(reg.local_image_step("/a/schéma.png", None), LocalStep::NeedContent);
    assert!(reg.files().is_empty());
    assert_eq!(
        reg.local_image_step("/a/schéma.png", Some("abcd1234")),
        LocalStep::Write("schema-abcd1234.png".to_string())
    );
    assert_eq!(
        reg.local_image_step("/a/schéma.png", None),
        LocalStep::Reuse("schema-abcd1234.png".to_string())
    );
    assert_eq!(reg.local_image_step("/b/kopie.png", None), LocalStep::NeedContent);
    assert_eq!(
        reg.local_image_step("/b/kopie.png", Some("abcd1234")),
        LocalStep::Reuse("schema-abcd1234.png".to_string())
    );
    assert_eq!(
        reg.local_image_step("/b/kopie.png", None),
        LocalStep::Reuse("schema-abcd1234.png".to_string())
    );
    assert_eq!(
        reg.local_image_step("/c/jiny.PNG", Some("ffff0000")),
        LocalStep::Write("jiny-ffff0000.png".to_string())
    );
    assert_eq!(
        reg.files(),
        vec!["schema-abcd1234.png".to_string(), "jiny-ffff0000.png".to_string()]
    );
}

#[test]
fn remote_names_are_plain_file_names() {
    for url in [
        "https://ex.cz/cesta/Graf%20A.png?v=2#f",
        "https://ex.cz/../../etc/passwd",
        "https://ex.cz/a/.hidden.SVG",
        "https://ex.cz/",
        "data:image/png;base64,AAAA",
        "https://ex.cz/Žluťoučký kůň.JPG",
    ] {
        let name = remote_target_name(url);
        assert!(!name.is_empty(), "{url}");
        let first = name.chars().next().unwrap();
        assert!(first.is_ascii_lowercase() || first.is_ascii_digit(), "{name}");
        assert!(
            name.chars().all(|c| c.is_ascii_lowercase() || c.is_ascii_digit() || c == '-' || c == '.'),
            "{name}"
        );
    }
}
