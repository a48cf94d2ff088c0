use mdprint::cli::{Cli, Lang};
use mdprint::config::{Company, Config, FileConfig, Figures, Fonts, Paper};
use mdprint::parse::FrontMatter;

fn cli(lang: Option<Lang>, template: Option<&str>) -> Cli {
    Cli {
        input: "doc.md".to_string(),
        output: None,
        lang,
        toc: true,
        fetch: false,
        config: None,
        template: template.map(|s| s.to_string()),
    }
}

fn fm(lang: Option<Lang>, template: Option<&str>) -> FrontMatter {
    FrontMatter {
        title: Some("T".to_string()),
        author: None,
        date: None,
        lang,
        version: None,
        template: template.map(|s| s.to_string()),
    }
}

fn empty_file() -> FileConfig {
    FileConfig { lang: None, template: None, paper: None, figures: None, fonts: None, company: None }
}

#[test]
fn lang_priority_cli_over_front_matter() {
    let f = fm(Some(Lang::En), None);
    let c = Config::resolve(&cli(None, None), Some(&f), empty_file(), "/d", "/d", "/w");
    assert_eq!(c.lang, Lang::En);
    let c = Config::resolve(&cli(Some(Lang::Cs), None), Some(&f), empty_file(), "/d", "/d", "/w");
    assert_eq!(c.lang, Lang::Cs);
    let mut file = empty_file();
    file.lang = Some(Lang::De);
    let c = Config::resolve(&cli(None, None), None, file, "/d", "/d", "/w");
    assert_eq!(c.lang, Lang::De);
    let c = Config::resolve(&cli(None, None), None, empty_file(), "/d", "/d", "/w");
    assert_eq!(c.lang, Lang::Cs);
}

#[test]
fn defaults_follow_language() {
    let c = Config::resolve(&cli(Some(Lang::De), None), None, empty_file(), "/d", "/d", "/w");
    assert_eq!(c.paper_size, "A4");
    assert_eq!(c.paper_margin, "2.5cm 2cm");
    assert_eq!(c.figure_prefix, "Abb.");
    assert!(c.figure_numbering);
    assert_eq!(c.font_serif, "Libertinus Serif");
    assert_eq!(c.font_sans, "Libertinus Sans");
    assert_eq!(c.font_mono, "JetBrains Mono");
    assert!(c.pack_dir.is_none());
    assert!(c.toc && !c.fetch);
}

#[test]
fn file_values_override_defaults() {
    let file = FileConfig {
        lang: None,
        template: None,
        paper: Some(Paper { size: Some("A5".into()), margin: None }),
        figures: Some(Figures { prefix: Some("Obrázek".into()), numbering: Some(false) }),
        fonts: Some(Fonts { serif: Some("Charis".into()), sans: None, mono: None }),
        company: Some(Company { name: Some("Toml a.s.".into()), ..Company::empty() }),
    };
    let c = Config::resolve(&cli(None, None), None, file, "/d", "/d", "/w");
    assert_eq!(c.paper_size, "A5");
    assert_eq!(c.paper_margin, "2.5cm 2cm");
    assert_eq!(c.figure_prefix, "Obrázek");
    assert!(!c.figure_numbering);
    assert_eq!(c.font_serif, "Charis");
    assert_eq!(c.company.name.as_deref(), Some("Toml a.s."));
}

#[test]
fn template_paths_resolve_against_where_they_were_written() {
    let c = Config::resolve(&cli(Some(Lang::Cs), Some("packs/demo")), None, empty_file(), "/cfg", "/in", "/work");
    assert_eq!(c.pack_dir.as_deref(), Some("/work/packs/demo"));
    assert_eq!(c.pack_source, Some(("packs/demo".to_string(), "/work".to_string())));
    let f = fm(None, Some("demo"));
    let c = Config::resolve(&cli(None, None), Some(&f), empty_file(), "/cfg", "/in", "/work");
    assert_eq!(c.pack_dir.as_deref(), Some("/in/demo"));
    assert_eq!(c.pack_source, Some(("demo".to_string(), "/in".to_string())));
    let mut file = empty_file();
    file.template = Some("/abs/pack".into());
    let c = Config::resolve(&cli(None, None), None, file, "/cfg", "/in", "/work");
    assert_eq!(c.pack_dir.as_deref(), Some("/abs/pack"));
    assert_eq!(c.pack_source, Some(("/abs/pack".to_string(), "/cfg".to_string())));
    let c = Config::resolve(&cli(None, Some("default")), Some(&f), empty_file(), "/cfg", "/in", "/work");
    assert!(c.pack_dir.is_none());
    assert!(c.pack_source.is_none());
}
