//! Configuration: `mdprint.toml` contents as plain values, and their merge
//! with the command line and the front matter.

use vstd::prelude::*;

use crate::cli::{Cli, Lang};
use crate::parse::FrontMatter;
use crate::text::str_eq;

verus! {

/// `mdprint.toml` next to the input (or `--config`). Every field is optional.
#[derive(Debug)]
pub struct FileConfig {
    pub lang: Option<Lang>,
    /// "default", or the path of a template pack folder (relative to the
    /// toml file)
    pub template: Option<String>,
    pub paper: Option<Paper>,
    pub figures: Option<Figures>,
    pub fonts: Option<Fonts>,
    pub company: Option<Company>,
}

/// Company data for the footer of a branded template (`[company]`).
#[derive(Debug, Clone)]
pub struct Company {
    pub name: Option<String>,
    pub address: Option<String>,
    pub ico: Option<String>,
    pub dic: Option<String>,
    pub web: Option<String>,
    pub email: Option<String>,
}

impl Company {
    /// A company with no data.
    pub fn empty() -> (c: Company)
        ensures
            c.name is None && c.address is None && c.ico is None && c.dic is None && c.web is None
                && c.email is None,
    {
        Company { name: None, address: None, ico: None, dic: None, web: None, email: None }
    }
}

#[derive(Debug)]
pub struct Paper {
    /// e.g. "A4" (the default)
    pub size: Option<String>,
    /// e.g. "2.5cm 2cm" (the default)
    pub margin: Option<String>,
}

#[derive(Debug)]
pub struct Figures {
    /// Caption prefix; the default depends on the language.
    pub prefix: Option<String>,
    /// Number the figures (default true)
    pub numbering: Option<bool>,
}

#[derive(Debug)]
pub struct Fonts {
    pub serif: Option<String>,
    pub sans: Option<String>,
    pub mono: Option<String>,
}

/// The configuration after the merge: CLI > front matter > mdprint.toml >
/// defaults.
#[derive(Debug)]
pub struct Config {
    pub lang: Lang,
    pub paper_size: String,
    pub paper_margin: String,
    pub figure_prefix: String,
    pub figure_numbering: bool,
    pub font_serif: String,
    pub font_sans: String,
    pub font_mono: String,
    /// Folder of the template pack; `None` = the built-in default template.
    pub pack_dir: Option<String>,
    /// The pack's path as it was written and the folder a relative one is
    /// read against; `pack_dir` is this path taken by the platform's rules
    /// (kept when absolute, else joined to the folder).
    pub pack_source: Option<(String, String)>,
    /// `[company]` from mdprint.toml (overrides the pack's own data).
    pub company: Company,
    pub toc: bool,
    pub fetch: bool,
}

pub open spec fn text_or(o: Option<String>, default: Seq<char>) -> Seq<char> {
    match o {
        Some(t) => t@,
        None => default,
    }
}

pub open spec fn fm_lang(fm: Option<&FrontMatter>) -> Option<Lang> {
    match fm {
        Some(f) => f.lang,
        None => None,
    }
}

pub open spec fn fm_template(fm: Option<&FrontMatter>) -> Option<String> {
    match fm {
        Some(f) => f.template,
        None => None,
    }
}

/// Language: CLI, else front matter, else mdprint.toml, else Czech.
pub open spec fn resolved_lang(cli: Option<Lang>, fm: Option<Lang>, file: Option<Lang>) -> Lang {
    match cli {
        Some(l) => l,
        None => match fm {
            Some(l) => l,
            None => match file {
                Some(l) => l,
                None => Lang::Cs,
            },
        },
    }
}

/// The template choice and the folder a relative path in it is read
/// against: from the CLI (the working directory), else from the front
/// matter (the input's folder), else from mdprint.toml (its folder).
pub open spec fn template_choice(
    cli: Option<String>,
    fm: Option<String>,
    file: Option<String>,
    cwd: Seq<char>,
    input_dir: Seq<char>,
    config_dir: Seq<char>,
) -> Option<(Seq<char>, Seq<char>)> {
    match cli {
        Some(t) => Some((t@, cwd)),
        None => match fm {
            Some(t) => Some((t@, input_dir)),
            None => match file {
                Some(t) => Some((t@, config_dir)),
                None => None,
            },
        },
    }
}

/// The chosen pack path and its base folder, when a pack is used.
pub open spec fn pack_choice(choice: Option<(Seq<char>, Seq<char>)>) -> Option<(Seq<char>, Seq<char>)> {
    if uses_pack(choice) {
        choice
    } else {
        None
    }
}

pub open spec fn pair_view(p: Option<(String, String)>) -> Option<(Seq<char>, Seq<char>)> {
    match p {
        Some((a, b)) => Some((a@, b@)),
        None => None,
    }
}

/// Whether a template pack is used: a choice was made and it is not
/// "default".
pub open spec fn uses_pack(choice: Option<(Seq<char>, Seq<char>)>) -> bool {
    match choice {
        Some(c) => c.0 != "default"@,
        None => false,
    }
}

pub open spec fn default_figure_prefix(lang: Lang) -> Seq<char> {
    match lang {
        Lang::Cs => "Obr."@,
        Lang::En => "Fig."@,
        Lang::De => "Abb."@,
    }
}

/// `Path::is_absolute`. Whether a path is absolute depends on the platform,
/// so the contract says nothing of the answer.
#[verifier::external_body]
fn path_is_absolute(p: &str) -> bool {
    std::path::Path::new(p).is_absolute()
}

/// `Path::join`, read back as (lossy) text. The result depends on the
/// platform's separators, so the contract says nothing of it.
#[verifier::external_body]
fn path_join(base: &str, p: &str) -> String {
    std::path::Path::new(base).join(p).to_string_lossy().into_owned()
}

fn text_or_exec(o: Option<String>, default: &str) -> (r: String)
    ensures
        r@ == text_or(o, default@),
{
    match o {
        Some(t) => t,
        None => default.to_owned(),
    }
}

impl Config {
    /// Merges the sources of configuration. `file_cfg` is the content of
    /// mdprint.toml (all `None` when there is none) and `config_dir` its
    /// folder; `cwd` is the working directory.
    pub fn resolve(
        cli: &Cli,
        front_matter: Option<&FrontMatter>,
        file_cfg: FileConfig,
        config_dir: &str,
        input_dir: &str,
        cwd: &str,
    ) -> (r: Config)
        ensures
            r.lang == resolved_lang(cli.lang, fm_lang(front_matter), file_cfg.lang),
            r.pack_dir is Some <==> uses_pack(
                template_choice(
                    cli.template,
                    fm_template(front_matter),
                    file_cfg.template,
                    cwd@,
                    input_dir@,
                    config_dir@,
                ),
            ),
            pair_view(r.pack_source) == pack_choice(
                template_choice(
                    cli.template,
                    fm_template(front_matter),
                    file_cfg.template,
                    cwd@,
                    input_dir@,
                    config_dir@,
                ),
            ),
            r.pack_dir is Some <==> r.pack_source is Some,
            r.company == (match file_cfg.company {
                Some(c) => c,
                None => Company { name: None, address: None, ico: None, dic: None, web: None, email: None },
            }),
            r.paper_size@ == text_or(
                match file_cfg.paper {
                    Some(p) => p.size,
                    None => None,
                },
                "A4"@,
            ),
            r.paper_margin@ == text_or(
                match file_cfg.paper {
                    Some(p) => p.margin,
                    None => None,
                },
                "2.5cm 2cm"@,
            ),
            r.figure_prefix@ == text_or(
                match file_cfg.figures {
                    Some(f) => f.prefix,
                    None => None,
                },
                default_figure_prefix(r.lang),
            ),
            r.figure_numbering == (match file_cfg.figures {
                Some(f) => match f.numbering {
                    Some(b) => b,
                    None => true,
                },
                None => true,
            }),
            r.font_serif@ == text_or(
                match file_cfg.fonts {
                    Some(f) => f.serif,
                    None => None,
                },
                "Libertinus Serif"@,
            ),
            r.font_sans@ == text_or(
                match file_cfg.fonts {
                    Some(f) => f.sans,
                    None => None,
                },
                "Libertinus Sans"@,
            ),
            r.font_mono@ == text_or(
                match file_cfg.fonts {
                    Some(f) => f.mono,
                    None => None,
                },
                "JetBrains Mono"@,
            ),
            r.toc == cli.toc,
            r.fetch == cli.fetch,
    {
        let FileConfig { lang: file_lang, template: file_template, paper, figures, fonts, company } =
            file_cfg;
        let fm_lang_v = match front_matter {
            Some(f) => f.lang,
            None => None,
        };
        let lang = match cli.lang {
            Some(l) => l,
            None => match fm_lang_v {
                Some(l) => l,
                None => match file_lang {
                    Some(l) => l,
                    None => Lang::Cs,
                },
            },
        };
        let fm_tpl = match front_matter {
            Some(f) => f.template.clone(),
            None => None,
        };
        let choice: Option<(String, String)> = match &cli.template {
            Some(t) => Some((t.clone(), cwd.to_owned())),
            None => match fm_tpl {
                Some(t) => Some((t, input_dir.to_owned())),
                None => match file_template {
                    Some(t) => Some((t, config_dir.to_owned())),
                    None => None,
                },
            },
        };
        let (pack_dir, pack_source) = match choice {
            None => (None, None),
            Some((t, base)) => {
                if str_eq(t.as_str(), "default") {
                    (None, None)
                } else if path_is_absolute(t.as_str()) {
                    (Some(t.clone()), Some((t, base)))
                } else {
                    (Some(path_join(base.as_str(), t.as_str())), Some((t, base)))
                }
            },
        };
        let company = match company {
            Some(c) => c,
            None => Company::empty(),
        };
        let (paper_size, paper_margin) = match paper {
            Some(p) => (p.size, p.margin),
            None => (None, None),
        };
        let (fig_prefix, fig_numbering) = match figures {
            Some(f) => (f.prefix, f.numbering),
            None => (None, None),
        };
        let (serif, sans, mono) = match fonts {
            Some(f) => (f.serif, f.sans, f.mono),
            None => (None, None, None),
        };
        let default_prefix = match lang {
            Lang::Cs => "Obr.",
            Lang::En => "Fig.",
            Lang::De => "Abb.",
        };
        Config {
            lang,
            paper_size: text_or_exec(paper_size, "A4"),
            paper_margin: text_or_exec(paper_margin, "2.5cm 2cm"),
            figure_prefix: text_or_exec(fig_prefix, default_prefix),
            figure_numbering: match fig_numbering {
                Some(b) => b,
                None => true,
            },
            font_serif: text_or_exec(serif, "Libertinus Serif"),
            font_sans: text_or_exec(sans, "Libertinus Sans"),
            font_mono: text_or_exec(mono, "JetBrains Mono"),
            pack_dir,
            pack_source,
            company,
            toc: cli.toc,
            fetch: cli.fetch,
        }
    }
}

} // verus!
