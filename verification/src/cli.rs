//! Command-line options as plain values, and the document languages.

use vstd::prelude::*;

verus! {

/// Document language.
#[derive(Clone, Copy, Debug, PartialEq, Eq, Structural)]
pub enum Lang {
    Cs,
    En,
    De,
}

/// The options of one run: input file, optional output file, language,
/// table of contents, fetching of remote images, configuration file and
/// template choice. Paths are held as text.
#[derive(Clone, Debug)]
pub struct Cli {
    pub input: String,
    pub output: Option<String>,
    pub lang: Option<Lang>,
    pub toc: bool,
    pub fetch: bool,
    pub config: Option<String>,
    pub template: Option<String>,
}

} // verus!
