# mdprint

Markdown → print-quality, self-contained HTML, with Czech, English and
German microtypography.

The crate is in two parts:

- `src/` — the library, written in Verus and verified: the typographic
  rules (`typo/`), hyphenation of words at dictionary breaks (`hyphen`),
  the line structure of highlighted code (`highlight`), the width classes
  of KaTeX output (`math`), image naming, deduplication and cleanup
  (`images`), template packs (`pack`), configuration merge (`config`),
  front matter and titles (`parse`), and the pieces of the page: byline,
  dates, company line, figure numbering and the table of contents
  (`render`). Calls into `base64`, `blake3`, `deunicode`, `fancy-regex`,
  `hyphenation`, `katex-rs`, `percent-encoding`, `syntect` and comrak's
  `Anchorizer` stand behind small trusted wrappers whose contracts say what
  the library relies on.
- `app/` — the program around it: command line (clap), reading and writing
  files, the comrak document and its walks, YAML/TOML/JSON through serde,
  downloads (ureq), the page template (minijinja), and the floating-point
  width estimate of formulas.

The page template, style sheets and fonts are read at run time from the
`assets` folder next to the program, or from the folder named by
`MDPRINT_ASSETS`.
