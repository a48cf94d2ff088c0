use mdprint::highlight::{
    code_block_html, escape_html, highlight_failed_message, highlighted_block_html, info_lang,
    wrap_lines, Highlighter,
};

fn block(info: &str, code: &str) -> String {
    let lang = info_lang(info);
    Highlighter::new().render_block(&lang, code).unwrap()
}

#[test]
fn rust_block_gets_classed_spans_and_lines() {
    let html = block("rust", "fn main() {\n    println!(\"ok\");\n}\n");
    assert!(html.contains("class=\"language-rust\""));
    assert!(html.contains("<span class=\"line\">"));
    assert!(html.contains("source rust"));
    assert_eq!(html.matches("<span class=\"line\">").count(), 3);
}

#[test]
fn unknown_language_is_escaped_plaintext() {
    let html = block("neznamyjazyk", "a < b & c\n");
    assert!(html.contains("class=\"language-neznamyjazyk\""));
    assert!(html.contains("a &lt; b &amp; c"));
}

#[test]
fn theme_css_generates() {
    let css = Highlighter::css().unwrap();
    assert!(css.contains(".source"));
}

#[test]
fn multiline_string_keeps_spans_balanced_per_line() {
    let html = block("python", "s = \"\"\"první\ndruhý\"\"\"\nx = 1\n");
    assert_eq!(html.matches("<span class=\"line\">").count(), 3);
    assert_eq!(html.matches("<span").count(), html.matches("</span>").count());
    let html = block("rust", "let a = 1;\n\nlet b = 2;\n");
    assert_eq!(html.matches("<span class=\"line\">").count(), 3);
}

#[test]
fn wrap_lines_reopens_spans_on_each_line() {
    let out = wrap_lines("<span class=\"s\">a\nb</span>\n");
    assert_eq!(
        out,
        "<span class=\"line\"><span class=\"s\">a</span></span>\n<span class=\"line\"><span class=\"s\">b</span></span>\n"
    );
    // closing spans after the last line end carry no text: no extra line
    assert_eq!(wrap_lines("x\n</span>"), "<span class=\"line\">x</span>\n");
    assert_eq!(wrap_lines("x"), "<span class=\"line\">x</span>\n");
    assert_eq!(wrap_lines(""), "");
    assert_eq!(wrap_lines("\n"), "<span class=\"line\"></span>\n");
}

#[test]
fn escaping_and_framing() {
    assert_eq!(escape_html("a<b>&c"), "a&lt;b&gt;&amp;c");
    assert_eq!(info_lang("  python  title=\"x\""), "python");
    assert_eq!(info_lang(""), "");
    assert_eq!(code_block_html("", "x"), "<pre><code>x</code></pre>\n");
    assert_eq!(
        block("", "a < b\n"),
        "<pre><code><span class=\"line\">a &lt; b</span>\n</code></pre>\n"
    );
    assert_eq!(highlight_failed_message(7), "zvýraznění kódu selhalo (řádek 7)");
}

#[test]
fn every_line_closes_what_it_opens() {
    let out = wrap_lines("<span class=\"a\"><span class=\"b\">x\ny</span>\nz</span>\n");
    for line in out.lines() {
        assert_eq!(line.matches("<span").count(), line.matches("</span>").count(), "{line}");
    }
    assert_eq!(out.lines().count(), 3);
}

#[test]
fn highlighted_html_is_framed_in_lines() {
    assert_eq!(
        highlighted_block_html("rust", "<span class=\"source rust\">a\nb</span>"),
        "<pre><code class=\"language-rust\"><span class=\"line\"><span class=\"source rust\">a</span></span>\n<span class=\"line\"><span class=\"source rust\">b</span></span>\n</code></pre>\n"
    );
}

#[test]
fn last_line_without_line_end_is_highlighted() {
    let html = block("rust", "let a = 1;\nlet b = 2;");
    assert_eq!(html.matches("<span class=\"line\">").count(), 2);
    assert!(html.contains("source rust"));
    assert!(html.contains("let"));
    assert_eq!(html.matches("<span").count(), html.matches("</span>").count());
}

fn text_outside_tags(s: &str) -> String {
    let mut out = String::new();
    let mut inside = false;
    for c in s.chars() {
        if inside {
            inside = c != '>';
        } else if c == '<' {
            inside = true;
        } else {
            out.push(c);
        }
    }
    out
}

#[test]
fn wrapping_keeps_the_text() {
    for (html, text) in [
        ("<span class=\"s\">a\nb</span>", "a\nb\n"),
        ("x\n</span>", "x\n"),
        ("a &lt; b\n\n<span class=\"k\">c</span>", "a &lt; b\n\nc\n"),
        ("", ""),
    ] {
        assert_eq!(text_outside_tags(&wrap_lines(html)), text, "{html:?}");
    }
}
