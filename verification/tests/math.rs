use mdprint::math::{math_error_message, replace_first, tag_wide_math, MathRenderer};

#[test]
fn renders_inline_and_display_math() {
    let r = MathRenderer::new();
    let inline = r.render("E = mc^2", false, 1, 0).unwrap();
    let display = r.render("\\frac{a}{b}", true, 3, 0).unwrap();
    assert!(inline.contains("class=\"katex\""));
    assert!(display.contains("katex-display"));
}

#[test]
fn invalid_tex_fails_with_line() {
    let err = MathRenderer::new().render("\\frac{a", false, 3, 0).unwrap_err();
    assert!(err.contains("řádek 3"), "{err}");
    assert!(err.starts_with("chyba KaTeX (řádek 3): "), "{err}");
}

#[test]
fn wide_tiers_tag_the_first_katex_element() {
    let display = "<span class=\"katex-display\"><span class=\"katex\">x</span></span>";
    assert_eq!(tag_wide_math(display, true, 0), display);
    assert_eq!(
        tag_wide_math(display, true, 2),
        "<span class=\"katex-display math-wide-2\"><span class=\"katex\">x</span></span>"
    );
    let inline = "<span class=\"katex\">x</span><span class=\"katex\">y</span>";
    assert_eq!(
        tag_wide_math(inline, false, 1),
        "<span class=\"katex math-wide-1\">x</span><span class=\"katex\">y</span>"
    );
    assert_eq!(tag_wide_math("bez tříd", true, 3), "bez tříd");
}

#[test]
fn replace_first_only_once() {
    assert_eq!(replace_first("a-b-c", "-", "+"), "a+b-c");
    assert_eq!(replace_first("abc", "x", "y"), "abc");
    assert_eq!(replace_first("abc", "", "_"), "_abc");
    assert_eq!(math_error_message(12, "x"), "chyba KaTeX (řádek 12): x");
}

#[test]
fn every_output_carries_the_katex_classes() {
    let r = MathRenderer::new();
    let d = r.render("x^2", true, 1, 2).unwrap();
    assert!(d.contains("class=\"katex\""));
    assert!(d.contains("class=\"katex-display math-wide-2\""));
}

#[test]
fn wide_class_injected_only_for_wide_display() {
    // The width tiers of the two formulas as the print width estimate gives
    // them: the short one fits, the long one is over the second budget.
    let r = MathRenderer::new();
    let short = r.render("\\frac{a}{b}", true, 1, 0).unwrap();
    let long = r
        .render(
            "a_1 + a_2 + a_3 + a_4 + a_5 + a_6 + a_7 + a_8 + a_9 + b_1 + b_2 + b_3 + b_4 + b_5 + b_6 + b_7 + b_8 + b_9 + c_1 + c_2 + c_3 + c_4 + c_5 + c_6 + c_7 + c_8 + c_9 + d_1",
            true,
            3,
            2,
        )
        .unwrap();
    assert!(!short.contains("math-wide"), "krátký display bez třídy");
    assert!(
        long.contains("class=\"katex-display math-wide-"),
        "široký display musí dostat třídu"
    );
}
