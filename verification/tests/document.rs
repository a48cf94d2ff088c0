use mdprint::document::{
    image_dir_name, is_figure, is_figure_paragraph, node_steps, ImagePlace, NodeKind,
};

#[test]
fn only_text_is_typeset_and_headings_stay_whole() {
    let text = node_steps(NodeKind::Text, false);
    assert!(text.typography && text.hyphenate && !text.render_math && !text.highlight);
    let heading_text = node_steps(NodeKind::Text, true);
    assert!(heading_text.typography && !heading_text.hyphenate);
    for kind in [NodeKind::Code, NodeKind::Other] {
        let s = node_steps(kind, false);
        assert!(!s.typography && !s.hyphenate && !s.render_math && !s.highlight);
    }
    assert!(node_steps(NodeKind::Math, false).render_math);
    assert!(node_steps(NodeKind::CodeBlock, true).highlight);
    assert!(!node_steps(NodeKind::Math, false).typography);
}

#[test]
fn figures_are_captioned_images_alone_in_a_paragraph() {
    let alone = ImagePlace { has_caption: true, in_paragraph: true, has_previous: false, has_next: false };
    assert!(is_figure(alone));
    assert!(is_figure_paragraph(1, Some(alone)));
    assert!(!is_figure_paragraph(2, Some(alone)));
    assert!(!is_figure(ImagePlace { has_caption: false, ..alone }));
    assert!(!is_figure(ImagePlace { has_next: true, ..alone }));
    assert!(!is_figure_paragraph(1, None));
    assert_eq!(image_dir_name("dokument"), "img_dokument");
}
