//! Which step of the pipeline touches which node of the parsed document.
//! The steps work on text nodes only (never code, math or URLs), leave
//! headings unhyphenated, render math nodes and highlight fenced code.

use vstd::prelude::*;

verus! {

/// The kind of a document node, as far as the pipeline tells them apart.
#[derive(Clone, Copy, Debug, PartialEq, Eq, Structural)]
pub enum NodeKind {
    /// Plain text.
    Text,
    /// Inline code.
    Code,
    /// A fenced or indented code block.
    CodeBlock,
    /// Inline or display math.
    Math,
    /// Any other node (headings, links, images, HTML, …).
    Other,
}

/// What the pipeline does with one node.
#[derive(Clone, Copy, Debug, PartialEq, Eq, Structural)]
pub struct NodeSteps {
    /// The typographic rules run on its text.
    pub typography: bool,
    /// Soft hyphens go into its text.
    pub hyphenate: bool,
    /// It is rendered by KaTeX.
    pub render_math: bool,
    /// It is highlighted.
    pub highlight: bool,
}

pub open spec fn node_steps_spec(kind: NodeKind, in_heading: bool) -> NodeSteps {
    NodeSteps {
        typography: kind == NodeKind::Text,
        hyphenate: kind == NodeKind::Text && !in_heading,
        render_math: kind == NodeKind::Math,
        highlight: kind == NodeKind::CodeBlock,
    }
}

/// The steps for a node of `kind`; `in_heading` says whether a heading is
/// among its ancestors. Text is typeset everywhere and hyphenated outside
/// headings; math is rendered, code blocks highlighted; nothing else is
/// touched.
pub fn node_steps(kind: NodeKind, in_heading: bool) -> (r: NodeSteps)
    ensures
        r == node_steps_spec(kind, in_heading),
{
    NodeSteps {
        typography: kind == NodeKind::Text,
        hyphenate: kind == NodeKind::Text && !in_heading,
        render_math: kind == NodeKind::Math,
        highlight: kind == NodeKind::CodeBlock,
    }
}

/// Where an image stands in the document, as far as figures go.
#[derive(Clone, Copy, Debug, PartialEq, Eq, Structural)]
pub struct ImagePlace {
    /// The image has a caption (its alt text has content).
    pub has_caption: bool,
    /// Its parent is a paragraph.
    pub in_paragraph: bool,
    /// Another node stands before it in that parent.
    pub has_previous: bool,
    /// Another node stands after it in that parent.
    pub has_next: bool,
}

pub open spec fn is_figure_spec(p: ImagePlace) -> bool {
    p.has_caption && p.in_paragraph && !p.has_previous && !p.has_next
}

/// An image becomes a figure (with a numbered caption) when it has a
/// caption and stands alone in its paragraph.
pub fn is_figure(p: ImagePlace) -> (r: bool)
    ensures
        r == is_figure_spec(p),
{
    p.has_caption && p.in_paragraph && !p.has_previous && !p.has_next
}

/// A paragraph becomes a `<figure>` when its only child is a figure image.
pub fn is_figure_paragraph(children: usize, only_child: Option<ImagePlace>) -> (r: bool)
    ensures
        r == (children == 1 && only_child is Some && is_figure_spec(only_child->0)),
{
    if children != 1 {
        return false;
    }
    match only_child {
        Some(p) => is_figure(p),
        None => false,
    }
}

/// The folder of a page's images: `img_` and the page's file stem.
pub fn image_dir_name(stem: &str) -> (r: String)
    ensures
        r@ == "img_"@ + stem@,
{
    let mut s = String::new();
    crate::text::append(&mut s, "img_");
    crate::text::append(&mut s, stem);
    s
}

} // verus!
