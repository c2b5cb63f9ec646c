//! The document pipeline, end to end: markup text and stylesheet text in,
//! paint commands out. The document's top element is the first parsed
//! node; the caller gets nothing when there is no such element, or when a
//! `width` property carries a unit the layout engine does not implement.

use vstd::prelude::*;

use crate::command::{box_commands, DisplayCommand, DisplayList};
use crate::css_parser::{css_rules, CssParser};
use crate::html_parse::{nodes_at, HtmlParser};
use crate::layout::{layout_tree_spec, styled_widths_ok, Dimensions};
use crate::style::{styled_of, StyledNode};

verus! {

broadcast use vstd::std_specs::vec::group_vec_axioms;

/// The commands a whole document renders to, if it renders at all: the
/// first parsed node, styled by the parsed stylesheet, laid out against
/// the viewport, and flattened into paint order.
pub open spec fn document_commands(
    markup: Seq<char>,
    css: Seq<char>,
    viewport: Dimensions,
) -> Option<Seq<DisplayCommand>> {
    let nodes = nodes_at(markup, 0, Seq::empty(), Seq::empty()).nodes;
    if nodes.len() == 0 {
        None
    } else {
        let styled = styled_of(nodes[0], css_rules(css));
        if !styled_widths_ok(styled) {
            None
        } else {
            Some(box_commands(layout_tree_spec(styled, viewport)))
        }
    }
}

/// Runs the whole pipeline on a document and a stylesheet.
pub fn render_document(markup: &str, css: &str, viewport: Dimensions) -> (r: Option<DisplayList>)
    ensures
        match r {
            Some(commands) => document_commands(markup@, css@, viewport) == Some(commands@),
            None => document_commands(markup@, css@, viewport) is None,
        },
{
    let nodes = HtmlParser::new(markup).parse_nodes();
    if nodes.len() == 0 {
        return None;
    }
    proof {
        crate::dom::lemma_node_views_index(nodes@, 0);
    }
    let root_node = &nodes[0];
    let stylesheet = CssParser::new(css).parse_stylesheet();
    let style_root = StyledNode::new(root_node, &stylesheet);
    match crate::layout::try_layout_tree(&style_root, viewport) {
        Some(layout_root) => {
            let commands = crate::command::build_display_commands(&layout_root);
            Some(commands)
        },
        None => None,
    }
}

} // verus!
