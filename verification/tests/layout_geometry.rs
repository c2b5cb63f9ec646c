use browser_engine::css_parser::CssParser;
use browser_engine::dom::Node;
use browser_engine::html_parse::HtmlParser;
use browser_engine::layout::{layout_tree, try_layout_tree, BoxType, Dimensions, LayoutBox};
use browser_engine::style::StyledNode;

fn first_node(s: &str) -> Node {
    let mut nodes = HtmlParser::new(s).parse_nodes();
    nodes.remove(0)
}

fn viewport(width: i64, height: i64) -> Dimensions {
    let mut d = Dimensions::default();
    d.content.width = width;
    d.content.height = height;
    d
}

fn lay<'a>(styled: &'a StyledNode<'a>, width: i64) -> LayoutBox<'a> {
    layout_tree(styled, viewport(width, 768_000))
}

#[test]
fn width_auto_resolution_fills_container() {
    // No explicit width or margins: the content width absorbs the full
    // containing width and the margins stay zero.
    let sheet = CssParser::new("div { display: block; }").parse_stylesheet();
    let node = first_node("<div></div>");
    let styled = StyledNode::new(&node, &sheet);
    let root = lay(&styled, 100_000);
    assert_eq!(root.dimensions.content.width, 100_000);
    assert_eq!(root.dimensions.margin.left, 0);
    assert_eq!(root.dimensions.margin.right, 0);
}

#[test]
fn width_over_constrained_right_margin_absorbs() {
    // Explicit width 40 and explicit margins 10/10 in a container of 100:
    // the underflow of 40 lands on the right margin, making it 50.
    let sheet = CssParser::new(
        "div { display: block; } p { display: block; width: 40px; margin-left: 10; margin-right: 10; }",
    )
    .parse_stylesheet();
    let node = first_node("<div><p></p></div>");
    let styled = StyledNode::new(&node, &sheet);
    let root = lay(&styled, 100_000);
    let child = &root.children[0];
    assert_eq!(child.dimensions.content.width, 40_000);
    assert_eq!(child.dimensions.margin.left, 10_000);
    assert_eq!(child.dimensions.margin.right, 50_000);
    // The content origin sits past the left margin.
    assert_eq!(child.dimensions.content.x, 10_000);
}

#[test]
fn width_single_auto_margin_absorbs_underflow() {
    // Width specified, one margin absent: the absent margin takes all the
    // leftover width.
    let sheet = CssParser::new(
        "div { display: block; } p { display: block; width: 40px; margin-right: 10; }",
    )
    .parse_stylesheet();
    let node = first_node("<div><p></p></div>");
    let styled = StyledNode::new(&node, &sheet);
    let root = lay(&styled, 100_000);
    let child = &root.children[0];
    assert_eq!(child.dimensions.margin.left, 50_000);
    assert_eq!(child.dimensions.margin.right, 10_000);
}

#[test]
fn width_both_margins_auto_split_evenly() {
    let sheet = CssParser::new(
        "div { display: block; } p { display: block; width: 40px; }",
    )
    .parse_stylesheet();
    let node = first_node("<div><p></p></div>");
    let styled = StyledNode::new(&node, &sheet);
    let root = lay(&styled, 100_000);
    let child = &root.children[0];
    assert_eq!(child.dimensions.margin.left, 30_000);
    assert_eq!(child.dimensions.margin.right, 30_000);
}

#[test]
fn percent_width_resolves_against_container() {
    let sheet = CssParser::new(
        "div { display: block; } p { display: block; width: 50%; }",
    )
    .parse_stylesheet();
    let node = first_node("<div><p></p></div>");
    let styled = StyledNode::new(&node, &sheet);
    let root = lay(&styled, 200_000);
    assert_eq!(root.children[0].dimensions.content.width, 100_000);
}

#[test]
fn block_children_stack_vertically() {
    let sheet = CssParser::new(
        "div { display: block; } p { display: block; height: 10px; }",
    )
    .parse_stylesheet();
    let node = first_node("<div><p></p><p></p></div>");
    let styled = StyledNode::new(&node, &sheet);
    let root = lay(&styled, 100_000);
    assert_eq!(root.children[0].dimensions.content.y, 0);
    assert_eq!(root.children[1].dimensions.content.y, 10_000);
    assert_eq!(root.dimensions.content.height, 20_000);
}

#[test]
fn explicit_height_overrides_accumulated() {
    let sheet = CssParser::new(
        "div { display: block; height: 55px; } p { display: block; height: 10px; }",
    )
    .parse_stylesheet();
    let node = first_node("<div><p></p></div>");
    let styled = StyledNode::new(&node, &sheet);
    let root = lay(&styled, 100_000);
    assert_eq!(root.dimensions.content.height, 55_000);
}

#[test]
fn inline_block_wrapping() {
    // Three inline-block children of margin-box width 40 in a container
    // of content width 100: two fit on the first line, the third wraps,
    // and the container's height is the sum of the two line heights.
    let sheet = CssParser::new(
        "div { display: block; } p { display: inline-block; width: 40px; height: 20px; }",
    )
    .parse_stylesheet();
    let node = first_node("<div><p></p><p></p><p></p></div>");
    let styled = StyledNode::new(&node, &sheet);
    let root = lay(&styled, 100_000);
    assert_eq!(root.children.len(), 3);
    assert_eq!(root.children[0].dimensions.content.x, 0);
    assert_eq!(root.children[0].dimensions.content.y, 0);
    assert_eq!(root.children[1].dimensions.content.x, 40_000);
    assert_eq!(root.children[1].dimensions.content.y, 0);
    // The third wraps to a new line.
    assert_eq!(root.children[2].dimensions.content.x, 0);
    assert_eq!(root.children[2].dimensions.content.y, 20_000);
    // Two lines of 20 each.
    assert_eq!(root.dimensions.content.height, 40_000);
}

#[test]
fn display_none_child_contributes_no_box() {
    let sheet = CssParser::new(
        "div { display: block; } p { display: none; } b { display: block; height: 5px; }",
    )
    .parse_stylesheet();
    let node = first_node("<div><b></b><p></p><b></b></div>");
    let styled = StyledNode::new(&node, &sheet);
    assert_eq!(styled.children.len(), 3);
    let root = lay(&styled, 100_000);
    // The `display: none` child is gone; its siblings still flow.
    assert_eq!(root.children.len(), 2);
    assert_eq!(root.children[1].dimensions.content.y, 5_000);
    assert_eq!(root.dimensions.content.height, 10_000);
}

#[test]
fn unimplemented_width_unit_is_refused() {
    let sheet =
        CssParser::new("div { display: block; width: 4em; }").parse_stylesheet();
    let node = first_node("<div></div>");
    let styled = StyledNode::new(&node, &sheet);
    assert!(try_layout_tree(&styled, viewport(100_000, 100_000)).is_none());
}

#[test]
fn padding_and_border_offsets() {
    let sheet = CssParser::new(
        "div { display: block; } p { display: block; width: 10px; padding-left: 3px; border-left-width: 2px; margin-left: 1; }",
    )
    .parse_stylesheet();
    let node = first_node("<div><p></p></div>");
    let styled = StyledNode::new(&node, &sheet);
    let root = lay(&styled, 100_000);
    let child = &root.children[0];
    // x = container x + margin + border + padding.
    assert_eq!(child.dimensions.content.x, 6_000);
    assert_eq!(child.dimensions.padding.left, 3_000);
    assert_eq!(child.dimensions.border.left, 2_000);
    assert_eq!(child.dimensions.margin.left, 1_000);
}

#[test]
fn layout_box_construction() {
    let sheet = CssParser::new("").parse_stylesheet();
    let node = first_node("<div></div>");
    let styled = StyledNode::new(&node, &sheet);
    let b = LayoutBox::new(BoxType::Block, &styled);
    assert_eq!(b.box_type, BoxType::Block);
    assert!(b.children.is_empty());
    assert_eq!(b.dimensions, Dimensions::default());
}

#[test]
fn margin_box_arithmetic() {
    let mut d = Dimensions::default();
    d.content.width = 10_000;
    d.content.height = 4_000;
    d.padding.left = 1_000;
    d.padding.right = 1_000;
    d.border.top = 2_000;
    d.margin.bottom = 3_000;
    let m = d.margin_box();
    assert_eq!(m.width, 12_000);
    assert_eq!(m.height, 9_000);
    assert_eq!(m.y, -2_000);
}
