use browser_engine::command::{build_display_commands, DisplayCommand};
use browser_engine::css::Color;
use browser_engine::css_parser::CssParser;
use browser_engine::dom::Node;
use browser_engine::html_parse::HtmlParser;
use browser_engine::layout::{layout_tree, Dimensions};
use browser_engine::pipeline::render_document;
use browser_engine::style::StyledNode;

fn first_node(s: &str) -> Node {
    let mut nodes = HtmlParser::new(s).parse_nodes();
    nodes.remove(0)
}

fn viewport(width: i64, height: i64) -> Dimensions {
    let mut d = Dimensions::default();
    d.content.width = width;
    d.content.height = height;
    d
}

fn color_of(c: &DisplayCommand) -> Color {
    match c {
        DisplayCommand::SolidRectangle(color, _) => *color,
    }
}

#[test]
fn display_list_ordering() {
    // Parent with background and border colors, child with a background:
    // parent background, then the four border strips (left, right, top,
    // bottom), then the child background — six commands in that order.
    let sheet = CssParser::new(
        "div { display: block; background-color: red; border-color: blue; border-left-width: 2px; } p { display: block; background-color: lime; height: 5px; }",
    )
    .parse_stylesheet();
    let node = first_node("<div><p></p></div>");
    let styled = StyledNode::new(&node, &sheet);
    let root = layout_tree(&styled, viewport(100_000, 100_000));
    let commands = build_display_commands(&root);
    assert_eq!(commands.len(), 6);
    let red = Color::new(255, 0, 0, 255);
    let blue = Color::new(0, 0, 255, 255);
    let lime = Color::new(0, 255, 0, 255);
    assert_eq!(color_of(&commands[0]), red);
    for k in 1..5 {
        assert_eq!(color_of(&commands[k]), blue);
    }
    assert_eq!(color_of(&commands[5]), lime);
    // The left border strip spans the border box's height and carries the
    // left border thickness.
    match &commands[1] {
        DisplayCommand::SolidRectangle(_, r) => {
            assert_eq!(r.width, 2_000);
            assert_eq!(r.x, 0);
        }
    }
}

#[test]
fn background_covers_border_box() {
    let sheet = CssParser::new(
        "div { display: block; width: 10px; height: 4px; background-color: navy; padding-left: 1px; }",
    )
    .parse_stylesheet();
    let node = first_node("<div></div>");
    let styled = StyledNode::new(&node, &sheet);
    let root = layout_tree(&styled, viewport(100_000, 100_000));
    let commands = build_display_commands(&root);
    assert_eq!(commands.len(), 1);
    match &commands[0] {
        DisplayCommand::SolidRectangle(color, r) => {
            assert_eq!(*color, Color::new(0, 0, 128, 255));
            assert_eq!(r.width, 11_000);
            assert_eq!(r.height, 4_000);
        }
    }
}

#[test]
fn box_without_colors_emits_nothing_but_recurses() {
    let sheet = CssParser::new(
        "div { display: block; } p { display: block; background-color: red; }",
    )
    .parse_stylesheet();
    let node = first_node("<div><p></p></div>");
    let styled = StyledNode::new(&node, &sheet);
    let root = layout_tree(&styled, viewport(100_000, 100_000));
    let commands = build_display_commands(&root);
    assert_eq!(commands.len(), 1);
    assert_eq!(color_of(&commands[0]), Color::new(255, 0, 0, 255));
}

#[test]
fn display_none_emits_no_commands() {
    let sheet = CssParser::new(
        "div { display: block; } p { display: none; background-color: red; } b { display: block; background-color: blue; height: 2px; }",
    )
    .parse_stylesheet();
    let node = first_node("<div><p></p><b></b></div>");
    let styled = StyledNode::new(&node, &sheet);
    let root = layout_tree(&styled, viewport(100_000, 100_000));
    let commands = build_display_commands(&root);
    assert_eq!(commands.len(), 1);
    assert_eq!(color_of(&commands[0]), Color::new(0, 0, 255, 255));
}

#[test]
fn pipeline_end_to_end() {
    let commands = render_document(
        "<div><p></p></div>",
        "div { display: block; background-color: red; } p { display: block; background-color: blue; height: 5px; }",
        viewport(100_000, 100_000),
    )
    .expect("the document should render");
    assert_eq!(commands.len(), 2);
    assert_eq!(color_of(&commands[0]), Color::new(255, 0, 0, 255));
    assert_eq!(color_of(&commands[1]), Color::new(0, 0, 255, 255));
}

#[test]
fn pipeline_empty_document_renders_nothing() {
    assert!(render_document("", "div { color: red }", viewport(1_000, 1_000)).is_none());
}

#[test]
fn pipeline_refuses_unimplemented_width_unit() {
    assert!(render_document(
        "<div></div>",
        "div { width: 2em; }",
        viewport(1_000, 1_000)
    )
    .is_none());
}
