use browser_engine::css::{Color, Value};
use browser_engine::css_parser::CssParser;
use browser_engine::dom::{Node, NodeType};
use browser_engine::html_parse::HtmlParser;
use browser_engine::style::{selector_matches, Display, StyledNode};

fn first_node(s: &str) -> Node {
    let mut nodes = HtmlParser::new(s).parse_nodes();
    nodes.remove(0)
}

#[test]
fn selector_matching_with_class() {
    // `div.foo` matches an element carrying the `foo` class…
    let sheet = CssParser::new("div.foo { color: red }").parse_stylesheet();
    let node = first_node("<div class=\"foo bar\"></div>");
    let styled = StyledNode::new(&node, &sheet);
    assert_eq!(
        styled.value("color"),
        Some(&Value::Color(Color::new(255, 0, 0, 255)))
    );
}

#[test]
fn selector_not_matching_without_class() {
    // …and fails on an element missing it.
    let sheet = CssParser::new("div.foo { color: red }").parse_stylesheet();
    let node = first_node("<div class=\"bar\"></div>");
    let styled = StyledNode::new(&node, &sheet);
    assert_eq!(styled.value("color"), None);
}

#[test]
fn rule_order_precedence() {
    // Both rules match and set `color`; the later rule in the sheet wins,
    // whatever the selectors look like.
    let sheet =
        CssParser::new("div.foo { color: red } div { color: blue }").parse_stylesheet();
    let node = first_node("<div class=\"foo\"></div>");
    let styled = StyledNode::new(&node, &sheet);
    assert_eq!(
        styled.value("color"),
        Some(&Value::Color(Color::new(0, 0, 255, 255)))
    );
}

#[test]
fn id_selector_requires_matching_id() {
    let sheet = CssParser::new("#main { color: red }").parse_stylesheet();
    let with_id = first_node("<div id=\"main\"></div>");
    let styled = StyledNode::new(&with_id, &sheet);
    assert!(styled.value("color").is_some());

    let other_id = first_node("<div id=\"other\"></div>");
    let styled = StyledNode::new(&other_id, &sheet);
    assert!(styled.value("color").is_none());

    let no_id = first_node("<div></div>");
    let styled = StyledNode::new(&no_id, &sheet);
    assert!(styled.value("color").is_none());
}

#[test]
fn compound_selector_matches_if_any_part_does() {
    // A selector's compound parts are alternatives: one matching part is
    // enough.
    let sheet = CssParser::new("span div { color: red }").parse_stylesheet();
    let node = first_node("<div></div>");
    let styled = StyledNode::new(&node, &sheet);
    assert!(styled.value("color").is_some());
}

#[test]
fn selector_matches_directly() {
    let sheet = CssParser::new("p.a.b { color: red }").parse_stylesheet();
    let node = first_node("<p class=\"a b c\"></p>");
    match &node.node_type {
        NodeType::Element(e) => {
            assert!(selector_matches(e, &sheet.rules[0].selectors[0]));
        }
        _ => panic!("expected an element"),
    }
    let missing = first_node("<p class=\"a c\"></p>");
    match &missing.node_type {
        NodeType::Element(e) => {
            assert!(!selector_matches(e, &sheet.rules[0].selectors[0]));
        }
        _ => panic!("expected an element"),
    }
}

#[test]
fn display_keywords() {
    let sheet = CssParser::new(
        "a { display: block } b { display: none } c { display: inline-block } d { display: weird } e { color: red }",
    )
    .parse_stylesheet();
    let cases = [
        ("<a></a>", Display::Block),
        ("<b></b>", Display::DisplayNone),
        ("<c></c>", Display::InlineBlock),
        ("<d></d>", Display::Inline),
        ("<e></e>", Display::Inline),
        ("<f></f>", Display::Inline),
    ];
    for (markup, expected) in cases.iter() {
        let node = first_node(markup);
        let styled = StyledNode::new(&node, &sheet);
        assert_eq!(styled.get_display(), *expected);
    }
}

#[test]
fn num_or_reads_lengths_only() {
    let sheet =
        CssParser::new("p { width: 4px; margin-left: 10; }").parse_stylesheet();
    let node = first_node("<p></p>");
    let styled = StyledNode::new(&node, &sheet);
    // A length magnitude is returned in thousandths…
    assert_eq!(styled.num_or("width", 7), 4_000);
    // …an `Other` value falls back to the default…
    assert_eq!(styled.num_or("margin-left", 7), 7);
    // …and so does an absent property.
    assert_eq!(styled.num_or("height", 9), 9);
}

#[test]
fn text_children_are_pruned() {
    let sheet = CssParser::new("").parse_stylesheet();
    let node = first_node("<div>hello<p></p>world</div>");
    let styled = StyledNode::new(&node, &sheet);
    assert_eq!(styled.children.len(), 1);
}
