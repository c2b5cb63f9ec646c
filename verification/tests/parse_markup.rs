use browser_engine::dom::{Node, NodeType};
use browser_engine::html_parse::HtmlParser;

fn parse(s: &str) -> Vec<Node> {
    HtmlParser::new(s).parse_nodes()
}

fn tag_of(n: &Node) -> &str {
    match &n.node_type {
        NodeType::Element(e) => e.tag_name.as_str(),
        _ => panic!("expected an element"),
    }
}

fn text_of(n: &Node) -> &str {
    match &n.node_type {
        NodeType::Text(t) => t.as_str(),
        _ => panic!("expected a text node"),
    }
}

fn comment_of(n: &Node) -> &str {
    match &n.node_type {
        NodeType::Comment(t) => t.as_str(),
        _ => panic!("expected a comment node"),
    }
}

#[test]
fn round_trip_shape() {
    // Well-formed markup parses to exactly its nesting, with nothing
    // spliced in or out.
    let nodes = parse("<div><p>x</p></div>");
    assert_eq!(nodes.len(), 1);
    let div = &nodes[0];
    assert_eq!(tag_of(div), "div");
    assert_eq!(div.children.len(), 1);
    let p = &div.children[0];
    assert_eq!(tag_of(p), "p");
    assert_eq!(p.children.len(), 1);
    assert_eq!(text_of(&p.children[0]), "x");
}

#[test]
fn mismatch_recovery_splices_children() {
    // The unclosed <p> is dropped and its children take its place.
    let nodes = parse("<div><p>x</div>");
    assert_eq!(nodes.len(), 1);
    let div = &nodes[0];
    assert_eq!(tag_of(div), "div");
    assert_eq!(div.children.len(), 1);
    assert_eq!(text_of(&div.children[0]), "x");
}

#[test]
fn comment_degenerate_empty() {
    let nodes = parse("<!-->");
    assert_eq!(nodes.len(), 1);
    assert_eq!(comment_of(&nodes[0]), "");
}

#[test]
fn comment_degenerate_three_dashes() {
    let nodes = parse("<!--->");
    assert_eq!(nodes.len(), 1);
    assert_eq!(comment_of(&nodes[0]), "");
}

#[test]
fn comment_well_formed() {
    let nodes = parse("<!-- ok -->");
    assert_eq!(nodes.len(), 1);
    assert_eq!(comment_of(&nodes[0]), " ok ");
}

#[test]
fn comment_does_not_consume_siblings() {
    let nodes = parse("<!--><p></p>");
    assert_eq!(nodes.len(), 2);
    assert_eq!(comment_of(&nodes[0]), "");
    assert_eq!(tag_of(&nodes[1]), "p");
}

#[test]
fn comment_with_embedded_dashes() {
    let nodes = parse("<!-- a-b -->");
    assert_eq!(nodes.len(), 1);
    assert_eq!(comment_of(&nodes[0]), " a-b ");
}

#[test]
fn comment_missing_dashes_resynchronizes() {
    let nodes = parse("<!x junk><p></p>");
    assert_eq!(comment_of(&nodes[0]), "");
    // The resynchronization stops before the `>`, which then starts a
    // text run.
    assert!(nodes.len() >= 2);
}

#[test]
fn embedded_comment_opener_discards_body() {
    // An embedded `<!--` inside a comment body empties the comment and
    // resynchronizes before the next `>`.
    let nodes = parse("<!--a<!--b-->");
    assert_eq!(nodes.len(), 2);
    assert_eq!(comment_of(&nodes[0]), "");
    assert_eq!(text_of(&nodes[1]), ">");
}

#[test]
fn comment_historical_space_variant() {
    // The one-space close variant ends the comment as an empty one.
    let nodes = parse("<!--x<! --->z");
    assert_eq!(nodes.len(), 2);
    assert_eq!(comment_of(&nodes[0]), "");
    assert_eq!(text_of(&nodes[1]), "z");
}

#[test]
fn comment_stray_dashes_stay_in_body() {
    let nodes = parse("<!--a--b-->");
    assert_eq!(nodes.len(), 1);
    assert_eq!(comment_of(&nodes[0]), "a--b");
}

#[test]
fn whitespace_collapse() {
    let nodes = parse("<p>a   b\n c</p>");
    assert_eq!(nodes.len(), 1);
    let p = &nodes[0];
    assert_eq!(p.children.len(), 1);
    assert_eq!(text_of(&p.children[0]), "a b c");
}

#[test]
fn attributes_quoted_and_lowercased() {
    let nodes = parse("<div ID=\"main\" CLASS='a b'></div>");
    let div = &nodes[0];
    match &div.node_type {
        NodeType::Element(e) => {
            assert_eq!(e.get_id().map(|s| s.as_str()), Some("main"));
            assert_eq!(e.get_classes(), vec!["a".to_string(), "b".to_string()]);
        }
        _ => panic!("expected an element"),
    }
}

#[test]
fn attribute_unquoted_value() {
    let nodes = parse("<div id=main></div>");
    match &nodes[0].node_type {
        NodeType::Element(e) => {
            assert_eq!(e.get_id().map(|s| s.as_str()), Some("main"));
        }
        _ => panic!("expected an element"),
    }
}

#[test]
fn attribute_without_value_is_empty() {
    let nodes = parse("<div hidden></div>");
    match &nodes[0].node_type {
        NodeType::Element(e) => {
            assert_eq!(e.attributes.get("hidden").map(|s| s.as_str()), Some(""));
        }
        _ => panic!("expected an element"),
    }
}

#[test]
fn stray_slash_in_tag_makes_progress() {
    // A character that can start no attribute is skipped rather than
    // looping forever. With no closing tag for `br`, what follows parses
    // as its children.
    let nodes = parse("<br/><p></p>");
    assert_eq!(nodes.len(), 1);
    assert_eq!(tag_of(&nodes[0]), "br");
    assert_eq!(nodes[0].children.len(), 1);
    assert_eq!(tag_of(&nodes[0].children[0]), "p");
}

#[test]
fn empty_input_parses_to_nothing() {
    assert!(parse("").is_empty());
}

#[test]
fn trailing_whitespace_yields_empty_text() {
    let nodes = parse("<p></p> ");
    assert_eq!(nodes.len(), 2);
    assert_eq!(tag_of(&nodes[0]), "p");
    assert_eq!(text_of(&nodes[1]), "");
}

#[test]
fn unterminated_tag_at_end_of_input() {
    let nodes = parse("<div");
    assert_eq!(nodes.len(), 1);
    assert_eq!(tag_of(&nodes[0]), "div");
    assert!(nodes[0].children.is_empty());
}

#[test]
fn nested_siblings() {
    let nodes = parse("<div><p>a</p><p>b</p></div>");
    let div = &nodes[0];
    assert_eq!(div.children.len(), 2);
    assert_eq!(text_of(&div.children[0].children[0]), "a");
    assert_eq!(text_of(&div.children[1].children[0]), "b");
}
