use browser_engine::dom::{AttrMap, ElementData, Node, NodeType};

#[test]
fn it_works() {
    assert_eq!(2 + 2, 4);
}

#[test]
fn attr_map_last_insert_wins() {
    let mut m = AttrMap::new();
    m.insert("id".to_string(), "a".to_string());
    m.insert("id".to_string(), "b".to_string());
    assert_eq!(m.get("id").map(|s| s.as_str()), Some("b"));
    assert_eq!(m.get("class"), None);
}

#[test]
fn element_id_and_classes() {
    let mut m = AttrMap::new();
    m.insert("id".to_string(), "main".to_string());
    m.insert("class".to_string(), "foo bar".to_string());
    let e = ElementData::new("div".to_string(), m);
    assert_eq!(e.get_id().map(|s| s.as_str()), Some("main"));
    assert_eq!(e.get_classes(), vec!["foo".to_string(), "bar".to_string()]);
}

#[test]
fn classes_split_keeps_empty_pieces() {
    let mut m = AttrMap::new();
    m.insert("class".to_string(), "a  b".to_string());
    let e = ElementData::new("p".to_string(), m);
    assert_eq!(
        e.get_classes(),
        vec!["a".to_string(), "".to_string(), "b".to_string()]
    );
}

#[test]
fn classes_absent_attribute() {
    let e = ElementData::new("p".to_string(), AttrMap::new());
    assert!(e.get_classes().is_empty());
    assert_eq!(e.get_id(), None);
}

#[test]
fn node_construction() {
    let text = Node::new(NodeType::Text("x".to_string()), Vec::new());
    let elem = Node::new(
        NodeType::Element(ElementData::new("div".to_string(), AttrMap::new())),
        vec![text],
    );
    assert_eq!(elem.children.len(), 1);
    match &elem.children[0].node_type {
        NodeType::Text(t) => assert_eq!(t, "x"),
        _ => panic!("expected a text child"),
    }
}
