use novelbase_memory_mcp::models::{Edge, EdgeType, Node, NodeLabel, PropValue, Properties, PropertiesError};

#[test]
fn test_edge_type_roundtrip() {
    assert_eq!(EdgeType::from_str("KNOWS"), Some(EdgeType::Knows));
    assert_eq!(EdgeType::from_str("knows"), Some(EdgeType::Knows));
    assert_eq!(EdgeType::from_str("UNKNOWN"), None);
}

#[test]
fn test_edge_type_as_str() {
    assert_eq!(EdgeType::Knows.as_str(), "KNOWS");
    assert_eq!(EdgeType::LeadsTo.as_str(), "LEADS_TO");
}

#[test]
fn test_edge_type_cn_name() {
    assert_eq!(EdgeType::Knows.cn_name(), "认识");
    assert_eq!(EdgeType::LeadsTo.cn_name(), "导致");
}

#[test]
fn test_edge_creation() {
    let edge = Edge::new("test", 1, 2, EdgeType::Knows);
    assert_eq!(edge.source_id, 1);
    assert_eq!(edge.target_id, 2);
    assert_eq!(edge.edge_type, EdgeType::Knows);
}

#[test]
fn test_node_label_roundtrip() {
    assert_eq!(NodeLabel::from_str("Character"), Some(NodeLabel::Character));
    assert_eq!(NodeLabel::from_str("character"), Some(NodeLabel::Character));
    assert_eq!(NodeLabel::from_str("unknown"), None);
}

#[test]
fn test_node_label_as_str() {
    assert_eq!(NodeLabel::Character.as_str(), "Character");
    assert_eq!(NodeLabel::Location.as_str(), "Location");
}

#[test]
fn test_node_label_cn_name() {
    assert_eq!(NodeLabel::Character.cn_name(), "角色");
    assert_eq!(NodeLabel::Location.cn_name(), "地点");
}

#[test]
fn test_properties() {
    let mut props = Properties::new();
    props.insert("age", PropValue::Int(25));
    props.insert("name", PropValue::Str("张三".to_string()));

    assert_eq!(props.get_str("name"), Some("张三"));
    assert_eq!(props.get("age").and_then(|v| v.as_i64()), Some(25));
    assert_eq!(props.get_str("not_exists"), None);
}

#[test]
fn test_properties_json_roundtrip() {
    let mut props = Properties::new();
    props.insert("trait", PropValue::Str("勇敢".to_string()));
    let json = props.to_json();
    let parsed = Properties::from_json(&json).unwrap();
    assert_eq!(parsed.get_str("trait"), Some("勇敢"));
}

#[test]
fn test_node_builder() {
    let node = Node::new("test_project", NodeLabel::Character, "张三", "test_project.张三")
        .with_file("第一章.md")
        .with_lines(1, 50);

    assert_eq!(node.name, "张三");
    assert_eq!(node.file_path, Some("第一章.md".to_string()));
    assert_eq!(node.start_line, Some(1));
    assert_eq!(node.end_line, Some(50));
}

#[test]
fn every_label_name_reads_back() {
    let labels = [
        NodeLabel::Character, NodeLabel::Location, NodeLabel::Scene, NodeLabel::Chapter,
        NodeLabel::Plotline, NodeLabel::Timeline, NodeLabel::Item, NodeLabel::Note,
        NodeLabel::Project, NodeLabel::File, NodeLabel::Organization,
    ];
    for l in labels {
        assert_eq!(NodeLabel::from_str(l.as_str()), Some(l));
        assert_eq!(NodeLabel::from_str(&l.as_str().to_lowercase()), Some(l));
    }
    assert_eq!(NodeLabel::from_str("CHARACTER"), None);
    assert_eq!(NodeLabel::from_str(" Character"), None);
}

#[test]
fn every_edge_type_name_reads_back() {
    let types = [
        EdgeType::Knows, EdgeType::LocatedIn, EdgeType::AppearsIn, EdgeType::LeadsTo,
        EdgeType::PartOf, EdgeType::HappensAt, EdgeType::Mentions, EdgeType::RelatedTo,
        EdgeType::Foreshadows, EdgeType::Twist, EdgeType::TaggedWith,
    ];
    for t in types {
        assert_eq!(EdgeType::from_str(t.as_str()), Some(t));
        assert_eq!(EdgeType::from_str(&t.as_str().to_lowercase()), Some(t));
    }
}

#[test]
fn later_insert_replaces_earlier() {
    let mut props = Properties::new();
    props.insert("k", PropValue::Int(1));
    props.insert("other", PropValue::Bool(true));
    props.insert("k", PropValue::Str("二".to_string()));
    assert_eq!(props.get_str("k"), Some("二"));
    assert_eq!(props.get("other"), Some(&PropValue::Bool(true)));
}

#[test]
fn properties_json_text_is_an_object() {
    let mut props = Properties::new();
    props.insert("a", PropValue::Int(7));
    props.insert("b", PropValue::Null);
    assert_eq!(props.to_json(), "{\"a\":7,\"b\":null}");
    assert_eq!(Properties::new().to_json(), "{}");
}

#[test]
fn properties_from_json_reads_scalars() {
    let p = Properties::from_json("{\"n\":-3,\"s\":\"x\",\"t\":false,\"z\":null}").unwrap();
    assert_eq!(p.get("n"), Some(&PropValue::Int(-3)));
    assert_eq!(p.get_str("s"), Some("x"));
    assert_eq!(p.get("t"), Some(&PropValue::Bool(false)));
    assert_eq!(p.get("z"), Some(&PropValue::Null));
}

#[test]
fn properties_from_json_errors() {
    assert!(matches!(Properties::from_json("{not json"), Err(PropertiesError::Json(_))));
    assert!(matches!(Properties::from_json("[1,2]"), Err(PropertiesError::Unsupported)));
    assert!(matches!(Properties::from_json("{\"a\":[1]}"), Err(PropertiesError::Unsupported)));
}

#[test]
fn node_copy_keeps_everything() {
    let mut n = Node::new("p", NodeLabel::Item, "剑", "p.剑").with_file("a.md");
    n.properties.insert("x", PropValue::Int(1));
    let c = n.duplicate();
    assert_eq!(c.qualified_name, "p.剑");
    assert_eq!(c.file_path, Some("a.md".to_string()));
    assert_eq!(c.properties.get("x"), Some(&PropValue::Int(1)));
}

#[test]
fn tagged_with_edges() {
    for s in ["TAGGED_WITH", "TaggedWith", "tagged_with"] {
        assert_eq!(EdgeType::from_str(s), Some(EdgeType::TaggedWith));
    }
    assert_eq!(EdgeType::TaggedWith.as_str(), "TAGGED_WITH");
    assert_eq!(EdgeType::TaggedWith.cn_name(), "标签标记");
    assert_eq!(EdgeType::from_str("kNOWS"), None);
    assert_eq!(EdgeType::from_str(" KNOWS"), None);
    assert_eq!(EdgeType::from_str("LeadsTo"), Some(EdgeType::LeadsTo));
}
