use novelbase_memory_mcp::models::{EdgeType, Node, NodeLabel, PropValue, PropertiesError};
use novelbase_memory_mcp::pipeline::graph_buf::GraphBuffer;
use novelbase_memory_mcp::pipeline::passes::discover::{DiscoverPass, DiscoverStep};
use novelbase_memory_mcp::pipeline::passes::embed::EmbeddingPass;
use novelbase_memory_mcp::pipeline::PipelineError;
use novelbase_memory_mcp::store::{
    cosine_terms, edge_from_row, hex_text, node_from_row, EdgeRow, FileHash, NodeRow, RowError,
    StoreError,
};

fn row(label: &str, props: &str) -> NodeRow {
    NodeRow {
        id: 8,
        project: "p".to_string(),
        label: label.to_string(),
        name: "甲".to_string(),
        qualified_name: "p.甲".to_string(),
        file_path: Some("a.md".to_string()),
        start_line: Some(1),
        end_line: None,
        properties: props.to_string(),
    }
}

#[test]
fn hashes_of_contents() {
    let h = FileHash::from_contents("p", "a.md", b"abc", 5, 3);
    assert_eq!(h.sha256, "ba7816bf8f01cfea414140de5dae2223b00361a396177a9cb410ff61f20015ad");
    assert_eq!((h.project.as_str(), h.rel_path.as_str(), h.mtime_ns, h.size), ("p", "a.md", 5, 3));
    assert_eq!(hex_text(&[0x00, 0x0f, 0xa0, 0xff]), "000fa0ff");
}

#[test]
fn nodes_from_rows() {
    let n = node_from_row(row("Character", "{\"k\":\"v\"}")).ok().unwrap();
    assert_eq!((n.id, n.label, n.name.as_str()), (8, NodeLabel::Character, "甲"));
    assert_eq!(n.file_path, Some("a.md".to_string()));
    assert_eq!(n.properties.get_str("k"), Some("v"));
    assert!(matches!(node_from_row(row("Robot", "{}")), Err(RowError::UnknownLabel(ref s)) if s == "Robot"));
    assert!(matches!(node_from_row(row("Robot", "{")), Err(RowError::Properties(PropertiesError::Json(_)))));
    assert!(matches!(node_from_row(row("Item", "3")), Err(RowError::Properties(PropertiesError::Unsupported))));
}

#[test]
fn edges_from_rows() {
    let er = |t: &str, p: &str| EdgeRow {
        id: 2,
        project: "p".to_string(),
        source_id: 3,
        target_id: 4,
        edge_type: t.to_string(),
        properties: p.to_string(),
    };
    let e = edge_from_row(er("KNOWS", "{}")).ok().unwrap();
    assert_eq!((e.id, e.source_id, e.target_id, e.edge_type), (2, 3, 4, EdgeType::Knows));
    assert!(matches!(edge_from_row(er("HATES", "{}")), Err(RowError::UnknownEdgeType(ref s)) if s == "HATES"));
    assert!(matches!(edge_from_row(er("HATES", "nope")), Err(RowError::Properties(_))));
}

#[test]
fn cosine_sums() {
    assert_eq!(cosine_terms(&[1, 2, 255], &[3, 0, 254]), Some((3 + 2, 1 + 4 + 1, 9 + 4)));
    assert_eq!(cosine_terms(&[128], &[128]), Some((16384, 16384, 16384)));
    assert_eq!(cosine_terms(&[1], &[1, 2]), None);
    assert_eq!(cosine_terms(&[], &[]), None);
}

#[test]
fn markdown_names() {
    assert!(DiscoverPass::is_markdown("第一章.md"));
    assert!(DiscoverPass::is_markdown("..md"));
    assert!(!DiscoverPass::is_markdown(".md"));
    assert!(!DiscoverPass::is_markdown("md"));
    assert!(!DiscoverPass::is_markdown("a.MD"));
    assert!(!DiscoverPass::is_markdown("a.md.txt"));
    assert_eq!(DiscoverPass.name(), "discover");
    assert_eq!(EmbeddingPass.name(), "embedding");
}

#[test]
fn discovering_files() {
    let mut g = GraphBuffer::new("p");
    let now = FileHash::from_contents("p", "a.md", b"x", 0, 1);
    let same = FileHash::from_contents("p", "a.md", b"x", 9, 1);
    let other = FileHash::from_contents("p", "a.md", b"y", 0, 1);
    // an unchanged file is skipped and adds nothing
    let s0 = DiscoverPass::visit(&mut g, "p", "original", "a.md", "a.md", &Some(same), &now);
    assert_eq!(s0, DiscoverStep::Unchanged);
    assert_eq!(g.node_count(), 0);
    let s1 = DiscoverPass::visit(&mut g, "p", "original", "a.md", "a.md", &None, &now);
    assert_eq!(s1, DiscoverStep::Changed(1));
    let s2 = DiscoverPass::visit(&mut g, "p", "continuation", "a.md", "a.md", &Some(other), &now);
    assert_eq!(s2, DiscoverStep::Changed(1));
    let n = g.find_by_qn("p.a.md").unwrap();
    assert_eq!(n.label, NodeLabel::File);
    assert_eq!(n.file_path, Some("a.md".to_string()));
    assert_eq!(n.properties.get_str("source"), Some("continuation"));
    assert_eq!(g.node_count(), 1);
}

#[test]
fn embedding_texts() {
    let mut g = GraphBuffer::new("p");
    let mut c = Node::new("p", NodeLabel::Character, "甲", "p.甲");
    c.properties.insert("identity", PropValue::Str("剑客".to_string()));
    c.properties.insert("fate", PropValue::Str("归隐".to_string()));
    let mut l = Node::new("p", NodeLabel::Location, "乙", "p.乙");
    l.properties.insert("description", PropValue::Str("城".to_string()));
    g.upsert_node(l);
    g.upsert_node(Node::new("p", NodeLabel::Note, "注", "p.注"));
    g.upsert_node(c);
    let t = EmbeddingPass::targets(&g);
    let names: Vec<&str> = t.iter().map(|n| n.name.as_str()).collect();
    assert_eq!(names, vec!["甲", "乙"]);
    assert_eq!(EmbeddingPass::node_text(&t[0]), "甲。剑客。。。归隐");
    assert_eq!(EmbeddingPass::node_text(&t[1]), "乙。城");
    assert!(EmbeddingPass::is_worth_embedding("甲。"));
    assert!(!EmbeddingPass::is_worth_embedding(" \t\n"));
}

#[test]
fn pipeline_errors_convert() {
    let e: PipelineError = std::io::Error::new(std::io::ErrorKind::NotFound, "x").into();
    assert!(matches!(e, PipelineError::Io(_)));
    let s: PipelineError = StoreError::NotFound.into();
    assert!(matches!(s, PipelineError::Store(StoreError::NotFound)));
}
