use novelbase_memory_mcp::models::{Edge, EdgeType, Node, NodeLabel};
use novelbase_memory_mcp::pipeline::graph_buf::GraphBuffer;

#[test]
fn test_graph_buffer_new() {
    let gb = GraphBuffer::new("test");
    assert_eq!(gb.node_count(), 0);
    assert_eq!(gb.edge_count(), 0);
}

#[test]
fn test_upsert_node_find() {
    let mut gb = GraphBuffer::new("test");
    let node = Node::new("test", NodeLabel::Character, "张三", "test.张三");
    let id = gb.upsert_node(node);

    assert_eq!(id, 1);
    let found = gb.find_by_qn("test.张三");
    assert!(found.is_some());
    assert_eq!(found.unwrap().name, "张三");
}

#[test]
fn test_upsert_node_dedup() {
    let mut gb = GraphBuffer::new("test");

    let id1 = gb.upsert_node(Node::new("test", NodeLabel::Character, "张三", "test.张三"));
    let id2 = gb.upsert_node(Node::new("test", NodeLabel::Character, "张三（改）", "test.张三"));

    assert_eq!(id1, id2);
    assert_eq!(gb.find_by_qn("test.张三").unwrap().name, "张三（改）");
}

#[test]
fn mod_test_find_by_label() {
    let mut gb = GraphBuffer::new("test");
    gb.upsert_node(Node::new("test", NodeLabel::Character, "张三", "test.张三"));
    gb.upsert_node(Node::new("test", NodeLabel::Location, "北京", "test.北京"));

    let chars = gb.find_by_label(NodeLabel::Character);
    assert_eq!(chars.len(), 1);
    assert_eq!(chars[0].name, "张三");
}

#[test]
fn test_insert_edge_dedup() {
    let mut gb = GraphBuffer::new("test");

    let n1 = gb.upsert_node(Node::new("test", NodeLabel::Character, "A", "test.A"));
    let n2 = gb.upsert_node(Node::new("test", NodeLabel::Character, "B", "test.B"));

    let edge = Edge::new("test", n1, n2, EdgeType::Knows);
    let id1 = gb.insert_edge(edge);
    let id2 = gb.insert_edge(Edge::new("test", n1, n2, EdgeType::Knows));

    assert_eq!(id1, id2);
    assert_eq!(gb.edge_count(), 1);
}

#[test]
fn mod_test_delete_node() {
    let mut gb = GraphBuffer::new("test");
    let n1 = gb.upsert_node(Node::new("test", NodeLabel::Character, "A", "test.A"));
    let n2 = gb.upsert_node(Node::new("test", NodeLabel::Character, "B", "test.B"));
    gb.insert_edge(Edge::new("test", n1, n2, EdgeType::Knows));

    assert!(gb.delete_node(n1));
    assert!(gb.find_by_qn("test.A").is_none());
    assert_eq!(gb.node_count(), 1);
    assert_eq!(gb.edge_count(), 0);
}

#[test]
fn test_delete_by_file() {
    let mut gb = GraphBuffer::new("test");
    let file1 = gb.upsert_node(Node::new("test", NodeLabel::File, "ch1.md", "test.ch1.md"));
    let _file2 = gb.upsert_node(Node::new("test", NodeLabel::File, "ch2.md", "test.ch2.md"));
    let char1 = gb.upsert_node(Node::new("test", NodeLabel::Character, "A", "test.A"));
    gb.insert_edge(Edge::new("test", char1, file1, EdgeType::AppearsIn));

    gb.delete_by_file(file1);
    assert_eq!(gb.node_count(), 2);
    assert_eq!(gb.edge_count(), 0);
    assert!(gb.find_by_qn("test.ch1.md").is_none());
}

#[test]
fn test_merge() {
    let mut dst = GraphBuffer::new("test");
    dst.upsert_node(Node::new("test", NodeLabel::Character, "A", "test.A"));
    dst.upsert_node(Node::new("test", NodeLabel::Character, "B", "test.B"));

    let mut src = GraphBuffer::new("test");
    src.upsert_node(Node::new("test", NodeLabel::Character, "C", "test.C"));
    src.upsert_node(Node::new("test", NodeLabel::Character, "A", "test.A"));

    dst.merge(src);
    assert_eq!(dst.node_count(), 3);
}

#[test]
fn ids_come_from_one_counter() {
    let mut gb = GraphBuffer::new("p");
    let a = gb.upsert_node(Node::new("p", NodeLabel::Character, "A", "p.A"));
    let b = gb.upsert_node(Node::new("p", NodeLabel::Character, "B", "p.B"));
    let e = gb.insert_edge(Edge::new("p", a, b, EdgeType::Knows));
    let c = gb.upsert_node(Node::new("p", NodeLabel::Character, "C", "p.C"));
    assert_eq!((a, b, e, c), (1, 2, 3, 4));
}

#[test]
fn edges_differ_by_type_or_direction() {
    let mut gb = GraphBuffer::new("p");
    let a = gb.upsert_node(Node::new("p", NodeLabel::Character, "A", "p.A"));
    let b = gb.upsert_node(Node::new("p", NodeLabel::Character, "B", "p.B"));
    let e1 = gb.insert_edge(Edge::new("p", a, b, EdgeType::Knows));
    let e2 = gb.insert_edge(Edge::new("p", b, a, EdgeType::Knows));
    let e3 = gb.insert_edge(Edge::new("p", a, b, EdgeType::LeadsTo));
    assert!(e1 != e2 && e2 != e3 && e1 != e3);
    assert_eq!(gb.edge_count(), 3);
}

#[test]
fn delete_missing_node_or_edge_reports_false() {
    let mut gb = GraphBuffer::new("p");
    let a = gb.upsert_node(Node::new("p", NodeLabel::Character, "A", "p.A"));
    let b = gb.upsert_node(Node::new("p", NodeLabel::Character, "B", "p.B"));
    let e = gb.insert_edge(Edge::new("p", a, b, EdgeType::Knows));
    assert!(!gb.delete_node(99));
    assert!(!gb.delete_edge(99));
    assert!(gb.delete_edge(e));
    assert_eq!(gb.edge_count(), 0);
    assert_eq!(gb.node_count(), 2);
}

#[test]
fn merge_keeps_existing_ids_and_adds_edges() {
    let mut dst = GraphBuffer::new("p");
    let a = dst.upsert_node(Node::new("p", NodeLabel::Character, "A", "p.A"));
    let mut src = GraphBuffer::new("p");
    let x = src.upsert_node(Node::new("p", NodeLabel::Character, "A2", "p.A"));
    let y = src.upsert_node(Node::new("p", NodeLabel::Character, "B", "p.B"));
    src.insert_edge(Edge::new("p", x, y, EdgeType::Knows));
    dst.merge(src);
    assert_eq!(dst.find_by_qn("p.A").unwrap().id, a);
    assert_eq!(dst.find_by_qn("p.A").unwrap().name, "A2");
    assert_eq!(dst.node_count(), 2);
    assert_eq!(dst.edge_count(), 1);
}

#[test]
fn store_ids_replace_ids_and_follow_edges() {
    let mut gb = GraphBuffer::new("p");
    let a = gb.upsert_node(Node::new("p", NodeLabel::Character, "A", "p.A"));
    let b = gb.upsert_node(Node::new("p", NodeLabel::Location, "B", "p.B"));
    gb.insert_edge(Edge::new("p", a, b, EdgeType::LocatedIn));
    gb.insert_edge(Edge::new("p", a, 77, EdgeType::Knows));
    gb.apply_store_ids(&vec![10, 20]);
    let ids: Vec<i64> = gb.node_list().iter().map(|n| n.id).collect();
    assert_eq!(ids, vec![10, 20]);
    let e = &gb.edge_list()[0];
    assert_eq!((e.source_id, e.target_id), (10, 20));
    let e2 = &gb.edge_list()[1];
    assert_eq!((e2.source_id, e2.target_id), (10, 77));
}

#[test]
fn room_for_ids() {
    let gb = GraphBuffer::new("p");
    assert!(gb.has_room_for(10));
    assert!(gb.has_room_for((i64::MAX - 1) as u128));
    assert!(!gb.has_room_for(i64::MAX as u128));
}

#[test]
fn deleted_names_and_keys_are_free() {
    let mut gb = GraphBuffer::new("p");
    let a = gb.upsert_node(Node::new("p", NodeLabel::Character, "A", "p.A"));
    let b = gb.upsert_node(Node::new("p", NodeLabel::Character, "B", "p.B"));
    let e = gb.insert_edge(Edge::new("p", a, b, EdgeType::Knows));
    assert!(gb.delete_node(a));
    assert!(gb.find_by_qn("p.A").is_none());
    let e2 = gb.insert_edge(Edge::new("p", a, b, EdgeType::Knows));
    assert_ne!(e2, e);
    assert_eq!(e2, 4);
    assert_eq!(gb.edge_count(), 1);
}

#[test]
fn merged_edges_follow_node_names() {
    let mut dst = GraphBuffer::new("t");
    dst.upsert_node(Node::new("t", NodeLabel::Character, "A", "t.A"));
    dst.upsert_node(Node::new("t", NodeLabel::Character, "B", "t.B"));
    let mut src = GraphBuffer::new("t");
    let c = src.upsert_node(Node::new("t", NodeLabel::Character, "C", "t.C"));
    let d = src.upsert_node(Node::new("t", NodeLabel::Character, "D", "t.D"));
    assert_eq!((c, d), (1, 2));
    src.insert_edge(Edge::new("t", c, d, EdgeType::Knows));
    dst.merge(src);
    assert_eq!(dst.edge_count(), 1);
    let e = &dst.edge_list()[0];
    assert_eq!(e.source_id, dst.find_by_qn("t.C").unwrap().id);
    assert_eq!(e.target_id, dst.find_by_qn("t.D").unwrap().id);
    assert_eq!(e.edge_type, EdgeType::Knows);
}
