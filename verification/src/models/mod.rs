//! Nodes and edges of the knowledge graph.

mod node;
mod edge;

pub use node::{
    NodeLabel, label_of_str, label_name, label_cn_name, lemma_label_name_roundtrip, search_label_options, lemma_search_label_options, PropValue,
    PropValueView, entries_map, json_text, json_object_of, plain_keys, PropertiesError, Properties,
    lemma_properties_read_after_write, opt_view, NodeView, Node, new_node_view,
};
pub use edge::{
    EdgeType, edge_type_of_str, edge_type_name, edge_type_cn_name, edge_type_variant_name,
    lemma_edge_type_name_roundtrip, relationship_type_options, lemma_relationship_type_options,
    EdgeView, Edge, new_edge_view,
};
