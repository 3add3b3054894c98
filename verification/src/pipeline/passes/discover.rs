//! The discover pass (incremental import): a Markdown file of the project
//! directory whose content hash matches the stored one is unchanged and
//! skipped; a new or modified file becomes a file node and its hash is to be
//! stored.
//!
//! The application lists the directory, reads the files and talks to the
//! store; the decisions and the graph updates are made here.

use vstd::prelude::*;
use vstd::string::{StringExecFns, StrSliceExecFns};
use crate::models::{Node, NodeView, NodeLabel, Properties, PropValue, PropValueView, new_node_view};
use crate::pipeline::graph_buf::{GraphBuffer, spec_upsert_node, found, lemma_upsert_then_find};
use crate::store::FileHash;

verus! {

/// Whether a file name has the extension `md` (as `Path::extension` reads it:
/// the part after the last dot, when something precedes that dot).
pub open spec fn has_md_extension(name: Seq<char>) -> bool {
    name.len() >= 4 && name.subrange(name.len() - 3, name.len() as int) == ".md"@
}

/// The file node of a chapter file.
pub open spec fn file_node_view(project: Seq<char>, file_name: Seq<char>, rel_path: Seq<char>, source: Seq<char>) -> NodeView {
    NodeView {
        file_path: Some(rel_path),
        properties: Map::empty().insert("source"@, PropValueView::Str(source)),
        ..new_node_view(project, NodeLabel::File, file_name, project + "."@ + rel_path)
    }
}

/// What the discover pass did with a file.
#[derive(Debug, Clone, Copy, PartialEq, Eq, Structural)]
pub enum DiscoverStep {
    /// The content hash matches the stored one: the file is skipped and the
    /// graph is left as it was.
    Unchanged,
    /// The file is new or modified: its node got this id, and its hash is to
    /// be stored.
    Changed(i64),
}

/// The pass that finds the chapter files.
pub struct DiscoverPass;

impl DiscoverPass {
    /// The pass's name.
    pub fn name(&self) -> (r: &'static str)
        ensures
            r@ == "discover"@,
    {
        "discover"
    }

    /// Whether a file name is that of a Markdown file.
    pub fn is_markdown(file_name: &str) -> (r: bool)
        ensures
            r == has_md_extension(file_name@),
    {
        let n = file_name.unicode_len();
        if n < 4 {
            return false;
        }
        let tail = file_name.substring_char(n - 3, n);
        proof {
            reveal_strlit(".md");
        }
        crate::text::str_eq(tail, ".md")
    }

    /// The file node of a chapter file: named by the file, qualified by the
    /// project and the relative path, with the path and the `source` property.
    pub fn file_node(project: &str, file_name: &str, rel_path: &str, source: &str) -> (r: Node)
        ensures
            r@ == file_node_view(project@, file_name@, rel_path@, source@),
    {
        let mut qn = project.to_owned();
        qn.append(".");
        qn.append(rel_path);
        let mut node = Node::new(project, NodeLabel::File, file_name, qn.as_str()).with_file(rel_path);
        let mut props = Properties::new();
        props.insert("source", PropValue::Str(source.to_owned()));
        node.properties = props;
        node
    }

    /// Whether a file is unchanged: a stored hash exists and equals the new one.
    pub fn is_unchanged(stored: &Option<FileHash>, current: &FileHash) -> (r: bool)
        ensures
            r == (stored matches Some(h) && h.sha256@ == current.sha256@),
    {
        match stored {
            Some(h) => crate::text::str_eq(h.sha256.as_str(), current.sha256.as_str()),
            None => false,
        }
    }

    /// One Markdown file: an unchanged file (its stored hash equals the new
    /// one) is skipped and the graph stays as it was; a new or modified file
    /// gets its file node, and its hash is to be stored by the caller.
    pub fn visit(
        graph: &mut GraphBuffer,
        project: &str,
        source: &str,
        file_name: &str,
        rel_path: &str,
        stored: &Option<FileHash>,
        current: &FileHash,
    ) -> (r: DiscoverStep)
        requires
            old(graph).wf(),
            old(graph).has_room(1),
        ensures
            final(graph).wf(),
            if stored matches Some(h) && h.sha256@ == current.sha256@ {
                &&& final(graph)@ == old(graph)@
                &&& r == DiscoverStep::Unchanged
            } else {
                let (g, id) = spec_upsert_node(
                    old(graph)@,
                    file_node_view(project@, file_name@, rel_path@, source@),
                );
                &&& final(graph)@ == g
                &&& r == DiscoverStep::Changed(id)
            },
    {
        if Self::is_unchanged(stored, current) {
            DiscoverStep::Unchanged
        } else {
            let node = Self::file_node(project, file_name, rel_path, source);
            let id = graph.upsert_node(node);
            DiscoverStep::Changed(id)
        }
    }
}

/// After a new or modified file is visited, the graph finds under
/// `project.rel_path` a File node of the project named by the file, carrying
/// the relative path and, as its only property, the source.
pub proof fn lemma_visited_file_found(
    g: crate::pipeline::graph_buf::GraphModel,
    project: Seq<char>,
    file_name: Seq<char>,
    rel_path: Seq<char>,
    source: Seq<char>,
)
    ensures
        ({
            let (g1, id) = spec_upsert_node(g, file_node_view(project, file_name, rel_path, source));
            found(g1, project + "."@ + rel_path) matches Some(n) && n.id == id && n.label == NodeLabel::File
                && n.project == project && n.name == file_name && n.file_path == Some(rel_path)
                && n.properties =~= Map::empty().insert("source"@, PropValueView::Str(source))
        }),
{
    lemma_upsert_then_find(g, file_node_view(project, file_name, rel_path, source));
}


} // verus!
