//! The embedding pass: the text that describes each character and location.
//!
//! The application runs the embedding model on these texts and stores the
//! quantized vectors; which nodes are embedded, and with which text, is
//! decided here.

use vstd::prelude::*;
use vstd::string::StringExecFns;
use crate::models::{Node, NodeView, NodeLabel, PropValueView};
use crate::pipeline::graph_buf::GraphBuffer;
use crate::pipeline::passes::chapter_graph::{field_is, holds_character, holds_location};
use crate::pipeline::passes::parse_chapter::{CharacterSpec, LocationSpec};
use crate::text::{seq_views, trim, trim_chars, chars_of};

verus! {

/// The string value of a property, or the empty string.
pub open spec fn str_prop(m: Map<Seq<char>, PropValueView>, key: Seq<char>) -> Seq<char> {
    if m.contains_key(key) && m[key] is Str {
        m[key]->Str_0
    } else {
        Seq::empty()
    }
}

/// The text embedded for a node: for a character its name, identity,
/// personality, motivation and fate; for anything else its name and
/// description; the parts joined by `。`.
pub open spec fn embed_text(n: NodeView) -> Seq<char> {
    let m = n.properties;
    if n.label == NodeLabel::Character {
        n.name + "。"@ + str_prop(m, "identity"@) + "。"@ + str_prop(m, "personality"@) + "。"@
            + str_prop(m, "motivation"@) + "。"@ + str_prop(m, "fate"@)
    } else {
        n.name + "。"@ + str_prop(m, "description"@)
    }
}

/// The pass that embeds characters and locations.
pub struct EmbeddingPass;

fn str_prop_of(node: &Node, key: &str) -> (r: String)
    ensures
        r@ == str_prop(node@.properties, key@),
{
    match node.properties.get_str(key) {
        Some(s) => s.to_owned(),
        None => String::new(),
    }
}

impl EmbeddingPass {
    /// The pass's name.
    pub fn name(&self) -> (r: &'static str)
        ensures
            r@ == "embedding"@,
    {
        "embedding"
    }

    /// The nodes to embed: the characters, then the locations, in graph order.
    pub fn targets(graph: &GraphBuffer) -> (r: Vec<Node>)
        ensures
            seq_views(r@) == graph@.nodes.filter(|n: NodeView| n.label == NodeLabel::Character)
                + graph@.nodes.filter(|n: NodeView| n.label == NodeLabel::Location),
    {
        let chars = graph.find_by_label(NodeLabel::Character);
        let locs = graph.find_by_label(NodeLabel::Location);
        let mut out: Vec<Node> = Vec::new();
        let mut i: usize = 0;
        while i < chars.len()
            invariant
                i <= chars.len(),
                seq_views(out@) == seq_views(chars@).take(i as int),
            decreases chars.len() - i,
        {
            let ghost before = seq_views(out@);
            out.push(chars[i].duplicate());
            assert(seq_views(out@) =~= before.push(chars@[i as int]@));
            assert(seq_views(chars@).take(i + 1) =~= seq_views(chars@).take(i as int).push(
                chars@[i as int]@,
            ));
            i = i + 1;
        }
        assert(seq_views(chars@).take(chars.len() as int) =~= seq_views(chars@));
        let ghost head = seq_views(out@);
        let mut k: usize = 0;
        while k < locs.len()
            invariant
                k <= locs.len(),
                seq_views(out@) == head + seq_views(locs@).take(k as int),
            decreases locs.len() - k,
        {
            let ghost before = seq_views(out@);
            out.push(locs[k].duplicate());
            assert(seq_views(out@) =~= before.push(locs@[k as int]@));
            assert(seq_views(locs@).take(k + 1) =~= seq_views(locs@).take(k as int).push(
                locs@[k as int]@,
            ));
            k = k + 1;
        }
        assert(seq_views(locs@).take(locs.len() as int) =~= seq_views(locs@));
        out
    }

    /// The text embedded for a node.
    pub fn node_text(node: &Node) -> (r: String)
        ensures
            r@ == embed_text(node@),
    {
        let mut t = node.name.clone();
        t.append("。");
        if node.label == NodeLabel::Character {
            t.append(str_prop_of(node, "identity").as_str());
            t.append("。");
            t.append(str_prop_of(node, "personality").as_str());
            t.append("。");
            t.append(str_prop_of(node, "motivation").as_str());
            t.append("。");
            t.append(str_prop_of(node, "fate").as_str());
        } else {
            t.append(str_prop_of(node, "description").as_str());
        }
        t
    }

    /// Whether a text is worth embedding: something is left once it is trimmed.
    pub fn is_worth_embedding(text: &str) -> (r: bool)
        ensures
            r == (trim(text@).len() > 0),
    {
        let v = chars_of(text);
        let t = trim_chars(&v);
        t.len() > 0
    }
}

/// A property as `field_is` states it reads back as that string (empty when
/// absent).
proof fn lemma_field_read(m: Map<Seq<char>, PropValueView>, key: Seq<char>, v: Seq<char>)
    requires
        field_is(m, key, v),
    ensures
        str_prop(m, key) == v,
{
}

/// The text embedded for the node of a parsed character is its name,
/// identity, personality, motivation and fate, joined by `。` (an empty part
/// where the character has none).
pub proof fn lemma_character_embed_text(n: NodeView, project: Seq<char>, c: CharacterSpec)
    requires
        holds_character(n, project, c),
    ensures
        embed_text(n) == c.name + "。"@ + c.identity + "。"@ + c.personality + "。"@ + c.motivation + "。"@
            + c.fate,
{
    lemma_field_read(n.properties, "identity"@, c.identity);
    lemma_field_read(n.properties, "personality"@, c.personality);
    lemma_field_read(n.properties, "motivation"@, c.motivation);
    lemma_field_read(n.properties, "fate"@, c.fate);
}

/// The text embedded for the node of a parsed location is its name and its
/// description, joined by `。`.
pub proof fn lemma_location_embed_text(n: NodeView, project: Seq<char>, l: LocationSpec)
    requires
        holds_location(n, project, l),
    ensures
        embed_text(n) == l.name + "。"@ + l.description,
{
    lemma_field_read(n.properties, "description"@, l.description);
}


} // verus!
