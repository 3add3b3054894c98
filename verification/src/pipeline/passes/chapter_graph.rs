//! Turning a parsed chapter into graph nodes and edges.

use vstd::prelude::*;
use vstd::string::StringExecFns;
use crate::models::{
    Node, NodeView, NodeLabel, Edge, EdgeView, EdgeType, Properties, PropValue, PropValueView,
    new_node_view, new_edge_view,
};
use crate::pipeline::graph_buf::{
    GraphBuffer, GraphModel, spec_upsert_node, spec_insert_edge, qn_index, qn_at, key_index, key_at, has_key,
    lemma_upsert_then_find, found, lemma_upsert_keeps_other, has_edge_key, lemma_insert_edge_keys,
};
use crate::pipeline::passes::parse_chapter::{
    ParseChapterPass, ParsedFile, ParsedSpec, CharacterSpec, LocationSpec, RelationshipSpec,
    PlotPhaseSpec, ConflictSpec, SocialEnvSpec, ForeshadowSpec, TwistSpec, CharacterInfo,
    LocationInfo, RelationshipInfo, PlotPhaseInfo, ConflictInfo, SocialEnvInfo, ForeshadowInfo,
    TwistInfo, TagSpec, TagInfo,
};
use crate::text::{seq_views, str_eq, lowercase, to_lower};

verus! {

broadcast use vstd::seq_lib::group_seq_properties;

// ============================================================
// Building blocks
// ============================================================

/// The qualified name `project.name`.
pub open spec fn qual(project: Seq<char>, name: Seq<char>) -> Seq<char> {
    project + "."@ + name
}

/// `m` with `key` set to the string `v`, unless `v` is empty.
pub open spec fn put_if(
    m: Map<Seq<char>, PropValueView>,
    key: Seq<char>,
    v: Seq<char>,
) -> Map<Seq<char>, PropValueView> {
    if v.len() == 0 {
        m
    } else {
        m.insert(key, PropValueView::Str(v))
    }
}

/// `m` with `key` set to the string `v`.
pub open spec fn put(
    m: Map<Seq<char>, PropValueView>,
    key: Seq<char>,
    v: Seq<char>,
) -> Map<Seq<char>, PropValueView> {
    m.insert(key, PropValueView::Str(v))
}

/// A fresh node with the given properties.
pub open spec fn node_with(
    project: Seq<char>,
    label: NodeLabel,
    name: Seq<char>,
    qn: Seq<char>,
    props: Map<Seq<char>, PropValueView>,
) -> NodeView {
    NodeView { properties: props, ..new_node_view(project, label, name, qn) }
}

/// The edge type of a lower-cased relation name; anything unknown is `Knows`.
pub open spec fn rel_edge_type(s: Seq<char>) -> EdgeType {
    if s == "located_in"@ || s == "位于"@ {
        EdgeType::LocatedIn
    } else if s == "appears_in"@ || s == "出现在"@ {
        EdgeType::AppearsIn
    } else if s == "leads_to"@ || s == "导致"@ {
        EdgeType::LeadsTo
    } else if s == "part_of"@ || s == "属于"@ {
        EdgeType::PartOf
    } else if s == "happens_at"@ || s == "发生在"@ {
        EdgeType::HappensAt
    } else if s == "mentions"@ || s == "提及"@ {
        EdgeType::Mentions
    } else {
        EdgeType::Knows
    }
}

fn rel_edge_type_of(s: &str) -> (r: EdgeType)
    ensures
        r == rel_edge_type(s@),
{
    if str_eq(s, "located_in") || str_eq(s, "位于") {
        EdgeType::LocatedIn
    } else if str_eq(s, "appears_in") || str_eq(s, "出现在") {
        EdgeType::AppearsIn
    } else if str_eq(s, "leads_to") || str_eq(s, "导致") {
        EdgeType::LeadsTo
    } else if str_eq(s, "part_of") || str_eq(s, "属于") {
        EdgeType::PartOf
    } else if str_eq(s, "happens_at") || str_eq(s, "发生在") {
        EdgeType::HappensAt
    } else if str_eq(s, "mentions") || str_eq(s, "提及") {
        EdgeType::Mentions
    } else {
        EdgeType::Knows
    }
}

/// `project` + `sep` + `name`.
fn join3(project: &str, sep: &str, name: &str) -> (r: String)
    ensures
        r@ == project@ + sep@ + name@,
{
    let mut q = project.to_owned();
    q.append(sep);
    q.append(name);
    q
}

/// Sets a string property unless the value is empty.
fn put_if_nonempty(props: &mut Properties, key: &str, v: &String)
    ensures
        final(props)@ == put_if(old(props)@, key@, v@),
{
    if !v.as_str().is_empty() {
        props.insert(key, PropValue::Str(v.clone()));
    }
}

/// Sets a string property.
fn put_str(props: &mut Properties, key: &str, v: &str)
    ensures
        final(props)@ == put(old(props)@, key@, v@),
{
    props.insert(key, PropValue::Str(v.to_owned()));
}

// ============================================================
// The steps
// ============================================================

/// The node of a character.
pub open spec fn character_node(project: Seq<char>, c: CharacterSpec) -> NodeView {
    let m = Map::<Seq<char>, PropValueView>::empty();
    let m = put_if(m, "aliases"@, c.aliases);
    let m = put_if(m, "identity"@, c.identity);
    let m = put_if(m, "personality"@, c.personality);
    let m = put_if(m, "appearance"@, c.appearance);
    let m = put_if(m, "motivation"@, c.motivation);
    let m = put_if(m, "psychology"@, c.psychology);
    let m = put_if(m, "fate"@, c.fate);
    let m = put_if(m, "traits"@, c.traits);
    node_with(project, NodeLabel::Character, c.name, qual(project, c.name), m)
}

/// Upserting a node, then linking it to the file node.
pub open spec fn node_and_link(
    g: GraphModel,
    project: Seq<char>,
    n: NodeView,
    file_id: i64,
    t: EdgeType,
) -> GraphModel {
    let (g1, id) = spec_upsert_node(g, n);
    spec_insert_edge(g1, new_edge_view(project, id, file_id, t)).0
}

/// Characters: each node is upserted and linked to the file (`APPEARS_IN`).
pub open spec fn merge_characters(
    g: GraphModel,
    project: Seq<char>,
    file_id: i64,
    cs: Seq<CharacterSpec>,
) -> GraphModel
    decreases cs.len(),
{
    if cs.len() == 0 {
        g
    } else {
        node_and_link(
            merge_characters(g, project, file_id, cs.drop_last()),
            project,
            character_node(project, cs.last()),
            file_id,
            EdgeType::AppearsIn,
        )
    }
}

/// The node of a location.
pub open spec fn location_node(project: Seq<char>, l: LocationSpec) -> NodeView {
    node_with(
        project,
        NodeLabel::Location,
        l.name,
        qual(project, l.name),
        put_if(Map::empty(), "description"@, l.description),
    )
}

/// Locations: each node is upserted and linked to the file (`APPEARS_IN`).
pub open spec fn merge_locations(
    g: GraphModel,
    project: Seq<char>,
    file_id: i64,
    ls: Seq<LocationSpec>,
) -> GraphModel
    decreases ls.len(),
{
    if ls.len() == 0 {
        g
    } else {
        node_and_link(
            merge_locations(g, project, file_id, ls.drop_last()),
            project,
            location_node(project, ls.last()),
            file_id,
            EdgeType::AppearsIn,
        )
    }
}

/// A relationship: when both characters are in the graph, an edge between
/// them, typed by the lower-cased relation name; otherwise nothing.  Tells
/// whether the edge was inserted.
pub open spec fn relationship_step(g: GraphModel, project: Seq<char>, r: RelationshipSpec) -> (
    GraphModel,
    bool,
) {
    match (qn_index(g.nodes, qual(project, r.from)), qn_index(g.nodes, qual(project, r.to))) {
        (Some(a), Some(b)) => (
            spec_insert_edge(
                g,
                EdgeView {
                    properties: put_if(Map::empty(), "description"@, r.description),
                    ..new_edge_view(
                        project,
                        g.nodes[a].id,
                        g.nodes[b].id,
                        rel_edge_type(lowercase(r.rel_type)),
                    )
                },
            ).0,
            true,
        ),
        _ => (g, false),
    }
}

/// A relationship between two characters that are both in the graph adds an
/// edge from the first to the second, typed by its relation name, and counts
/// as added; otherwise the graph stays as it was and nothing is added.  The
/// nodes are never changed.
pub proof fn lemma_relationship_links(g: GraphModel, project: Seq<char>, r: RelationshipSpec)
    ensures
        ({
            let (g1, added) = relationship_step(g, project, r);
            &&& g1.nodes == g.nodes
            &&& added == (found(g, qual(project, r.from)) is Some && found(g, qual(project, r.to)) is Some)
            &&& added ==> has_edge_key(
                g1,
                found(g, qual(project, r.from))->0.id,
                found(g, qual(project, r.to))->0.id,
                rel_edge_type(lowercase(r.rel_type)),
            )
            &&& !added ==> g1 == g
        }),
{
    match (qn_index(g.nodes, qual(project, r.from)), qn_index(g.nodes, qual(project, r.to))) {
        (Some(a), Some(b)) => {
            let e = EdgeView {
                properties: put_if(Map::empty(), "description"@, r.description),
                ..new_edge_view(project, g.nodes[a].id, g.nodes[b].id, rel_edge_type(lowercase(r.rel_type)))
            };
            lemma_insert_edge_keys(g, e);
        },
        _ => {},
    }
}

/// Relationships one after another, with the number of edges inserted.
pub open spec fn merge_relationships(g: GraphModel, project: Seq<char>, rs: Seq<RelationshipSpec>) -> (
    GraphModel,
    int,
)
    decreases rs.len(),
{
    if rs.len() == 0 {
        (g, 0)
    } else {
        let (g1, n) = merge_relationships(g, project, rs.drop_last());
        let (g2, added) = relationship_step(g1, project, rs.last());
        (g2, if added { n + 1 } else { n })
    }
}

/// The scene node of a plot phase.
pub open spec fn phase_node(project: Seq<char>, p: PlotPhaseSpec) -> NodeView {
    let m = put(Map::empty(), "plot_phase"@, p.phase);
    let m = put(m, "chapters"@, p.chapters);
    let m = put_if(m, "description"@, p.description);
    node_with(project, NodeLabel::Scene, p.phase, qual(project, p.phase), m)
}

/// Plot phases: each scene node is upserted and linked to the file (`PART_OF`).
pub open spec fn merge_phases(
    g: GraphModel,
    project: Seq<char>,
    file_id: i64,
    ps: Seq<PlotPhaseSpec>,
) -> GraphModel
    decreases ps.len(),
{
    if ps.len() == 0 {
        g
    } else {
        node_and_link(
            merge_phases(g, project, file_id, ps.drop_last()),
            project,
            phase_node(project, ps.last()),
            file_id,
            EdgeType::PartOf,
        )
    }
}

/// The note node of a conflict.
pub open spec fn conflict_node(project: Seq<char>, c: ConflictSpec) -> NodeView {
    let m = put(Map::empty(), "type"@, "conflict"@);
    let m = put(m, "nature"@, c.nature);
    node_with(project, NodeLabel::Note, c.parties, project + ".冲突."@ + c.parties, m)
}

/// Conflicts: each note is upserted and linked to the file (`MENTIONS`).
pub open spec fn merge_conflicts(
    g: GraphModel,
    project: Seq<char>,
    file_id: i64,
    cs: Seq<ConflictSpec>,
) -> GraphModel
    decreases cs.len(),
{
    if cs.len() == 0 {
        g
    } else {
        node_and_link(
            merge_conflicts(g, project, file_id, cs.drop_last()),
            project,
            conflict_node(project, cs.last()),
            file_id,
            EdgeType::Mentions,
        )
    }
}

/// The note node of the environment.
pub open spec fn environment_node(project: Seq<char>, e: SocialEnvSpec) -> NodeView {
    let m = put_if(Map::empty(), "era"@, e.era);
    let m = put_if(m, "society"@, e.society);
    let m = put_if(m, "customs"@, e.customs);
    let m = put_if(m, "culture"@, e.culture);
    node_with(project, NodeLabel::Note, "环境设定"@, project + ".环境设定"@, m)
}

/// The environment, if any: its note is upserted and linked to the file (`MENTIONS`).
pub open spec fn merge_environment(
    g: GraphModel,
    project: Seq<char>,
    file_id: i64,
    e: Option<SocialEnvSpec>,
) -> GraphModel {
    match e {
        Some(env) => node_and_link(
            g,
            project,
            environment_node(project, env),
            file_id,
            EdgeType::Mentions,
        ),
        None => g,
    }
}

/// A foreshadowing: a source note and a target note, and a `FORESHADOWS`
/// edge between them carrying the description.
pub open spec fn foreshadow_step(g: GraphModel, project: Seq<char>, f: ForeshadowSpec) -> GraphModel {
    let src = node_with(
        project,
        NodeLabel::Note,
        f.source,
        project + ".伏笔."@ + f.source,
        put(put(Map::empty(), "type"@, "foreshadow"@), "description"@, f.description),
    );
    let tgt = node_with(
        project,
        NodeLabel::Note,
        f.target,
        project + ".伏笔."@ + f.target,
        put(Map::empty(), "type"@, "foreshadow_target"@),
    );
    let (g1, sid) = spec_upsert_node(g, src);
    let (g2, tid) = spec_upsert_node(g1, tgt);
    spec_insert_edge(
        g2,
        EdgeView {
            properties: put(Map::empty(), "description"@, f.description),
            ..new_edge_view(project, sid, tid, EdgeType::Foreshadows)
        },
    ).0
}

/// Foreshadowings one after another.
pub open spec fn merge_foreshadows(g: GraphModel, project: Seq<char>, fs: Seq<ForeshadowSpec>) -> GraphModel
    decreases fs.len(),
{
    if fs.len() == 0 {
        g
    } else {
        foreshadow_step(merge_foreshadows(g, project, fs.drop_last()), project, fs.last())
    }
}

/// The note node of a twist.
pub open spec fn twist_node(project: Seq<char>, t: TwistSpec) -> NodeView {
    let m = put(Map::empty(), "type"@, "twist"@);
    let m = put(m, "reality"@, t.reality);
    let m = put_if(m, "description"@, t.description);
    node_with(project, NodeLabel::Note, t.expectation, project + ".反转."@ + t.expectation, m)
}

/// Twists: each note is upserted (no edge).
pub open spec fn merge_twists(g: GraphModel, project: Seq<char>, ts: Seq<TwistSpec>) -> GraphModel
    decreases ts.len(),
{
    if ts.len() == 0 {
        g
    } else {
        spec_upsert_node(merge_twists(g, project, ts.drop_last()), twist_node(project, ts.last())).0
    }
}

/// The note node of a tag: `type` is `tag`, and `category` the category it
/// is listed under, when there is one.
pub open spec fn tag_node(project: Seq<char>, t: TagSpec) -> NodeView {
    let m = put(Map::empty(), "type"@, "tag"@);
    let m = put_if(m, "category"@, t.category);
    node_with(project, NodeLabel::Note, t.name, project + ".标签."@ + t.name, m)
}

/// A tag: its note is upserted and the file is linked to it (`TAGGED_WITH`).
pub open spec fn tag_step(g: GraphModel, project: Seq<char>, file_id: i64, t: TagSpec) -> GraphModel {
    let (g1, id) = spec_upsert_node(g, tag_node(project, t));
    spec_insert_edge(g1, new_edge_view(project, file_id, id, EdgeType::TaggedWith)).0
}

/// Tags one after another.
pub open spec fn merge_tags(g: GraphModel, project: Seq<char>, file_id: i64, ts: Seq<TagSpec>) -> GraphModel
    decreases ts.len(),
{
    if ts.len() == 0 {
        g
    } else {
        tag_step(merge_tags(g, project, file_id, ts.drop_last()), project, file_id, ts.last())
    }
}

/// The counts that merging a parsed file reports.
pub struct MergeCounts {
    /// Characters processed.
    pub characters: usize,
    /// Locations processed.
    pub locations: usize,
    /// Relationship edges inserted.
    pub relationships: usize,
}

/// Merging a parsed file into a graph, section by section in the order
/// characters, locations, relationships, plot phases, conflicts, environment,
/// foreshadowings, twists, tags.  Gives the graph and the number of relationship edges.
pub open spec fn spec_merge_parsed(g: GraphModel, project: Seq<char>, p: ParsedSpec) -> (GraphModel, int) {
    let g1 = merge_characters(g, project, p.file_id, p.characters);
    let g2 = merge_locations(g1, project, p.file_id, p.locations);
    let (g3, rels) = merge_relationships(g2, project, p.relationships);
    let g4 = merge_phases(g3, project, p.file_id, p.plot_phases);
    let g5 = merge_conflicts(g4, project, p.file_id, p.conflicts);
    let g6 = merge_environment(g5, project, p.file_id, p.environment);
    let g7 = merge_foreshadows(g6, project, p.foreshadows);
    let g8 = merge_twists(g7, project, p.twists);
    (merge_tags(g8, project, p.file_id, p.tags), rels)
}

/// How many ids merging a parsed file may take.
pub open spec fn parsed_cost(p: ParsedSpec) -> int {
    (2 * p.characters.len() + 2 * p.locations.len() + p.relationships.len() + 2
        * p.plot_phases.len() + 2 * p.conflicts.len() + 2 + 3 * p.foreshadows.len()
        + p.twists.len() + 2 * p.tags.len()) as int
}

// ============================================================
// Executable steps
// ============================================================

/// Upserts a node, then links it to the file node.
fn add_node_and_link(graph: &mut GraphBuffer, project: &str, node: Node, file_id: i64, t: EdgeType)
    requires
        old(graph).wf(),
        old(graph).has_room(2),
    ensures
        final(graph).wf(),
        final(graph)@ == node_and_link(old(graph)@, project@, node@, file_id, t),
        final(graph)@.next_id <= old(graph)@.next_id + 2,
{
    let id = graph.upsert_node(node);
    graph.insert_edge(Edge::new(project, id, file_id, t));
}

/// The node of a character.
fn character_node_of(project: &str, c: &CharacterInfo) -> (n: Node)
    ensures
        n@ == character_node(project@, c@),
{
    let mut props = Properties::new();
    put_if_nonempty(&mut props, "aliases", &c.aliases);
    put_if_nonempty(&mut props, "identity", &c.identity);
    put_if_nonempty(&mut props, "personality", &c.personality);
    put_if_nonempty(&mut props, "appearance", &c.appearance);
    put_if_nonempty(&mut props, "motivation", &c.motivation);
    put_if_nonempty(&mut props, "psychology", &c.psychology);
    put_if_nonempty(&mut props, "fate", &c.fate);
    put_if_nonempty(&mut props, "traits", &c.traits);
    let qn = join3(project, ".", c.name.as_str());
    let mut node = Node::new(project, NodeLabel::Character, c.name.as_str(), qn.as_str());
    node.properties = props;
    node
}

fn merge_characters_into(graph: &mut GraphBuffer, project: &str, file_id: i64, cs: &Vec<CharacterInfo>)
    requires
        old(graph).wf(),
        old(graph).has_room(2 * cs.len()),
    ensures
        final(graph).wf(),
        final(graph)@ == merge_characters(old(graph)@, project@, file_id, seq_views(cs@)),
        final(graph)@.next_id <= old(graph)@.next_id + 2 * cs.len(),
{
    let ghost g0 = graph@;
    let ghost s = seq_views(cs@);
    let mut i: usize = 0;
    while i < cs.len()
        invariant
            i <= cs.len(),
            s == seq_views(cs@),
            g0.next_id + 2 * cs.len() <= i64::MAX,
            graph.wf(),
            graph@ == merge_characters(g0, project@, file_id, s.take(i as int)),
            graph@.next_id <= g0.next_id + 2 * i,
        decreases cs.len() - i,
    {
        assert(s.take(i + 1).drop_last() =~= s.take(i as int));
        let node = character_node_of(project, &cs[i]);
        add_node_and_link(graph, project, node, file_id, EdgeType::AppearsIn);
        i = i + 1;
    }
    assert(s.take(cs.len() as int) =~= s);
}

/// The node of a location.
fn location_node_of(project: &str, l: &LocationInfo) -> (n: Node)
    ensures
        n@ == location_node(project@, l@),
{
    let mut props = Properties::new();
    put_if_nonempty(&mut props, "description", &l.description);
    let qn = join3(project, ".", l.name.as_str());
    let mut node = Node::new(project, NodeLabel::Location, l.name.as_str(), qn.as_str());
    node.properties = props;
    node
}

fn merge_locations_into(graph: &mut GraphBuffer, project: &str, file_id: i64, ls: &Vec<LocationInfo>)
    requires
        old(graph).wf(),
        old(graph).has_room(2 * ls.len()),
    ensures
        final(graph).wf(),
        final(graph)@ == merge_locations(old(graph)@, project@, file_id, seq_views(ls@)),
        final(graph)@.next_id <= old(graph)@.next_id + 2 * ls.len(),
{
    let ghost g0 = graph@;
    let ghost s = seq_views(ls@);
    let mut i: usize = 0;
    while i < ls.len()
        invariant
            i <= ls.len(),
            s == seq_views(ls@),
            g0.next_id + 2 * ls.len() <= i64::MAX,
            graph.wf(),
            graph@ == merge_locations(g0, project@, file_id, s.take(i as int)),
            graph@.next_id <= g0.next_id + 2 * i,
        decreases ls.len() - i,
    {
        assert(s.take(i + 1).drop_last() =~= s.take(i as int));
        let node = location_node_of(project, &ls[i]);
        add_node_and_link(graph, project, node, file_id, EdgeType::AppearsIn);
        i = i + 1;
    }
    assert(s.take(ls.len() as int) =~= s);
}

/// The id of the node with a qualified name.
fn id_of_qn(graph: &GraphBuffer, qn: &str) -> (r: Option<i64>)
    ensures
        match qn_index(graph@.nodes, qn@) {
            Some(i) => r == Some(graph@.nodes[i].id),
            None => r is None,
        },
{
    match graph.find_by_qn(qn) {
        Some(n) => Some(n.id),
        None => None,
    }
}

/// One relationship; tells whether an edge was inserted.
fn relationship_into(graph: &mut GraphBuffer, project: &str, r: &RelationshipInfo) -> (added: bool)
    requires
        old(graph).wf(),
        old(graph).has_room(1),
    ensures
        final(graph).wf(),
        (final(graph)@, added) == relationship_step(old(graph)@, project@, r@),
        final(graph)@.next_id <= old(graph)@.next_id + 1,
{
    let a_qn = join3(project, ".", r.from.as_str());
    let b_qn = join3(project, ".", r.to.as_str());
    let a = id_of_qn(graph, a_qn.as_str());
    let b = id_of_qn(graph, b_qn.as_str());
    match (a, b) {
        (Some(a_id), Some(b_id)) => {
            let lower = to_lower(r.rel_type.as_str());
            let t = rel_edge_type_of(lower.as_str());
            let mut props = Properties::new();
            put_if_nonempty(&mut props, "description", &r.description);
            let mut edge = Edge::new(project, a_id, b_id, t);
            edge.properties = props;
            graph.insert_edge(edge);
            true
        },
        _ => false,
    }
}

fn merge_relationships_into(graph: &mut GraphBuffer, project: &str, rs: &Vec<RelationshipInfo>) -> (n: usize)
    requires
        old(graph).wf(),
        old(graph).has_room(rs.len() as int),
    ensures
        final(graph).wf(),
        (final(graph)@, n as int) == merge_relationships(old(graph)@, project@, seq_views(rs@)),
        final(graph)@.next_id <= old(graph)@.next_id + rs.len(),
        n <= rs.len(),
{
    let ghost g0 = graph@;
    let ghost s = seq_views(rs@);
    let mut i: usize = 0;
    let mut n: usize = 0;
    while i < rs.len()
        invariant
            i <= rs.len(),
            n <= i,
            s == seq_views(rs@),
            g0.next_id + rs.len() <= i64::MAX,
            graph.wf(),
            (graph@, n as int) == merge_relationships(g0, project@, s.take(i as int)),
            graph@.next_id <= g0.next_id + i,
        decreases rs.len() - i,
    {
        assert(s.take(i + 1).drop_last() =~= s.take(i as int));
        if relationship_into(graph, project, &rs[i]) {
            n = n + 1;
        }
        i = i + 1;
    }
    assert(s.take(rs.len() as int) =~= s);
    n
}

/// The scene node of a plot phase.
fn phase_node_of(project: &str, p: &PlotPhaseInfo) -> (n: Node)
    ensures
        n@ == phase_node(project@, p@),
{
    let mut props = Properties::new();
    put_str(&mut props, "plot_phase", p.phase.as_str());
    put_str(&mut props, "chapters", p.chapters.as_str());
    put_if_nonempty(&mut props, "description", &p.description);
    let qn = join3(project, ".", p.phase.as_str());
    let mut node = Node::new(project, NodeLabel::Scene, p.phase.as_str(), qn.as_str());
    node.properties = props;
    node
}

fn merge_phases_into(graph: &mut GraphBuffer, project: &str, file_id: i64, ps: &Vec<PlotPhaseInfo>)
    requires
        old(graph).wf(),
        old(graph).has_room(2 * ps.len()),
    ensures
        final(graph).wf(),
        final(graph)@ == merge_phases(old(graph)@, project@, file_id, seq_views(ps@)),
        final(graph)@.next_id <= old(graph)@.next_id + 2 * ps.len(),
{
    let ghost g0 = graph@;
    let ghost s = seq_views(ps@);
    let mut i: usize = 0;
    while i < ps.len()
        invariant
            i <= ps.len(),
            s == seq_views(ps@),
            g0.next_id + 2 * ps.len() <= i64::MAX,
            graph.wf(),
            graph@ == merge_phases(g0, project@, file_id, s.take(i as int)),
            graph@.next_id <= g0.next_id + 2 * i,
        decreases ps.len() - i,
    {
        assert(s.take(i + 1).drop_last() =~= s.take(i as int));
        let node = phase_node_of(project, &ps[i]);
        add_node_and_link(graph, project, node, file_id, EdgeType::PartOf);
        i = i + 1;
    }
    assert(s.take(ps.len() as int) =~= s);
}

/// The note node of a conflict.
fn conflict_node_of(project: &str, c: &ConflictInfo) -> (n: Node)
    ensures
        n@ == conflict_node(project@, c@),
{
    let mut props = Properties::new();
    put_str(&mut props, "type", "conflict");
    put_str(&mut props, "nature", c.nature.as_str());
    let qn = join3(project, ".冲突.", c.parties.as_str());
    let mut node = Node::new(project, NodeLabel::Note, c.parties.as_str(), qn.as_str());
    node.properties = props;
    node
}

fn merge_conflicts_into(graph: &mut GraphBuffer, project: &str, file_id: i64, cs: &Vec<ConflictInfo>)
    requires
        old(graph).wf(),
        old(graph).has_room(2 * cs.len()),
    ensures
        final(graph).wf(),
        final(graph)@ == merge_conflicts(old(graph)@, project@, file_id, seq_views(cs@)),
        final(graph)@.next_id <= old(graph)@.next_id + 2 * cs.len(),
{
    let ghost g0 = graph@;
    let ghost s = seq_views(cs@);
    let mut i: usize = 0;
    while i < cs.len()
        invariant
            i <= cs.len(),
            s == seq_views(cs@),
            g0.next_id + 2 * cs.len() <= i64::MAX,
            graph.wf(),
            graph@ == merge_conflicts(g0, project@, file_id, s.take(i as int)),
            graph@.next_id <= g0.next_id + 2 * i,
        decreases cs.len() - i,
    {
        assert(s.take(i + 1).drop_last() =~= s.take(i as int));
        let node = conflict_node_of(project, &cs[i]);
        add_node_and_link(graph, project, node, file_id, EdgeType::Mentions);
        i = i + 1;
    }
    assert(s.take(cs.len() as int) =~= s);
}

/// The note node of the environment.
fn environment_node_of(project: &str, e: &SocialEnvInfo) -> (n: Node)
    ensures
        n@ == environment_node(project@, e@),
{
    let mut props = Properties::new();
    put_if_nonempty(&mut props, "era", &e.era);
    put_if_nonempty(&mut props, "society", &e.society);
    put_if_nonempty(&mut props, "customs", &e.customs);
    put_if_nonempty(&mut props, "culture", &e.culture);
    let mut qn = project.to_owned();
    qn.append(".环境设定");
    let mut node = Node::new(project, NodeLabel::Note, "环境设定", qn.as_str());
    node.properties = props;
    node
}

/// One foreshadowing: source note, target note and the edge between them.
fn foreshadow_into(graph: &mut GraphBuffer, project: &str, f: &ForeshadowInfo)
    requires
        old(graph).wf(),
        old(graph).has_room(3),
    ensures
        final(graph).wf(),
        final(graph)@ == foreshadow_step(old(graph)@, project@, f@),
        final(graph)@.next_id <= old(graph)@.next_id + 3,
{
    let mut sp = Properties::new();
    put_str(&mut sp, "type", "foreshadow");
    put_str(&mut sp, "description", f.description.as_str());
    let src_qn = join3(project, ".伏笔.", f.source.as_str());
    let mut src = Node::new(project, NodeLabel::Note, f.source.as_str(), src_qn.as_str());
    src.properties = sp;
    let src_id = graph.upsert_node(src);
    let mut tp = Properties::new();
    put_str(&mut tp, "type", "foreshadow_target");
    let tgt_qn = join3(project, ".伏笔.", f.target.as_str());
    let mut tgt = Node::new(project, NodeLabel::Note, f.target.as_str(), tgt_qn.as_str());
    tgt.properties = tp;
    let tgt_id = graph.upsert_node(tgt);
    let mut ep = Properties::new();
    put_str(&mut ep, "description", f.description.as_str());
    let mut edge = Edge::new(project, src_id, tgt_id, EdgeType::Foreshadows);
    edge.properties = ep;
    graph.insert_edge(edge);
}

fn merge_foreshadows_into(graph: &mut GraphBuffer, project: &str, fs: &Vec<ForeshadowInfo>)
    requires
        old(graph).wf(),
        old(graph).has_room(3 * fs.len()),
    ensures
        final(graph).wf(),
        final(graph)@ == merge_foreshadows(old(graph)@, project@, seq_views(fs@)),
        final(graph)@.next_id <= old(graph)@.next_id + 3 * fs.len(),
{
    let ghost g0 = graph@;
    let ghost s = seq_views(fs@);
    let mut i: usize = 0;
    while i < fs.len()
        invariant
            i <= fs.len(),
            s == seq_views(fs@),
            g0.next_id + 3 * fs.len() <= i64::MAX,
            graph.wf(),
            graph@ == merge_foreshadows(g0, project@, s.take(i as int)),
            graph@.next_id <= g0.next_id + 3 * i,
        decreases fs.len() - i,
    {
        assert(s.take(i + 1).drop_last() =~= s.take(i as int));
        foreshadow_into(graph, project, &fs[i]);
        i = i + 1;
    }
    assert(s.take(fs.len() as int) =~= s);
}

/// The note node of a twist.
fn twist_node_of(project: &str, t: &TwistInfo) -> (n: Node)
    ensures
        n@ == twist_node(project@, t@),
{
    let mut props = Properties::new();
    put_str(&mut props, "type", "twist");
    put_str(&mut props, "reality", t.reality.as_str());
    put_if_nonempty(&mut props, "description", &t.description);
    let qn = join3(project, ".反转.", t.expectation.as_str());
    let mut node = Node::new(project, NodeLabel::Note, t.expectation.as_str(), qn.as_str());
    node.properties = props;
    node
}

fn merge_twists_into(graph: &mut GraphBuffer, project: &str, ts: &Vec<TwistInfo>)
    requires
        old(graph).wf(),
        old(graph).has_room(ts.len() as int),
    ensures
        final(graph).wf(),
        final(graph)@ == merge_twists(old(graph)@, project@, seq_views(ts@)),
        final(graph)@.next_id <= old(graph)@.next_id + ts.len(),
{
    let ghost g0 = graph@;
    let ghost s = seq_views(ts@);
    let mut i: usize = 0;
    while i < ts.len()
        invariant
            i <= ts.len(),
            s == seq_views(ts@),
            g0.next_id + ts.len() <= i64::MAX,
            graph.wf(),
            graph@ == merge_twists(g0, project@, s.take(i as int)),
            graph@.next_id <= g0.next_id + i,
        decreases ts.len() - i,
    {
        assert(s.take(i + 1).drop_last() =~= s.take(i as int));
        let node = twist_node_of(project, &ts[i]);
        graph.upsert_node(node);
        i = i + 1;
    }
    assert(s.take(ts.len() as int) =~= s);
}

/// The note node of a tag.
fn tag_node_of(project: &str, t: &TagInfo) -> (n: Node)
    ensures
        n@ == tag_node(project@, t@),
{
    let mut props = Properties::new();
    put_str(&mut props, "type", "tag");
    put_if_nonempty(&mut props, "category", &t.category);
    let qn = join3(project, ".标签.", t.name.as_str());
    let mut node = Node::new(project, NodeLabel::Note, t.name.as_str(), qn.as_str());
    node.properties = props;
    node
}

fn merge_tags_into(graph: &mut GraphBuffer, project: &str, file_id: i64, ts: &Vec<TagInfo>)
    requires
        old(graph).wf(),
        old(graph).has_room(2 * ts.len()),
    ensures
        final(graph).wf(),
        final(graph)@ == merge_tags(old(graph)@, project@, file_id, seq_views(ts@)),
        final(graph)@.next_id <= old(graph)@.next_id + 2 * ts.len(),
{
    let ghost g0 = graph@;
    let ghost s = seq_views(ts@);
    let mut i: usize = 0;
    while i < ts.len()
        invariant
            i <= ts.len(),
            s == seq_views(ts@),
            g0.next_id + 2 * ts.len() <= i64::MAX,
            graph.wf(),
            graph@ == merge_tags(g0, project@, file_id, s.take(i as int)),
            graph@.next_id <= g0.next_id + 2 * i,
        decreases ts.len() - i,
    {
        assert(s.take(i + 1).drop_last() =~= s.take(i as int));
        let node = tag_node_of(project, &ts[i]);
        let id = graph.upsert_node(node);
        graph.insert_edge(Edge::new(project, file_id, id, EdgeType::TaggedWith));
        i = i + 1;
    }
    assert(s.take(ts.len() as int) =~= s);
}

impl ParseChapterPass {
    /// Merges a parsed chapter into the graph: characters and locations
    /// (linked to the file by `APPEARS_IN`), relationships between known
    /// characters, plot phases (`PART_OF`), conflicts and the environment
    /// (`MENTIONS`), foreshadowings (`FORESHADOWS` between two notes), twists,
    /// and tags (`TAGGED_WITH` from the file to each tag's note).
    pub fn merge_parsed(graph: &mut GraphBuffer, project: &str, parsed: &ParsedFile) -> (r: MergeCounts)
        requires
            old(graph).wf(),
            old(graph).has_room(parsed_cost(parsed@)),
        ensures
            final(graph).wf(),
            final(graph)@ == spec_merge_parsed(old(graph)@, project@, parsed@).0,
            r.characters == parsed.characters.len(),
            r.locations == parsed.locations.len(),
            r.relationships == spec_merge_parsed(old(graph)@, project@, parsed@).1,
    {
        let fid = parsed.file_id;
        merge_characters_into(graph, project, fid, &parsed.characters);
        merge_locations_into(graph, project, fid, &parsed.locations);
        let rels = merge_relationships_into(graph, project, &parsed.relationships);
        merge_phases_into(graph, project, fid, &parsed.plot_phases);
        merge_conflicts_into(graph, project, fid, &parsed.conflicts);
        match &parsed.environment {
            Some(env) => {
                let node = environment_node_of(project, env);
                add_node_and_link(graph, project, node, fid, EdgeType::Mentions);
            },
            None => {},
        }
        merge_foreshadows_into(graph, project, &parsed.foreshadows);
        merge_twists_into(graph, project, &parsed.twists);
        merge_tags_into(graph, project, fid, &parsed.tags);
        MergeCounts {
            characters: parsed.characters.len(),
            locations: parsed.locations.len(),
            relationships: rels,
        }
    }
}

// ============================================================
// Chapter files of a graph
// ============================================================

/// The (id, name, path) of every file node that has a path, in node order.
pub open spec fn file_infos_of(ns: Seq<NodeView>) -> Seq<(i64, Seq<char>, Seq<char>)>
    decreases ns.len(),
{
    if ns.len() == 0 {
        Seq::empty()
    } else {
        let r = file_infos_of(ns.drop_last());
        let n = ns.last();
        if n.label == NodeLabel::File && n.file_path is Some {
            r.push((n.id, n.name, n.file_path->0))
        } else {
            r
        }
    }
}

/// The view of a list of (id, name, path).
pub open spec fn info_views(v: Seq<(i64, String, String)>) -> Seq<(i64, Seq<char>, Seq<char>)> {
    v.map_values(|t: (i64, String, String)| (t.0, t.1@, t.2@))
}

impl ParsedFile {
    /// How many ids merging this file may take (see `parsed_cost`).
    pub fn merge_cost(&self) -> (r: u128)
        ensures
            r == parsed_cost(self@),
    {
        let c = self.characters.len() as u128;
        let l = self.locations.len() as u128;
        let rl = self.relationships.len() as u128;
        let p = self.plot_phases.len() as u128;
        let cf = self.conflicts.len() as u128;
        let f = self.foreshadows.len() as u128;
        let t = self.twists.len() as u128;
        let tg = self.tags.len() as u128;
        2 * c + 2 * l + rl + 2 * p + 2 * cf + 2 + 3 * f + t + 2 * tg
    }
}

impl ParseChapterPass {
    /// The chapter files of a graph: (id, name, path) of every file node that
    /// has a path.
    pub fn file_infos(graph: &GraphBuffer) -> (r: Vec<(i64, String, String)>)
        ensures
            info_views(r@) == file_infos_of(graph@.nodes),
    {
        let nodes = graph.node_list();
        let ghost ns = graph@.nodes;
        let mut out: Vec<(i64, String, String)> = Vec::new();
        let mut i: usize = 0;
        while i < nodes.len()
            invariant
                i <= nodes.len(),
                ns == seq_views(nodes@),
                info_views(out@) == file_infos_of(ns.take(i as int)),
            decreases nodes.len() - i,
        {
            assert(ns.take(i + 1).drop_last() =~= ns.take(i as int));
            let n = &nodes[i];
            let ghost before = out@;
            if n.label == NodeLabel::File {
                match &n.file_path {
                    Some(p) => {
                        out.push((n.id, n.name.clone(), p.clone()));
                        assert(info_views(out@) =~= info_views(before).push((n.id, n.name@, p@)));
                    },
                    None => {},
                }
            }
            i = i + 1;
        }
        assert(ns.take(nodes.len() as int) =~= ns);
        out
    }
}

// ============================================================
// What merging leaves in the graph
// ============================================================

/// Whether some node has the qualified name `q`.
pub open spec fn has_qn(g: GraphModel, q: Seq<char>) -> bool {
    exists|i: int| 0 <= i < g.nodes.len() && #[trigger] g.nodes[i].qualified_name == q
}

/// Every qualified name of `a` is one of `b`.
pub open spec fn names_kept(a: GraphModel, b: GraphModel) -> bool {
    forall|q: Seq<char>| has_qn(a, q) ==> #[trigger] has_qn(b, q)
}

proof fn lemma_upsert_names(g: GraphModel, n: NodeView)
    ensures
        names_kept(g, spec_upsert_node(g, n).0),
        has_qn(spec_upsert_node(g, n).0, n.qualified_name),
{
    let g1 = spec_upsert_node(g, n).0;
    match qn_index(g.nodes, n.qualified_name) {
        Some(i) => {
            let k = choose|k: int| crate::pipeline::graph_buf::qn_at(g.nodes, n.qualified_name, k);
            assert(crate::pipeline::graph_buf::qn_at(g.nodes, n.qualified_name, k));
            assert(g1.nodes[i].qualified_name == n.qualified_name);
            assert forall|q: Seq<char>| has_qn(g, q) implies #[trigger] has_qn(g1, q) by {
                let j = choose|j: int| 0 <= j < g.nodes.len() && #[trigger] g.nodes[j].qualified_name == q;
                assert(g1.nodes[j].qualified_name == q);
            }
        },
        None => {
            assert(g1.nodes[g.nodes.len() as int].qualified_name == n.qualified_name);
            assert forall|q: Seq<char>| has_qn(g, q) implies #[trigger] has_qn(g1, q) by {
                let j = choose|j: int| 0 <= j < g.nodes.len() && #[trigger] g.nodes[j].qualified_name == q;
                assert(g1.nodes[j] == g.nodes[j]);
            }
        },
    }
}

proof fn lemma_insert_edge_nodes(g: GraphModel, e: EdgeView)
    ensures
        spec_insert_edge(g, e).0.nodes == g.nodes,
{
}

proof fn lemma_same_nodes_names(a: GraphModel, b: GraphModel)
    requires
        a.nodes == b.nodes,
    ensures
        names_kept(a, b),
{
    assert forall|q: Seq<char>| has_qn(a, q) implies #[trigger] has_qn(b, q) by {
        let j = choose|j: int| 0 <= j < a.nodes.len() && #[trigger] a.nodes[j].qualified_name == q;
        assert(b.nodes[j].qualified_name == q);
    }
}

proof fn lemma_names_kept_trans(a: GraphModel, b: GraphModel, c: GraphModel)
    requires
        names_kept(a, b),
        names_kept(b, c),
    ensures
        names_kept(a, c),
{
    assert forall|q: Seq<char>| has_qn(a, q) implies #[trigger] has_qn(c, q) by {
        assert(has_qn(b, q));
    }
}

proof fn lemma_node_and_link_names(g: GraphModel, project: Seq<char>, n: NodeView, file_id: i64, t: EdgeType)
    ensures
        names_kept(g, node_and_link(g, project, n, file_id, t)),
        has_qn(node_and_link(g, project, n, file_id, t), n.qualified_name),
{
    let (g1, id) = spec_upsert_node(g, n);
    let g2 = node_and_link(g, project, n, file_id, t);
    lemma_upsert_names(g, n);
    lemma_insert_edge_nodes(g1, new_edge_view(project, id, file_id, t));
    lemma_same_nodes_names(g1, g2);
    lemma_names_kept_trans(g, g1, g2);
    let j = choose|j: int| 0 <= j < g1.nodes.len() && #[trigger] g1.nodes[j].qualified_name == n.qualified_name;
    assert(g2.nodes[j].qualified_name == n.qualified_name);
}

proof fn lemma_merge_characters_names(g: GraphModel, project: Seq<char>, file_id: i64, cs: Seq<CharacterSpec>)
    ensures
        names_kept(g, merge_characters(g, project, file_id, cs)),
        forall|i: int|
            0 <= i < cs.len() ==> has_qn(
                merge_characters(g, project, file_id, cs),
                #[trigger] qual(project, cs[i].name),
            ),
    decreases cs.len(),
{
    if cs.len() > 0 {
        let d = cs.drop_last();
        let m = merge_characters(g, project, file_id, d);
        lemma_merge_characters_names(g, project, file_id, d);
        lemma_node_and_link_names(m, project, character_node(project, cs.last()), file_id, EdgeType::AppearsIn);
        let r = merge_characters(g, project, file_id, cs);
        lemma_names_kept_trans(g, m, r);
        assert forall|i: int| 0 <= i < cs.len() implies has_qn(r, #[trigger] qual(project, cs[i].name)) by {
            if i < cs.len() - 1 {
                assert(d[i] == cs[i]);
                assert(has_qn(m, qual(project, d[i].name)));
            }
        }
    }
}

proof fn lemma_merge_locations_names(g: GraphModel, project: Seq<char>, file_id: i64, ls: Seq<LocationSpec>)
    ensures
        names_kept(g, merge_locations(g, project, file_id, ls)),
        forall|i: int|
            0 <= i < ls.len() ==> has_qn(
                merge_locations(g, project, file_id, ls),
                #[trigger] qual(project, ls[i].name),
            ),
    decreases ls.len(),
{
    if ls.len() > 0 {
        let d = ls.drop_last();
        let m = merge_locations(g, project, file_id, d);
        lemma_merge_locations_names(g, project, file_id, d);
        lemma_node_and_link_names(m, project, location_node(project, ls.last()), file_id, EdgeType::AppearsIn);
        let r = merge_locations(g, project, file_id, ls);
        lemma_names_kept_trans(g, m, r);
        assert forall|i: int| 0 <= i < ls.len() implies has_qn(r, #[trigger] qual(project, ls[i].name)) by {
            if i < ls.len() - 1 {
                assert(d[i] == ls[i]);
                assert(has_qn(m, qual(project, d[i].name)));
            }
        }
    }
}

proof fn lemma_merge_relationships_nodes(g: GraphModel, project: Seq<char>, rs: Seq<RelationshipSpec>)
    ensures
        merge_relationships(g, project, rs).0.nodes == g.nodes,
    decreases rs.len(),
{
    if rs.len() > 0 {
        lemma_merge_relationships_nodes(g, project, rs.drop_last());
    }
}

proof fn lemma_merge_phases_names(g: GraphModel, project: Seq<char>, file_id: i64, ps: Seq<PlotPhaseSpec>)
    ensures
        names_kept(g, merge_phases(g, project, file_id, ps)),
        forall|i: int|
            0 <= i < ps.len() ==> has_qn(
                merge_phases(g, project, file_id, ps),
                #[trigger] qual(project, ps[i].phase),
            ),
    decreases ps.len(),
{
    if ps.len() > 0 {
        let d = ps.drop_last();
        let m = merge_phases(g, project, file_id, d);
        lemma_merge_phases_names(g, project, file_id, d);
        lemma_node_and_link_names(m, project, phase_node(project, ps.last()), file_id, EdgeType::PartOf);
        let r = merge_phases(g, project, file_id, ps);
        lemma_names_kept_trans(g, m, r);
        assert forall|i: int| 0 <= i < ps.len() implies has_qn(r, #[trigger] qual(project, ps[i].phase)) by {
            if i < ps.len() - 1 {
                assert(d[i] == ps[i]);
                assert(has_qn(m, qual(project, d[i].phase)));
            }
        }
    }
}

proof fn lemma_merge_conflicts_names(g: GraphModel, project: Seq<char>, file_id: i64, cs: Seq<ConflictSpec>)
    ensures
        names_kept(g, merge_conflicts(g, project, file_id, cs)),
        forall|i: int|
            0 <= i < cs.len() ==> has_qn(
                merge_conflicts(g, project, file_id, cs),
                #[trigger] conflict_node(project, cs[i]).qualified_name,
            ),
    decreases cs.len(),
{
    if cs.len() > 0 {
        let d = cs.drop_last();
        let m = merge_conflicts(g, project, file_id, d);
        lemma_merge_conflicts_names(g, project, file_id, d);
        lemma_node_and_link_names(m, project, conflict_node(project, cs.last()), file_id, EdgeType::Mentions);
        let r = merge_conflicts(g, project, file_id, cs);
        lemma_names_kept_trans(g, m, r);
        assert forall|i: int| 0 <= i < cs.len() implies has_qn(
            r,
            #[trigger] conflict_node(project, cs[i]).qualified_name,
        ) by {
            if i < cs.len() - 1 {
                assert(d[i] == cs[i]);
                assert(has_qn(m, conflict_node(project, d[i]).qualified_name));
            }
        }
    }
}

/// The qualified names of a foreshadowing's source and target notes.
pub open spec fn foreshadow_names(project: Seq<char>, f: ForeshadowSpec) -> (Seq<char>, Seq<char>) {
    (project + ".伏笔."@ + f.source, project + ".伏笔."@ + f.target)
}

proof fn lemma_foreshadow_step_names(g: GraphModel, project: Seq<char>, f: ForeshadowSpec)
    ensures
        names_kept(g, foreshadow_step(g, project, f)),
        has_qn(foreshadow_step(g, project, f), foreshadow_names(project, f).0),
        has_qn(foreshadow_step(g, project, f), foreshadow_names(project, f).1),
{
    let src = node_with(
        project,
        NodeLabel::Note,
        f.source,
        project + ".伏笔."@ + f.source,
        put(put(Map::empty(), "type"@, "foreshadow"@), "description"@, f.description),
    );
    let tgt = node_with(
        project,
        NodeLabel::Note,
        f.target,
        project + ".伏笔."@ + f.target,
        put(Map::empty(), "type"@, "foreshadow_target"@),
    );
    let (g1, sid) = spec_upsert_node(g, src);
    let (g2, tid) = spec_upsert_node(g1, tgt);
    lemma_upsert_names(g, src);
    lemma_upsert_names(g1, tgt);
    lemma_names_kept_trans(g, g1, g2);
    let e = EdgeView {
        properties: put(Map::empty(), "description"@, f.description),
        ..new_edge_view(project, sid, tid, EdgeType::Foreshadows)
    };
    let g3 = foreshadow_step(g, project, f);
    assert(g3 == spec_insert_edge(g2, e).0);
    lemma_insert_edge_nodes(g2, e);
    lemma_same_nodes_names(g2, g3);
    lemma_names_kept_trans(g, g2, g3);
    assert(has_qn(g2, foreshadow_names(project, f).0));
    let j = choose|j: int| 0 <= j < g2.nodes.len() && #[trigger] g2.nodes[j].qualified_name == foreshadow_names(project, f).0;
    assert(g3.nodes[j].qualified_name == foreshadow_names(project, f).0);
    let k = choose|k: int| 0 <= k < g2.nodes.len() && #[trigger] g2.nodes[k].qualified_name == foreshadow_names(project, f).1;
    assert(g3.nodes[k].qualified_name == foreshadow_names(project, f).1);
}

proof fn lemma_merge_foreshadows_names(g: GraphModel, project: Seq<char>, fs: Seq<ForeshadowSpec>)
    ensures
        names_kept(g, merge_foreshadows(g, project, fs)),
        forall|i: int|
            0 <= i < fs.len() ==> has_qn(merge_foreshadows(g, project, fs), (#[trigger] foreshadow_names(project, fs[i])).0)
                && has_qn(merge_foreshadows(g, project, fs), foreshadow_names(project, fs[i]).1),
    decreases fs.len(),
{
    if fs.len() > 0 {
        let d = fs.drop_last();
        let m = merge_foreshadows(g, project, d);
        lemma_merge_foreshadows_names(g, project, d);
        lemma_foreshadow_step_names(m, project, fs.last());
        let r = merge_foreshadows(g, project, fs);
        lemma_names_kept_trans(g, m, r);
        assert forall|i: int| 0 <= i < fs.len() implies has_qn(r, (#[trigger] foreshadow_names(project, fs[i])).0)
            && has_qn(r, foreshadow_names(project, fs[i]).1) by {
            if i < fs.len() - 1 {
                assert(d[i] == fs[i]);
                assert(has_qn(m, foreshadow_names(project, d[i]).0));
                assert(has_qn(m, foreshadow_names(project, d[i]).1));
            }
        }
    }
}

proof fn lemma_merge_twists_names(g: GraphModel, project: Seq<char>, ts: Seq<TwistSpec>)
    ensures
        names_kept(g, merge_twists(g, project, ts)),
        forall|i: int|
            0 <= i < ts.len() ==> has_qn(merge_twists(g, project, ts), #[trigger] twist_node(project, ts[i]).qualified_name),
    decreases ts.len(),
{
    if ts.len() > 0 {
        let d = ts.drop_last();
        let m = merge_twists(g, project, d);
        lemma_merge_twists_names(g, project, d);
        lemma_upsert_names(m, twist_node(project, ts.last()));
        let r = merge_twists(g, project, ts);
        lemma_names_kept_trans(g, m, r);
        assert forall|i: int| 0 <= i < ts.len() implies has_qn(r, #[trigger] twist_node(project, ts[i]).qualified_name) by {
            if i < ts.len() - 1 {
                assert(d[i] == ts[i]);
                assert(has_qn(m, twist_node(project, d[i]).qualified_name));
            }
        }
    }
}

proof fn lemma_tag_step_names(g: GraphModel, project: Seq<char>, file_id: i64, t: TagSpec)
    ensures
        names_kept(g, tag_step(g, project, file_id, t)),
        has_qn(tag_step(g, project, file_id, t), tag_node(project, t).qualified_name),
{
    let (g1, id) = spec_upsert_node(g, tag_node(project, t));
    let g2 = tag_step(g, project, file_id, t);
    lemma_upsert_names(g, tag_node(project, t));
    lemma_insert_edge_nodes(g1, new_edge_view(project, file_id, id, EdgeType::TaggedWith));
    lemma_same_nodes_names(g1, g2);
    lemma_names_kept_trans(g, g1, g2);
    let j = choose|j: int| 0 <= j < g1.nodes.len() && #[trigger] g1.nodes[j].qualified_name == tag_node(project, t).qualified_name;
    assert(g2.nodes[j].qualified_name == tag_node(project, t).qualified_name);
}

proof fn lemma_merge_tags_names(g: GraphModel, project: Seq<char>, file_id: i64, ts: Seq<TagSpec>)
    ensures
        names_kept(g, merge_tags(g, project, file_id, ts)),
        forall|i: int|
            0 <= i < ts.len() ==> has_qn(merge_tags(g, project, file_id, ts), #[trigger] tag_node(project, ts[i]).qualified_name),
    decreases ts.len(),
{
    if ts.len() > 0 {
        let d = ts.drop_last();
        let m = merge_tags(g, project, file_id, d);
        lemma_merge_tags_names(g, project, file_id, d);
        lemma_tag_step_names(m, project, file_id, ts.last());
        let r = merge_tags(g, project, file_id, ts);
        lemma_names_kept_trans(g, m, r);
        assert forall|i: int| 0 <= i < ts.len() implies has_qn(r, #[trigger] tag_node(project, ts[i]).qualified_name) by {
            if i < ts.len() - 1 {
                assert(d[i] == ts[i]);
                assert(has_qn(m, tag_node(project, d[i]).qualified_name));
            }
        }
    }
}

/// Merging a chapter removes no qualified name from the graph, and afterwards
/// there is a node under the qualified name of every character, location,
/// plot phase, conflict, the environment, every foreshadowing's source and
/// target, every twist and every tag of the chapter.  (A later item with the same name
/// replaces the node, but the name stays.)
pub proof fn lemma_merge_parsed_names(g: GraphModel, project: Seq<char>, p: ParsedSpec)
    ensures
        names_kept(g, spec_merge_parsed(g, project, p).0),
        forall|i: int|
            0 <= i < p.characters.len() ==> has_qn(
                spec_merge_parsed(g, project, p).0,
                #[trigger] qual(project, p.characters[i].name),
            ),
        forall|i: int|
            0 <= i < p.locations.len() ==> has_qn(
                spec_merge_parsed(g, project, p).0,
                #[trigger] qual(project, p.locations[i].name),
            ),
        forall|i: int|
            0 <= i < p.plot_phases.len() ==> has_qn(
                spec_merge_parsed(g, project, p).0,
                #[trigger] qual(project, p.plot_phases[i].phase),
            ),
        forall|i: int|
            0 <= i < p.conflicts.len() ==> has_qn(
                spec_merge_parsed(g, project, p).0,
                #[trigger] conflict_node(project, p.conflicts[i]).qualified_name,
            ),
        p.environment is Some ==> has_qn(spec_merge_parsed(g, project, p).0, project + ".环境设定"@),
        forall|i: int|
            0 <= i < p.foreshadows.len() ==> has_qn(
                spec_merge_parsed(g, project, p).0,
                (#[trigger] foreshadow_names(project, p.foreshadows[i])).0,
            ) && has_qn(spec_merge_parsed(g, project, p).0, foreshadow_names(project, p.foreshadows[i]).1),
        forall|i: int|
            0 <= i < p.twists.len() ==> has_qn(
                spec_merge_parsed(g, project, p).0,
                #[trigger] twist_node(project, p.twists[i]).qualified_name,
            ),
        forall|i: int|
            0 <= i < p.tags.len() ==> has_qn(
                spec_merge_parsed(g, project, p).0,
                #[trigger] tag_node(project, p.tags[i]).qualified_name,
            ),
{
    let g1 = merge_characters(g, project, p.file_id, p.characters);
    let g2 = merge_locations(g1, project, p.file_id, p.locations);
    let g3 = merge_relationships(g2, project, p.relationships).0;
    let g4 = merge_phases(g3, project, p.file_id, p.plot_phases);
    let g5 = merge_conflicts(g4, project, p.file_id, p.conflicts);
    let g6 = merge_environment(g5, project, p.file_id, p.environment);
    let g7 = merge_foreshadows(g6, project, p.foreshadows);
    let g8 = merge_twists(g7, project, p.twists);
    let g9 = merge_tags(g8, project, p.file_id, p.tags);
    lemma_merge_tags_names(g8, project, p.file_id, p.tags);
    lemma_merge_characters_names(g, project, p.file_id, p.characters);
    lemma_merge_locations_names(g1, project, p.file_id, p.locations);
    lemma_merge_relationships_nodes(g2, project, p.relationships);
    assert(names_kept(g2, g3));
    lemma_merge_phases_names(g3, project, p.file_id, p.plot_phases);
    lemma_merge_conflicts_names(g4, project, p.file_id, p.conflicts);
    match p.environment {
        Some(env) => {
            lemma_node_and_link_names(g5, project, environment_node(project, env), p.file_id, EdgeType::Mentions);
        },
        None => {},
    }
    assert(names_kept(g5, g6));
    lemma_merge_foreshadows_names(g6, project, p.foreshadows);
    lemma_merge_twists_names(g7, project, p.twists);
    lemma_names_kept_trans(g, g1, g2);
    lemma_names_kept_trans(g, g2, g3);
    lemma_names_kept_trans(g, g3, g4);
    lemma_names_kept_trans(g, g4, g5);
    lemma_names_kept_trans(g, g5, g6);
    lemma_names_kept_trans(g, g6, g7);
    lemma_names_kept_trans(g, g7, g8);
    lemma_names_kept_trans(g, g8, g9);
    assert forall|i: int| 0 <= i < p.characters.len() implies has_qn(g8, #[trigger] qual(project, p.characters[i].name)) by {
        assert(has_qn(g1, qual(project, p.characters[i].name)));
        lemma_names_kept_trans(g1, g2, g3);
        lemma_names_kept_trans(g1, g3, g4);
        lemma_names_kept_trans(g1, g4, g5);
        lemma_names_kept_trans(g1, g5, g6);
        lemma_names_kept_trans(g1, g6, g7);
        lemma_names_kept_trans(g1, g7, g8);
    }
    assert forall|i: int| 0 <= i < p.locations.len() implies has_qn(g8, #[trigger] qual(project, p.locations[i].name)) by {
        assert(has_qn(g2, qual(project, p.locations[i].name)));
        lemma_names_kept_trans(g2, g3, g4);
        lemma_names_kept_trans(g2, g4, g5);
        lemma_names_kept_trans(g2, g5, g6);
        lemma_names_kept_trans(g2, g6, g7);
        lemma_names_kept_trans(g2, g7, g8);
    }
    assert forall|i: int| 0 <= i < p.plot_phases.len() implies has_qn(g8, #[trigger] qual(project, p.plot_phases[i].phase)) by {
        assert(has_qn(g4, qual(project, p.plot_phases[i].phase)));
        lemma_names_kept_trans(g4, g5, g6);
        lemma_names_kept_trans(g4, g6, g7);
        lemma_names_kept_trans(g4, g7, g8);
    }
    assert forall|i: int| 0 <= i < p.conflicts.len() implies has_qn(
        g8,
        #[trigger] conflict_node(project, p.conflicts[i]).qualified_name,
    ) by {
        assert(has_qn(g5, conflict_node(project, p.conflicts[i]).qualified_name));
        lemma_names_kept_trans(g5, g6, g7);
        lemma_names_kept_trans(g5, g7, g8);
    }
    if p.environment is Some {
        assert(has_qn(g6, project + ".环境设定"@));
        lemma_names_kept_trans(g6, g7, g8);
    }
    assert forall|i: int| 0 <= i < p.foreshadows.len() implies has_qn(g8, (#[trigger] foreshadow_names(project, p.foreshadows[i])).0)
        && has_qn(g8, foreshadow_names(project, p.foreshadows[i]).1) by {
        assert(has_qn(g7, foreshadow_names(project, p.foreshadows[i]).0));
        assert(has_qn(g7, foreshadow_names(project, p.foreshadows[i]).1));
    }
}

// ============================================================
// Tag links
// ============================================================

/// Whether the graph links the file to the node under the qualified name `q`
/// by a `TAGGED_WITH` edge.
pub open spec fn tagged(g: GraphModel, file_id: i64, q: Seq<char>) -> bool {
    exists|i: int, j: int|
        #![trigger g.nodes[i], g.edges[j]]
        0 <= i < g.nodes.len() && 0 <= j < g.edges.len() && g.nodes[i].qualified_name == q && has_key(
            g.edges[j],
            file_id,
            g.nodes[i].id,
            EdgeType::TaggedWith,
        )
}

/// `b` extends `a`: the nodes of `a` keep their positions, names and ids,
/// and the edges of `a` stay.
pub open spec fn extends(a: GraphModel, b: GraphModel) -> bool {
    &&& a.nodes.len() <= b.nodes.len()
    &&& forall|i: int|
        0 <= i < a.nodes.len() ==> (#[trigger] b.nodes[i]).qualified_name == a.nodes[i].qualified_name
            && b.nodes[i].id == a.nodes[i].id
    &&& a.edges.len() <= b.edges.len()
    &&& forall|j: int| 0 <= j < a.edges.len() ==> #[trigger] b.edges[j] == a.edges[j]
}

proof fn lemma_upsert_extends(g: GraphModel, n: NodeView)
    ensures
        extends(g, spec_upsert_node(g, n).0),
{
    match qn_index(g.nodes, n.qualified_name) {
        Some(i) => {
            let k = choose|k: int| qn_at(g.nodes, n.qualified_name, k);
            assert(qn_at(g.nodes, n.qualified_name, k));
        },
        None => {},
    }
}

proof fn lemma_insert_edge_extends(g: GraphModel, e: EdgeView)
    ensures
        extends(g, spec_insert_edge(g, e).0),
{
}

proof fn lemma_extends_trans(a: GraphModel, b: GraphModel, c: GraphModel)
    requires
        extends(a, b),
        extends(b, c),
    ensures
        extends(a, c),
{
    assert forall|i: int| 0 <= i < a.nodes.len() implies (#[trigger] c.nodes[i]).qualified_name
        == a.nodes[i].qualified_name && c.nodes[i].id == a.nodes[i].id by {
        assert(b.nodes[i].id == a.nodes[i].id);
    }
    assert forall|j: int| 0 <= j < a.edges.len() implies #[trigger] c.edges[j] == a.edges[j] by {
        assert(b.edges[j] == a.edges[j]);
    }
}

proof fn lemma_extends_tagged(a: GraphModel, b: GraphModel, file_id: i64, q: Seq<char>)
    requires
        extends(a, b),
        tagged(a, file_id, q),
    ensures
        tagged(b, file_id, q),
{
    let (i, j) = choose|i: int, j: int|
        #![trigger a.nodes[i], a.edges[j]]
        0 <= i < a.nodes.len() && 0 <= j < a.edges.len() && a.nodes[i].qualified_name == q && has_key(
            a.edges[j],
            file_id,
            a.nodes[i].id,
            EdgeType::TaggedWith,
        );
    assert(b.nodes[i].qualified_name == q && b.nodes[i].id == a.nodes[i].id);
    assert(b.edges[j] == a.edges[j]);
}

proof fn lemma_tag_step_tagged(g: GraphModel, project: Seq<char>, file_id: i64, t: TagSpec)
    ensures
        extends(g, tag_step(g, project, file_id, t)),
        tagged(tag_step(g, project, file_id, t), file_id, tag_node(project, t).qualified_name),
{
    let tn = tag_node(project, t);
    let (g1, id) = spec_upsert_node(g, tn);
    let e = new_edge_view(project, file_id, id, EdgeType::TaggedWith);
    let g2 = tag_step(g, project, file_id, t);
    lemma_upsert_extends(g, tn);
    lemma_insert_edge_extends(g1, e);
    lemma_extends_trans(g, g1, g2);
    lemma_upsert_then_find(g, tn);
    let i = qn_index(g1.nodes, tn.qualified_name)->0;
    assert(g2.nodes[i] == g1.nodes[i]);
    match key_index(g1.edges, file_id, id, EdgeType::TaggedWith) {
        Some(k) => {
            let k2 = choose|k2: int| key_at(g1.edges, file_id, id, EdgeType::TaggedWith, k2);
            assert(key_at(g1.edges, file_id, id, EdgeType::TaggedWith, k2));
            assert(g2.edges[k] == g1.edges[k]);
        },
        None => {
            let k = g1.edges.len() as int;
            assert(has_key(g2.edges[k], file_id, g2.nodes[i].id, EdgeType::TaggedWith));
        },
    }
}

proof fn lemma_merge_tags_tagged(g: GraphModel, project: Seq<char>, file_id: i64, ts: Seq<TagSpec>)
    ensures
        extends(g, merge_tags(g, project, file_id, ts)),
        forall|i: int|
            0 <= i < ts.len() ==> tagged(
                merge_tags(g, project, file_id, ts),
                file_id,
                #[trigger] tag_node(project, ts[i]).qualified_name,
            ),
    decreases ts.len(),
{
    if ts.len() > 0 {
        let d = ts.drop_last();
        let m = merge_tags(g, project, file_id, d);
        let r = merge_tags(g, project, file_id, ts);
        lemma_merge_tags_tagged(g, project, file_id, d);
        lemma_tag_step_tagged(m, project, file_id, ts.last());
        lemma_extends_trans(g, m, r);
        assert forall|i: int| 0 <= i < ts.len() implies tagged(
            r,
            file_id,
            #[trigger] tag_node(project, ts[i]).qualified_name,
        ) by {
            if i < ts.len() - 1 {
                assert(d[i] == ts[i]);
                lemma_extends_tagged(m, r, file_id, tag_node(project, d[i]).qualified_name);
            }
        }
    } else {
        assert(extends(g, g));
    }
}

/// After merging a chapter, the file node is linked by a `TAGGED_WITH` edge
/// to the node under the qualified name of each of the chapter's tags.
pub proof fn lemma_merge_parsed_tags(g: GraphModel, project: Seq<char>, p: ParsedSpec)
    ensures
        forall|i: int|
            0 <= i < p.tags.len() ==> tagged(
                spec_merge_parsed(g, project, p).0,
                p.file_id,
                #[trigger] tag_node(project, p.tags[i]).qualified_name,
            ),
{
    let g1 = merge_characters(g, project, p.file_id, p.characters);
    let g2 = merge_locations(g1, project, p.file_id, p.locations);
    let g3 = merge_relationships(g2, project, p.relationships).0;
    let g4 = merge_phases(g3, project, p.file_id, p.plot_phases);
    let g5 = merge_conflicts(g4, project, p.file_id, p.conflicts);
    let g6 = merge_environment(g5, project, p.file_id, p.environment);
    let g7 = merge_foreshadows(g6, project, p.foreshadows);
    let g8 = merge_twists(g7, project, p.twists);
    lemma_merge_tags_tagged(g8, project, p.file_id, p.tags);
}

// ============================================================
// What merged nodes hold
// ============================================================

/// What properties say of one key: nothing when the value is empty, the
/// string otherwise.
pub open spec fn field_is(m: Map<Seq<char>, PropValueView>, key: Seq<char>, v: Seq<char>) -> bool {
    if v.len() == 0 {
        !m.contains_key(key)
    } else {
        m.contains_key(key) && m[key] == PropValueView::Str(v)
    }
}

/// Whether a node is the node of a parsed character: a Character of the
/// project with the character's name, whose eight attributes are the parsed
/// ones.
pub open spec fn holds_character(n: NodeView, project: Seq<char>, c: CharacterSpec) -> bool {
    &&& n.label == NodeLabel::Character
    &&& n.project == project
    &&& n.name == c.name
    &&& field_is(n.properties, "aliases"@, c.aliases)
    &&& field_is(n.properties, "identity"@, c.identity)
    &&& field_is(n.properties, "personality"@, c.personality)
    &&& field_is(n.properties, "appearance"@, c.appearance)
    &&& field_is(n.properties, "motivation"@, c.motivation)
    &&& field_is(n.properties, "psychology"@, c.psychology)
    &&& field_is(n.properties, "fate"@, c.fate)
    &&& field_is(n.properties, "traits"@, c.traits)
}

/// Whether a node is the node of a parsed location: a Location of the project
/// with the location's name and description.
pub open spec fn holds_location(n: NodeView, project: Seq<char>, l: LocationSpec) -> bool {
    &&& n.label == NodeLabel::Location
    &&& n.project == project
    &&& n.name == l.name
    &&& field_is(n.properties, "description"@, l.description)
}

/// Each attribute of a character goes to the property of its name.
proof fn lemma_character_node_holds(project: Seq<char>, c: CharacterSpec)
    ensures
        holds_character(character_node(project, c), project, c),
{
    reveal_strlit("aliases");
    reveal_strlit("identity");
    reveal_strlit("personality");
    reveal_strlit("appearance");
    reveal_strlit("motivation");
    reveal_strlit("psychology");
    reveal_strlit("fate");
    reveal_strlit("traits");
    assert("aliases"@.len() != "identity"@.len());
    assert("aliases"@.len() != "personality"@.len());
    assert("aliases"@.len() != "appearance"@.len());
    assert("aliases"@.len() != "motivation"@.len());
    assert("aliases"@.len() != "psychology"@.len());
    assert("aliases"@.len() != "fate"@.len());
    assert("aliases"@.len() != "traits"@.len());
    assert("identity"@.len() != "personality"@.len());
    assert("identity"@.len() != "appearance"@.len());
    assert("identity"@.len() != "motivation"@.len());
    assert("identity"@.len() != "psychology"@.len());
    assert("identity"@.len() != "fate"@.len());
    assert("identity"@.len() != "traits"@.len());
    assert("personality"@.len() != "appearance"@.len());
    assert("personality"@.len() != "motivation"@.len());
    assert("personality"@.len() != "psychology"@.len());
    assert("personality"@.len() != "fate"@.len());
    assert("personality"@.len() != "traits"@.len());
    assert("appearance"@[0] != "motivation"@[0]);
    assert("appearance"@[0] != "psychology"@[0]);
    assert("appearance"@.len() != "fate"@.len());
    assert("appearance"@.len() != "traits"@.len());
    assert("motivation"@[0] != "psychology"@[0]);
    assert("motivation"@.len() != "fate"@.len());
    assert("motivation"@.len() != "traits"@.len());
    assert("psychology"@.len() != "fate"@.len());
    assert("psychology"@.len() != "traits"@.len());
    assert("fate"@.len() != "traits"@.len());
}

/// The description of a location goes to its `description` property.
proof fn lemma_location_node_holds(project: Seq<char>, l: LocationSpec)
    ensures
        holds_location(location_node(project, l), project, l),
{
}

/// Qualified names tell names apart.
proof fn lemma_prefixed_injective(prefix: Seq<char>, x: Seq<char>, y: Seq<char>)
    requires
        prefix + x == prefix + y,
    ensures
        x == y,
{
    assert(x =~= (prefix + x).skip(prefix.len() as int));
    assert(y =~= (prefix + y).skip(prefix.len() as int));
}

/// Adding a node and its link: the node is then found under its name, as it
/// was given apart from its id; every other name finds what it found before.
proof fn lemma_node_and_link_found(g: GraphModel, project: Seq<char>, n: NodeView, file_id: i64, t: EdgeType)
    ensures
        found(node_and_link(g, project, n, file_id, t), n.qualified_name) matches Some(m) && m == (
        NodeView { id: m.id, ..n }),
        forall|q: Seq<char>|
            q != n.qualified_name ==> #[trigger] found(node_and_link(g, project, n, file_id, t), q) == found(
                g,
                q,
            ),
{
    let (g1, id) = spec_upsert_node(g, n);
    lemma_upsert_then_find(g, n);
    lemma_insert_edge_nodes(g1, new_edge_view(project, id, file_id, t));
    assert forall|q: Seq<char>| q != n.qualified_name implies #[trigger] found(
        node_and_link(g, project, n, file_id, t),
        q,
    ) == found(g, q) by {
        lemma_upsert_keeps_other(g, n, q);
    }
}

/// Every character of a chapter that no later character of the chapter
/// renames is afterwards the node under `project.name`: a Character with its
/// name, whose aliases, identity, personality, appearance, motivation,
/// psychology, fate and traits are the parsed ones (absent when empty).
pub proof fn lemma_merged_characters(g: GraphModel, project: Seq<char>, file_id: i64, cs: Seq<CharacterSpec>, i: int)
    requires
        0 <= i < cs.len(),
        forall|j: int| i < j < cs.len() ==> (#[trigger] cs[j]).name != cs[i].name,
    ensures
        found(merge_characters(g, project, file_id, cs), qual(project, cs[i].name)) matches Some(n)
            && holds_character(n, project, cs[i]),
    decreases cs.len(),
{
    let d = cs.drop_last();
    let m = merge_characters(g, project, file_id, d);
    let last = cs.last();
    let cn = character_node(project, last);
    lemma_node_and_link_found(m, project, cn, file_id, EdgeType::AppearsIn);
    if i == cs.len() - 1 {
        lemma_character_node_holds(project, last);
    } else {
        assert forall|j: int| i < j < d.len() implies (#[trigger] d[j]).name != d[i].name by {
            assert(d[j] == cs[j]);
        }
        lemma_merged_characters(g, project, file_id, d, i);
        if qual(project, last.name) == qual(project, cs[i].name) {
            lemma_prefixed_injective(project + "."@, last.name, cs[i].name);
            assert((project + "."@) + last.name =~= qual(project, last.name));
            assert((project + "."@) + cs[i].name =~= qual(project, cs[i].name));
            assert(cs[cs.len() - 1].name != cs[i].name);
        }
        assert(d[i] == cs[i]);
    }
}

/// Every location of a chapter that no later location of the chapter renames
/// is afterwards the node under `project.name`: a Location with its name and
/// its description (absent when empty).
pub proof fn lemma_merged_locations(g: GraphModel, project: Seq<char>, file_id: i64, ls: Seq<LocationSpec>, i: int)
    requires
        0 <= i < ls.len(),
        forall|j: int| i < j < ls.len() ==> (#[trigger] ls[j]).name != ls[i].name,
    ensures
        found(merge_locations(g, project, file_id, ls), qual(project, ls[i].name)) matches Some(n)
            && holds_location(n, project, ls[i]),
    decreases ls.len(),
{
    let d = ls.drop_last();
    let m = merge_locations(g, project, file_id, d);
    let last = ls.last();
    let ln = location_node(project, last);
    lemma_node_and_link_found(m, project, ln, file_id, EdgeType::AppearsIn);
    if i == ls.len() - 1 {
        lemma_location_node_holds(project, last);
    } else {
        assert forall|j: int| i < j < d.len() implies (#[trigger] d[j]).name != d[i].name by {
            assert(d[j] == ls[j]);
        }
        lemma_merged_locations(g, project, file_id, d, i);
        if qual(project, last.name) == qual(project, ls[i].name) {
            lemma_prefixed_injective(project + "."@, last.name, ls[i].name);
            assert((project + "."@) + last.name =~= qual(project, last.name));
            assert((project + "."@) + ls[i].name =~= qual(project, ls[i].name));
            assert(ls[ls.len() - 1].name != ls[i].name);
        }
        assert(d[i] == ls[i]);
    }
}

/// After a foreshadowing with two different ends is merged, the note under
/// its source's name is the setup (`type` `foreshadow`, carrying the
/// description), the note under its target's name is the payoff (`type`
/// `foreshadow_target`, no description), and a `FORESHADOWS` edge leads from
/// the setup to the payoff.
pub proof fn lemma_foreshadow_notes(g: GraphModel, project: Seq<char>, f: ForeshadowSpec)
    requires
        f.source != f.target,
    ensures
        ({
            let r = foreshadow_step(g, project, f);
            let (qs, qt) = foreshadow_names(project, f);
            &&& found(r, qs) matches Some(s) && s.label == NodeLabel::Note && s.name == f.source
                && s.properties.contains_key("type"@) && s.properties["type"@] == PropValueView::Str(
                "foreshadow"@,
            ) && s.properties.contains_key("description"@) && s.properties["description"@]
                == PropValueView::Str(f.description)
            &&& found(r, qt) matches Some(t) && t.label == NodeLabel::Note && t.name == f.target
                && t.properties.contains_key("type"@) && t.properties["type"@] == PropValueView::Str(
                "foreshadow_target"@,
            ) && !t.properties.contains_key("description"@)
            &&& has_edge_key(r, found(r, qs)->0.id, found(r, qt)->0.id, EdgeType::Foreshadows)
        }),
{
    reveal_strlit("type");
    reveal_strlit("description");
    assert("type"@.len() != "description"@.len());
    let (qs, qt) = foreshadow_names(project, f);
    let src = node_with(
        project,
        NodeLabel::Note,
        f.source,
        project + ".伏笔."@ + f.source,
        put(put(Map::empty(), "type"@, "foreshadow"@), "description"@, f.description),
    );
    let tgt = node_with(
        project,
        NodeLabel::Note,
        f.target,
        project + ".伏笔."@ + f.target,
        put(Map::empty(), "type"@, "foreshadow_target"@),
    );
    let (g1, sid) = spec_upsert_node(g, src);
    let (g2, tid) = spec_upsert_node(g1, tgt);
    let e = EdgeView {
        properties: put(Map::empty(), "description"@, f.description),
        ..new_edge_view(project, sid, tid, EdgeType::Foreshadows)
    };
    let r = foreshadow_step(g, project, f);
    assert(r == spec_insert_edge(g2, e).0);
    if qs == qt {
        lemma_prefixed_injective(project + ".伏笔."@, f.source, f.target);
        assert((project + ".伏笔."@) + f.source =~= qs);
        assert((project + ".伏笔."@) + f.target =~= qt);
    }
    lemma_upsert_then_find(g, src);
    lemma_upsert_keeps_other(g1, tgt, qs);
    lemma_upsert_then_find(g1, tgt);
    lemma_insert_edge_nodes(g2, e);
    lemma_insert_edge_keys(g2, e);
    assert(found(g1, qs) == Some(NodeView { id: sid, ..src }));
    assert(found(r, qs) == found(g2, qs));
    assert(found(r, qt) == found(g2, qt));
    assert(found(g2, qt) == Some(NodeView { id: tid, ..tgt }));
}


/// Whether properties hold the string `v` under `key`.
pub open spec fn str_is(m: Map<Seq<char>, PropValueView>, key: Seq<char>, v: Seq<char>) -> bool {
    m.contains_key(key) && m[key] == PropValueView::Str(v)
}

/// Whether a node is the scene of a parsed plot phase: a Scene of the project
/// named by the phase, holding the phase, its chapters and its description
/// (absent when empty).
pub open spec fn holds_phase(n: NodeView, project: Seq<char>, p: PlotPhaseSpec) -> bool {
    &&& n.label == NodeLabel::Scene
    &&& n.project == project
    &&& n.name == p.phase
    &&& str_is(n.properties, "plot_phase"@, p.phase)
    &&& str_is(n.properties, "chapters"@, p.chapters)
    &&& field_is(n.properties, "description"@, p.description)
}

/// Whether a node is the note of a parsed conflict: a Note of the project
/// named by the parties, of type `conflict`, holding the nature.
pub open spec fn holds_conflict(n: NodeView, project: Seq<char>, c: ConflictSpec) -> bool {
    &&& n.label == NodeLabel::Note
    &&& n.project == project
    &&& n.name == c.parties
    &&& str_is(n.properties, "type"@, "conflict"@)
    &&& str_is(n.properties, "nature"@, c.nature)
}

/// Whether a node is the note of a parsed twist: a Note of the project named
/// by the expectation, of type `twist`, holding the reality and the
/// description (absent when empty).
pub open spec fn holds_twist(n: NodeView, project: Seq<char>, t: TwistSpec) -> bool {
    &&& n.label == NodeLabel::Note
    &&& n.project == project
    &&& n.name == t.expectation
    &&& str_is(n.properties, "type"@, "twist"@)
    &&& str_is(n.properties, "reality"@, t.reality)
    &&& field_is(n.properties, "description"@, t.description)
}

/// Whether a node is the note of a parsed tag: a Note of the project named by
/// the tag, of type `tag`, holding its category (absent when empty).
pub open spec fn holds_tag(n: NodeView, project: Seq<char>, t: TagSpec) -> bool {
    &&& n.label == NodeLabel::Note
    &&& n.project == project
    &&& n.name == t.name
    &&& str_is(n.properties, "type"@, "tag"@)
    &&& field_is(n.properties, "category"@, t.category)
}

/// Whether a node is the environment note: a Note of the project named
/// `环境设定`, holding era, society, customs and culture (each absent when
/// empty).
pub open spec fn holds_environment(n: NodeView, project: Seq<char>, e: SocialEnvSpec) -> bool {
    &&& n.label == NodeLabel::Note
    &&& n.project == project
    &&& n.name == "环境设定"@
    &&& field_is(n.properties, "era"@, e.era)
    &&& field_is(n.properties, "society"@, e.society)
    &&& field_is(n.properties, "customs"@, e.customs)
    &&& field_is(n.properties, "culture"@, e.culture)
}

/// Every plot phase of a chapter that no later phase of the chapter renames
/// is afterwards the scene under `project.phase`, holding its phase, chapters
/// and description.
pub proof fn lemma_merged_phases(g: GraphModel, project: Seq<char>, file_id: i64, ps: Seq<PlotPhaseSpec>, i: int)
    requires
        0 <= i < ps.len(),
        forall|j: int| i < j < ps.len() ==> (#[trigger] ps[j]).phase != ps[i].phase,
    ensures
        found(merge_phases(g, project, file_id, ps), qual(project, ps[i].phase)) matches Some(n)
            && holds_phase(n, project, ps[i]),
    decreases ps.len(),
{
    let d = ps.drop_last();
    let m = merge_phases(g, project, file_id, d);
    let last = ps.last();
    lemma_node_and_link_found(m, project, phase_node(project, last), file_id, EdgeType::PartOf);
    if i == ps.len() - 1 {
        reveal_strlit("plot_phase");
        reveal_strlit("chapters");
        reveal_strlit("description");
        assert("plot_phase"@.len() != "chapters"@.len());
        assert("plot_phase"@.len() != "description"@.len());
        assert("chapters"@.len() != "description"@.len());
    } else {
        assert forall|j: int| i < j < d.len() implies (#[trigger] d[j]).phase != d[i].phase by {
            assert(d[j] == ps[j]);
        }
        lemma_merged_phases(g, project, file_id, d, i);
        if qual(project, last.phase) == qual(project, ps[i].phase) {
            lemma_prefixed_injective(project + "."@, last.phase, ps[i].phase);
            assert(ps[ps.len() - 1].phase != ps[i].phase);
        }
        assert(d[i] == ps[i]);
    }
}

/// Every conflict of a chapter that no later conflict of the chapter names
/// with the same parties is afterwards the note under `project.冲突.parties`,
/// of type `conflict`, holding its nature.
pub proof fn lemma_merged_conflicts(g: GraphModel, project: Seq<char>, file_id: i64, cs: Seq<ConflictSpec>, i: int)
    requires
        0 <= i < cs.len(),
        forall|j: int| i < j < cs.len() ==> (#[trigger] cs[j]).parties != cs[i].parties,
    ensures
        found(merge_conflicts(g, project, file_id, cs), project + ".冲突."@ + cs[i].parties) matches Some(n)
            && holds_conflict(n, project, cs[i]),
    decreases cs.len(),
{
    let d = cs.drop_last();
    let m = merge_conflicts(g, project, file_id, d);
    let last = cs.last();
    lemma_node_and_link_found(m, project, conflict_node(project, last), file_id, EdgeType::Mentions);
    if i == cs.len() - 1 {
        reveal_strlit("type");
        reveal_strlit("nature");
        assert("type"@.len() != "nature"@.len());
    } else {
        assert forall|j: int| i < j < d.len() implies (#[trigger] d[j]).parties != d[i].parties by {
            assert(d[j] == cs[j]);
        }
        lemma_merged_conflicts(g, project, file_id, d, i);
        if project + ".冲突."@ + last.parties == project + ".冲突."@ + cs[i].parties {
            lemma_prefixed_injective(project + ".冲突."@, last.parties, cs[i].parties);
            assert(cs[cs.len() - 1].parties != cs[i].parties);
        }
        assert(d[i] == cs[i]);
    }
}

/// Every twist of a chapter that no later twist of the chapter names with the
/// same expectation is afterwards the note under `project.反转.expectation`,
/// of type `twist`, holding its reality and description.
pub proof fn lemma_merged_twists(g: GraphModel, project: Seq<char>, ts: Seq<TwistSpec>, i: int)
    requires
        0 <= i < ts.len(),
        forall|j: int| i < j < ts.len() ==> (#[trigger] ts[j]).expectation != ts[i].expectation,
    ensures
        found(merge_twists(g, project, ts), project + ".反转."@ + ts[i].expectation) matches Some(n)
            && holds_twist(n, project, ts[i]),
    decreases ts.len(),
{
    let d = ts.drop_last();
    let m = merge_twists(g, project, d);
    let last = ts.last();
    let tn = twist_node(project, last);
    lemma_upsert_then_find(m, tn);
    if i == ts.len() - 1 {
        reveal_strlit("type");
        reveal_strlit("reality");
        reveal_strlit("description");
        assert("type"@.len() != "reality"@.len());
        assert("type"@.len() != "description"@.len());
        assert("reality"@.len() != "description"@.len());
    } else {
        assert forall|j: int| i < j < d.len() implies (#[trigger] d[j]).expectation != d[i].expectation by {
            assert(d[j] == ts[j]);
        }
        lemma_merged_twists(g, project, d, i);
        if project + ".反转."@ + last.expectation == project + ".反转."@ + ts[i].expectation {
            lemma_prefixed_injective(project + ".反转."@, last.expectation, ts[i].expectation);
            assert(ts[ts.len() - 1].expectation != ts[i].expectation);
        }
        lemma_upsert_keeps_other(m, tn, project + ".反转."@ + ts[i].expectation);
        assert(d[i] == ts[i]);
    }
}

/// Adding a tag: its note is then found under its name, as it was given apart
/// from its id; every other name finds what it found before.
proof fn lemma_tag_step_found(g: GraphModel, project: Seq<char>, file_id: i64, t: TagSpec)
    ensures
        found(tag_step(g, project, file_id, t), tag_node(project, t).qualified_name) matches Some(m)
            && m == (NodeView { id: m.id, ..tag_node(project, t) }),
        forall|q: Seq<char>|
            q != tag_node(project, t).qualified_name ==> #[trigger] found(tag_step(g, project, file_id, t), q)
                == found(g, q),
{
    let tn = tag_node(project, t);
    let (g1, id) = spec_upsert_node(g, tn);
    lemma_upsert_then_find(g, tn);
    lemma_insert_edge_nodes(g1, new_edge_view(project, file_id, id, EdgeType::TaggedWith));
    assert forall|q: Seq<char>| q != tn.qualified_name implies #[trigger] found(
        tag_step(g, project, file_id, t),
        q,
    ) == found(g, q) by {
        lemma_upsert_keeps_other(g, tn, q);
    }
}

/// Every tag of a chapter that no later tag of the chapter repeats by name is
/// afterwards the note under `project.标签.name`, of type `tag`, holding its
/// category.
pub proof fn lemma_merged_tags(g: GraphModel, project: Seq<char>, file_id: i64, ts: Seq<TagSpec>, i: int)
    requires
        0 <= i < ts.len(),
        forall|j: int| i < j < ts.len() ==> (#[trigger] ts[j]).name != ts[i].name,
    ensures
        found(merge_tags(g, project, file_id, ts), project + ".标签."@ + ts[i].name) matches Some(n)
            && holds_tag(n, project, ts[i]),
    decreases ts.len(),
{
    let d = ts.drop_last();
    let m = merge_tags(g, project, file_id, d);
    let last = ts.last();
    lemma_tag_step_found(m, project, file_id, last);
    if i == ts.len() - 1 {
        reveal_strlit("type");
        reveal_strlit("category");
        assert("type"@.len() != "category"@.len());
    } else {
        assert forall|j: int| i < j < d.len() implies (#[trigger] d[j]).name != d[i].name by {
            assert(d[j] == ts[j]);
        }
        lemma_merged_tags(g, project, file_id, d, i);
        if project + ".标签."@ + last.name == project + ".标签."@ + ts[i].name {
            lemma_prefixed_injective(project + ".标签."@, last.name, ts[i].name);
            assert(ts[ts.len() - 1].name != ts[i].name);
        }
        assert(d[i] == ts[i]);
    }
}

/// A chapter's environment is afterwards the note under `project.环境设定`,
/// holding its era, society, customs and culture.
pub proof fn lemma_merged_environment(g: GraphModel, project: Seq<char>, file_id: i64, e: SocialEnvSpec)
    ensures
        found(merge_environment(g, project, file_id, Some(e)), project + ".环境设定"@) matches Some(n)
            && holds_environment(n, project, e),
{
    lemma_node_and_link_found(g, project, environment_node(project, e), file_id, EdgeType::Mentions);
    reveal_strlit("era");
    reveal_strlit("society");
    reveal_strlit("customs");
    reveal_strlit("culture");
    assert("era"@.len() != "society"@.len());
    assert("era"@.len() != "customs"@.len());
    assert("era"@.len() != "culture"@.len());
    assert("society"@[0] != "customs"@[0]);
    assert("society"@[0] != "culture"@[0]);
    assert("customs"@[2] != "culture"@[2]);
}


/// A graph that extends another finds every name the other finds, under the
/// same id.
proof fn lemma_extends_found(a: GraphModel, b: GraphModel, q: Seq<char>)
    requires
        extends(a, b),
        found(a, q) is Some,
    ensures
        found(b, q) is Some,
        found(b, q)->0.id == found(a, q)->0.id,
{
    let i = choose|i: int| qn_at(a.nodes, q, i);
    assert(qn_at(a.nodes, q, i));
    assert(qn_at(b.nodes, q, i)) by {
        assert forall|j: int| 0 <= j < i implies (#[trigger] b.nodes[j]).qualified_name != q by {
            assert(a.nodes[j].qualified_name != q);
        }
    }
    let k = choose|k: int| qn_at(b.nodes, q, k);
    assert(qn_at(b.nodes, q, k));
    if k < i {
        assert(b.nodes[k].qualified_name == q);
    } else if i < k {
        assert(b.nodes[i].qualified_name == q);
    }
}

/// A graph that extends another keeps its edge keys.
proof fn lemma_extends_edge_key(a: GraphModel, b: GraphModel, s: i64, t: i64, ty: EdgeType)
    requires
        extends(a, b),
        has_edge_key(a, s, t, ty),
    ensures
        has_edge_key(b, s, t, ty),
{
    let j = choose|j: int| 0 <= j < a.edges.len() && has_key(#[trigger] a.edges[j], s, t, ty);
    assert(b.edges[j] == a.edges[j]);
}

/// Adding a node and its link extends the graph, and links the node then
/// found under its name to the file.
proof fn lemma_node_and_link_linked(g: GraphModel, project: Seq<char>, n: NodeView, file_id: i64, t: EdgeType)
    ensures
        extends(g, node_and_link(g, project, n, file_id, t)),
        found(node_and_link(g, project, n, file_id, t), n.qualified_name) is Some,
        has_edge_key(
            node_and_link(g, project, n, file_id, t),
            found(node_and_link(g, project, n, file_id, t), n.qualified_name)->0.id,
            file_id,
            t,
        ),
{
    let (g1, id) = spec_upsert_node(g, n);
    let e = new_edge_view(project, id, file_id, t);
    lemma_upsert_then_find(g, n);
    lemma_insert_edge_keys(g1, e);
    lemma_upsert_extends(g, n);
    lemma_insert_edge_extends(g1, e);
    lemma_extends_trans(g, g1, spec_insert_edge(g1, e).0);
}

/// Every character of a chapter ends up linked to the chapter's file by an
/// `APPEARS_IN` edge from the node under its qualified name.
pub proof fn lemma_characters_linked(g: GraphModel, project: Seq<char>, file_id: i64, cs: Seq<CharacterSpec>, i: int)
    requires
        0 <= i < cs.len(),
    ensures
        extends(g, merge_characters(g, project, file_id, cs)),
        found(merge_characters(g, project, file_id, cs), qual(project, cs[i].name)) is Some,
        has_edge_key(
            merge_characters(g, project, file_id, cs),
            found(merge_characters(g, project, file_id, cs), qual(project, cs[i].name))->0.id,
            file_id,
            EdgeType::AppearsIn,
        ),
    decreases cs.len(),
{
    let d = cs.drop_last();
    let m = merge_characters(g, project, file_id, d);
    let r = merge_characters(g, project, file_id, cs);
    let cn = character_node(project, cs.last());
    lemma_node_and_link_linked(m, project, cn, file_id, EdgeType::AppearsIn);
    if i < cs.len() - 1 {
        lemma_characters_linked(g, project, file_id, d, i);
        assert(d[i] == cs[i]);
        let q = qual(project, cs[i].name);
        lemma_extends_found(m, r, q);
        lemma_extends_edge_key(m, r, found(m, q)->0.id, file_id, EdgeType::AppearsIn);
        lemma_extends_trans(g, m, r);
    } else if d.len() == 0 {
        assert(extends(g, g));
        assert(m == g);
    } else {
        lemma_characters_linked(g, project, file_id, d, 0);
        lemma_extends_trans(g, m, r);
    }
}

/// Every location of a chapter ends up linked to the chapter's file by an
/// `APPEARS_IN` edge from the node under its qualified name.
pub proof fn lemma_locations_linked(g: GraphModel, project: Seq<char>, file_id: i64, xs: Seq<LocationSpec>, i: int)
    requires
        0 <= i < xs.len(),
    ensures
        extends(g, merge_locations(g, project, file_id, xs)),
        found(merge_locations(g, project, file_id, xs), qual(project, xs[i].name)) is Some,
        has_edge_key(
            merge_locations(g, project, file_id, xs),
            found(merge_locations(g, project, file_id, xs), qual(project, xs[i].name))->0.id,
            file_id,
            EdgeType::AppearsIn,
        ),
    decreases xs.len(),
{
    let d = xs.drop_last();
    let m = merge_locations(g, project, file_id, d);
    let r = merge_locations(g, project, file_id, xs);
    lemma_node_and_link_linked(m, project, location_node(project, xs.last()), file_id, EdgeType::AppearsIn);
    if i < xs.len() - 1 {
        lemma_locations_linked(g, project, file_id, d, i);
        assert(d[i] == xs[i]);
        let q = qual(project, xs[i].name);
        lemma_extends_found(m, r, q);
        lemma_extends_edge_key(m, r, found(m, q)->0.id, file_id, EdgeType::AppearsIn);
        lemma_extends_trans(g, m, r);
    } else if d.len() == 0 {
        assert(extends(g, g));
        assert(m == g);
    } else {
        lemma_locations_linked(g, project, file_id, d, 0);
        lemma_extends_trans(g, m, r);
    }
}

/// Every plot phase of a chapter ends up linked to the chapter's file by a
/// `PART_OF` edge from the scene under its qualified name.
pub proof fn lemma_phases_linked(g: GraphModel, project: Seq<char>, file_id: i64, xs: Seq<PlotPhaseSpec>, i: int)
    requires
        0 <= i < xs.len(),
    ensures
        extends(g, merge_phases(g, project, file_id, xs)),
        found(merge_phases(g, project, file_id, xs), qual(project, xs[i].phase)) is Some,
        has_edge_key(
            merge_phases(g, project, file_id, xs),
            found(merge_phases(g, project, file_id, xs), qual(project, xs[i].phase))->0.id,
            file_id,
            EdgeType::PartOf,
        ),
    decreases xs.len(),
{
    let d = xs.drop_last();
    let m = merge_phases(g, project, file_id, d);
    let r = merge_phases(g, project, file_id, xs);
    lemma_node_and_link_linked(m, project, phase_node(project, xs.last()), file_id, EdgeType::PartOf);
    if i < xs.len() - 1 {
        lemma_phases_linked(g, project, file_id, d, i);
        assert(d[i] == xs[i]);
        let q = qual(project, xs[i].phase);
        lemma_extends_found(m, r, q);
        lemma_extends_edge_key(m, r, found(m, q)->0.id, file_id, EdgeType::PartOf);
        lemma_extends_trans(g, m, r);
    } else if d.len() == 0 {
        assert(extends(g, g));
        assert(m == g);
    } else {
        lemma_phases_linked(g, project, file_id, d, 0);
        lemma_extends_trans(g, m, r);
    }
}

/// Every conflict of a chapter ends up linked to the chapter's file by a
/// `MENTIONS` edge from the note under `project.冲突.parties`.
pub proof fn lemma_conflicts_linked(g: GraphModel, project: Seq<char>, file_id: i64, xs: Seq<ConflictSpec>, i: int)
    requires
        0 <= i < xs.len(),
    ensures
        extends(g, merge_conflicts(g, project, file_id, xs)),
        found(merge_conflicts(g, project, file_id, xs), project + ".冲突."@ + xs[i].parties) is Some,
        has_edge_key(
            merge_conflicts(g, project, file_id, xs),
            found(merge_conflicts(g, project, file_id, xs), project + ".冲突."@ + xs[i].parties)->0.id,
            file_id,
            EdgeType::Mentions,
        ),
    decreases xs.len(),
{
    let d = xs.drop_last();
    let m = merge_conflicts(g, project, file_id, d);
    let r = merge_conflicts(g, project, file_id, xs);
    lemma_node_and_link_linked(m, project, conflict_node(project, xs.last()), file_id, EdgeType::Mentions);
    if i < xs.len() - 1 {
        lemma_conflicts_linked(g, project, file_id, d, i);
        assert(d[i] == xs[i]);
        let q = project + ".冲突."@ + xs[i].parties;
        lemma_extends_found(m, r, q);
        lemma_extends_edge_key(m, r, found(m, q)->0.id, file_id, EdgeType::Mentions);
        lemma_extends_trans(g, m, r);
    } else if d.len() == 0 {
        assert(extends(g, g));
        assert(m == g);
    } else {
        lemma_conflicts_linked(g, project, file_id, d, 0);
        lemma_extends_trans(g, m, r);
    }
}

/// A chapter's environment note ends up linked to the chapter's file by a
/// `MENTIONS` edge.
pub proof fn lemma_environment_linked(g: GraphModel, project: Seq<char>, file_id: i64, e: SocialEnvSpec)
    ensures
        found(merge_environment(g, project, file_id, Some(e)), project + ".环境设定"@) is Some,
        has_edge_key(
            merge_environment(g, project, file_id, Some(e)),
            found(merge_environment(g, project, file_id, Some(e)), project + ".环境设定"@)->0.id,
            file_id,
            EdgeType::Mentions,
        ),
{
    lemma_node_and_link_linked(g, project, environment_node(project, e), file_id, EdgeType::Mentions);
}

} // verus!
