//! Edge types and edges.

use vstd::prelude::*;
use crate::text::{str_eq, ascii_lower, ascii_upper, is_ascii_text};
use super::node::{Properties, PropValueView};

verus! {

/// Kind of a graph edge: the relation between two nodes.
#[derive(Debug, Clone, Copy, PartialEq, Eq, Structural)]
pub enum EdgeType {
    /// Character A knows character B.
    Knows,
    /// A character or item is located in a place.
    LocatedIn,
    /// A character or place appears in a scene or chapter.
    AppearsIn,
    /// Scene A leads to scene B (causality).
    LeadsTo,
    /// Part of (scene to plot line, chapter to project).
    PartOf,
    /// An event happens at a point in time.
    HappensAt,
    /// A chapter or note mentions a character or item.
    Mentions,
    /// A general relation.
    RelatedTo,
    /// A foreshadows B (a narrative device).
    Foreshadows,
    /// A twist: A turns out against expectation.
    Twist,
    /// A chapter is tagged with a tag.
    TaggedWith,
}

/// The edge type a string names: upper snake case, camel case or lower snake case.
pub open spec fn edge_type_of_str(s: Seq<char>) -> Option<EdgeType> {
    if s == "KNOWS"@ || s == "Knows"@ || s == "knows"@ { Some(EdgeType::Knows) }
    else if s == "LOCATED_IN"@ || s == "LocatedIn"@ || s == "located_in"@ { Some(EdgeType::LocatedIn) }
    else if s == "APPEARS_IN"@ || s == "AppearsIn"@ || s == "appears_in"@ { Some(EdgeType::AppearsIn) }
    else if s == "LEADS_TO"@ || s == "LeadsTo"@ || s == "leads_to"@ { Some(EdgeType::LeadsTo) }
    else if s == "PART_OF"@ || s == "PartOf"@ || s == "part_of"@ { Some(EdgeType::PartOf) }
    else if s == "HAPPENS_AT"@ || s == "HappensAt"@ || s == "happens_at"@ { Some(EdgeType::HappensAt) }
    else if s == "MENTIONS"@ || s == "Mentions"@ || s == "mentions"@ { Some(EdgeType::Mentions) }
    else if s == "RELATED_TO"@ || s == "RelatedTo"@ || s == "related_to"@ { Some(EdgeType::RelatedTo) }
    else if s == "FORESHADOWS"@ || s == "Foreshadows"@ || s == "foreshadows"@ { Some(EdgeType::Foreshadows) }
    else if s == "TWIST"@ || s == "Twist"@ || s == "twist"@ { Some(EdgeType::Twist) }
    else if s == "TAGGED_WITH"@ || s == "TaggedWith"@ || s == "tagged_with"@ { Some(EdgeType::TaggedWith) }
    else { None }
}

/// The upper-case name of an edge type, as stored in the database.
pub open spec fn edge_type_name(t: EdgeType) -> Seq<char> {
    match t {
        EdgeType::Knows => "KNOWS"@,
        EdgeType::LocatedIn => "LOCATED_IN"@,
        EdgeType::AppearsIn => "APPEARS_IN"@,
        EdgeType::LeadsTo => "LEADS_TO"@,
        EdgeType::PartOf => "PART_OF"@,
        EdgeType::HappensAt => "HAPPENS_AT"@,
        EdgeType::Mentions => "MENTIONS"@,
        EdgeType::RelatedTo => "RELATED_TO"@,
        EdgeType::Foreshadows => "FORESHADOWS"@,
        EdgeType::Twist => "TWIST"@,
        EdgeType::TaggedWith => "TAGGED_WITH"@,
    }
}

/// The name of an edge type's variant (camel case).
pub open spec fn edge_type_variant_name(t: EdgeType) -> Seq<char> {
    match t {
        EdgeType::Knows => "Knows"@,
        EdgeType::LocatedIn => "LocatedIn"@,
        EdgeType::AppearsIn => "AppearsIn"@,
        EdgeType::LeadsTo => "LeadsTo"@,
        EdgeType::PartOf => "PartOf"@,
        EdgeType::HappensAt => "HappensAt"@,
        EdgeType::Mentions => "Mentions"@,
        EdgeType::RelatedTo => "RelatedTo"@,
        EdgeType::Foreshadows => "Foreshadows"@,
        EdgeType::Twist => "Twist"@,
        EdgeType::TaggedWith => "TaggedWith"@,
    }
}

/// The Chinese name of an edge type.
pub open spec fn edge_type_cn_name(t: EdgeType) -> Seq<char> {
    match t {
        EdgeType::Knows => "认识"@,
        EdgeType::LocatedIn => "位于"@,
        EdgeType::AppearsIn => "出现在"@,
        EdgeType::LeadsTo => "导致"@,
        EdgeType::PartOf => "从属于"@,
        EdgeType::HappensAt => "发生在"@,
        EdgeType::Mentions => "提及"@,
        EdgeType::RelatedTo => "关联"@,
        EdgeType::Foreshadows => "伏笔"@,
        EdgeType::Twist => "反转"@,
        EdgeType::TaggedWith => "标签标记"@,
    }
}

impl EdgeType {
    /// Parses an edge type from one of its three spellings.
    pub fn from_str(s: &str) -> (r: Option<Self>)
        ensures
            r == edge_type_of_str(s@),
    {
        if str_eq(s, "KNOWS") || str_eq(s, "Knows") || str_eq(s, "knows") { Some(EdgeType::Knows) }
        else if str_eq(s, "LOCATED_IN") || str_eq(s, "LocatedIn") || str_eq(s, "located_in") { Some(EdgeType::LocatedIn) }
        else if str_eq(s, "APPEARS_IN") || str_eq(s, "AppearsIn") || str_eq(s, "appears_in") { Some(EdgeType::AppearsIn) }
        else if str_eq(s, "LEADS_TO") || str_eq(s, "LeadsTo") || str_eq(s, "leads_to") { Some(EdgeType::LeadsTo) }
        else if str_eq(s, "PART_OF") || str_eq(s, "PartOf") || str_eq(s, "part_of") { Some(EdgeType::PartOf) }
        else if str_eq(s, "HAPPENS_AT") || str_eq(s, "HappensAt") || str_eq(s, "happens_at") { Some(EdgeType::HappensAt) }
        else if str_eq(s, "MENTIONS") || str_eq(s, "Mentions") || str_eq(s, "mentions") { Some(EdgeType::Mentions) }
        else if str_eq(s, "RELATED_TO") || str_eq(s, "RelatedTo") || str_eq(s, "related_to") { Some(EdgeType::RelatedTo) }
        else if str_eq(s, "FORESHADOWS") || str_eq(s, "Foreshadows") || str_eq(s, "foreshadows") { Some(EdgeType::Foreshadows) }
        else if str_eq(s, "TWIST") || str_eq(s, "Twist") || str_eq(s, "twist") { Some(EdgeType::Twist) }
        else if str_eq(s, "TAGGED_WITH") || str_eq(s, "TaggedWith") || str_eq(s, "tagged_with") { Some(EdgeType::TaggedWith) }
        else { None }
    }

    /// The upper-case name of the edge type, as stored in the database.
    pub fn as_str(&self) -> (r: &'static str)
        ensures
            r@ == edge_type_name(*self),
    {
        match self {
            EdgeType::Knows => "KNOWS",
            EdgeType::LocatedIn => "LOCATED_IN",
            EdgeType::AppearsIn => "APPEARS_IN",
            EdgeType::LeadsTo => "LEADS_TO",
            EdgeType::PartOf => "PART_OF",
            EdgeType::HappensAt => "HAPPENS_AT",
            EdgeType::Mentions => "MENTIONS",
            EdgeType::RelatedTo => "RELATED_TO",
            EdgeType::Foreshadows => "FORESHADOWS",
            EdgeType::Twist => "TWIST",
            EdgeType::TaggedWith => "TAGGED_WITH",
        }
    }

    /// The Chinese name of the edge type.
    pub fn cn_name(&self) -> (r: &'static str)
        ensures
            r@ == edge_type_cn_name(*self),
    {
        match self {
            EdgeType::Knows => "认识",
            EdgeType::LocatedIn => "位于",
            EdgeType::AppearsIn => "出现在",
            EdgeType::LeadsTo => "导致",
            EdgeType::PartOf => "从属于",
            EdgeType::HappensAt => "发生在",
            EdgeType::Mentions => "提及",
            EdgeType::RelatedTo => "关联",
            EdgeType::Foreshadows => "伏笔",
            EdgeType::Twist => "反转",
            EdgeType::TaggedWith => "标签标记",
        }
    }
}

/// Every edge type is read back from each of its three spellings: the stored
/// upper-case name, its ASCII lower-case form and the variant's name; and a
/// text names an edge type only when it is one of that type's three spellings.
#[verifier::spinoff_prover]
#[verifier::rlimit(50)]
pub proof fn lemma_edge_type_name_roundtrip(t: EdgeType)
    ensures
        edge_type_of_str(edge_type_name(t)) == Some(t),
        edge_type_of_str(ascii_lower(edge_type_name(t))) == Some(t),
        edge_type_of_str(edge_type_variant_name(t)) == Some(t),
        is_ascii_text(edge_type_name(t)),
        forall|s: Seq<char>|
            edge_type_of_str(s) == Some(t) ==> s == edge_type_name(t) || s == ascii_lower(edge_type_name(t))
                || s == edge_type_variant_name(t),
{
    reveal_strlit("KNOWS");
    reveal_strlit("Knows");
    reveal_strlit("knows");
    reveal_strlit("LOCATED_IN");
    reveal_strlit("LocatedIn");
    reveal_strlit("located_in");
    reveal_strlit("APPEARS_IN");
    reveal_strlit("AppearsIn");
    reveal_strlit("appears_in");
    reveal_strlit("LEADS_TO");
    reveal_strlit("LeadsTo");
    reveal_strlit("leads_to");
    reveal_strlit("PART_OF");
    reveal_strlit("PartOf");
    reveal_strlit("part_of");
    reveal_strlit("HAPPENS_AT");
    reveal_strlit("HappensAt");
    reveal_strlit("happens_at");
    reveal_strlit("MENTIONS");
    reveal_strlit("Mentions");
    reveal_strlit("mentions");
    reveal_strlit("RELATED_TO");
    reveal_strlit("RelatedTo");
    reveal_strlit("related_to");
    reveal_strlit("FORESHADOWS");
    reveal_strlit("Foreshadows");
    reveal_strlit("foreshadows");
    reveal_strlit("TWIST");
    reveal_strlit("Twist");
    reveal_strlit("twist");
    reveal_strlit("TAGGED_WITH");
    reveal_strlit("TaggedWith");
    reveal_strlit("tagged_with");
    match t {
        EdgeType::Knows => {
            assert(ascii_lower("KNOWS"@) =~= "knows"@);
            assert("KNOWS"@.len() == 5);
            assert("Knows"@.len() == 5);
            assert("knows"@.len() == 5);
            assert forall|s: Seq<char>| edge_type_of_str(s) == Some(EdgeType::Knows) implies s == "KNOWS"@ || s == "knows"@ || s == "Knows"@ by {}
        },
        EdgeType::LocatedIn => {
            assert(ascii_lower("LOCATED_IN"@) =~= "located_in"@);
            assert("LOCATED_IN"@.len() == 10);
            assert("KNOWS"@.len() == 5);
            assert("Knows"@.len() == 5);
            assert("knows"@.len() == 5);
            assert("LocatedIn"@.len() == 9);
            assert("KNOWS"@.len() == 5);
            assert("Knows"@.len() == 5);
            assert("knows"@.len() == 5);
            assert("located_in"@.len() == 10);
            assert("KNOWS"@.len() == 5);
            assert("Knows"@.len() == 5);
            assert("knows"@.len() == 5);
            assert forall|s: Seq<char>| edge_type_of_str(s) == Some(EdgeType::LocatedIn) implies s == "LOCATED_IN"@ || s == "located_in"@ || s == "LocatedIn"@ by {}
        },
        EdgeType::AppearsIn => {
            assert(ascii_lower("APPEARS_IN"@) =~= "appears_in"@);
            assert("APPEARS_IN"@.len() == 10);
            assert("KNOWS"@.len() == 5);
            assert("Knows"@.len() == 5);
            assert("knows"@.len() == 5);
            assert("APPEARS_IN"@[0] != "LOCATED_IN"@[0]);
            assert("LocatedIn"@.len() == 9);
            assert("APPEARS_IN"@[0] != "located_in"@[0]);
            assert("AppearsIn"@.len() == 9);
            assert("KNOWS"@.len() == 5);
            assert("Knows"@.len() == 5);
            assert("knows"@.len() == 5);
            assert("LOCATED_IN"@.len() == 10);
            assert("AppearsIn"@[0] != "LocatedIn"@[0]);
            assert("located_in"@.len() == 10);
            assert("appears_in"@.len() == 10);
            assert("KNOWS"@.len() == 5);
            assert("Knows"@.len() == 5);
            assert("knows"@.len() == 5);
            assert("appears_in"@[0] != "LOCATED_IN"@[0]);
            assert("LocatedIn"@.len() == 9);
            assert("appears_in"@[0] != "located_in"@[0]);
            assert forall|s: Seq<char>| edge_type_of_str(s) == Some(EdgeType::AppearsIn) implies s == "APPEARS_IN"@ || s == "appears_in"@ || s == "AppearsIn"@ by {}
        },
        EdgeType::LeadsTo => {
            assert(ascii_lower("LEADS_TO"@) =~= "leads_to"@);
            assert("LEADS_TO"@.len() == 8);
            assert("KNOWS"@.len() == 5);
            assert("Knows"@.len() == 5);
            assert("knows"@.len() == 5);
            assert("LOCATED_IN"@.len() == 10);
            assert("LocatedIn"@.len() == 9);
            assert("located_in"@.len() == 10);
            assert("APPEARS_IN"@.len() == 10);
            assert("AppearsIn"@.len() == 9);
            assert("appears_in"@.len() == 10);
            assert("LeadsTo"@.len() == 7);
            assert("KNOWS"@.len() == 5);
            assert("Knows"@.len() == 5);
            assert("knows"@.len() == 5);
            assert("LOCATED_IN"@.len() == 10);
            assert("LocatedIn"@.len() == 9);
            assert("located_in"@.len() == 10);
            assert("APPEARS_IN"@.len() == 10);
            assert("AppearsIn"@.len() == 9);
            assert("appears_in"@.len() == 10);
            assert("leads_to"@.len() == 8);
            assert("KNOWS"@.len() == 5);
            assert("Knows"@.len() == 5);
            assert("knows"@.len() == 5);
            assert("LOCATED_IN"@.len() == 10);
            assert("LocatedIn"@.len() == 9);
            assert("located_in"@.len() == 10);
            assert("APPEARS_IN"@.len() == 10);
            assert("AppearsIn"@.len() == 9);
            assert("appears_in"@.len() == 10);
            assert forall|s: Seq<char>| edge_type_of_str(s) == Some(EdgeType::LeadsTo) implies s == "LEADS_TO"@ || s == "leads_to"@ || s == "LeadsTo"@ by {}
        },
        EdgeType::PartOf => {
            assert(ascii_lower("PART_OF"@) =~= "part_of"@);
            assert("PART_OF"@.len() == 7);
            assert("KNOWS"@.len() == 5);
            assert("Knows"@.len() == 5);
            assert("knows"@.len() == 5);
            assert("LOCATED_IN"@.len() == 10);
            assert("LocatedIn"@.len() == 9);
            assert("located_in"@.len() == 10);
            assert("APPEARS_IN"@.len() == 10);
            assert("AppearsIn"@.len() == 9);
            assert("appears_in"@.len() == 10);
            assert("LEADS_TO"@.len() == 8);
            assert("PART_OF"@[0] != "LeadsTo"@[0]);
            assert("leads_to"@.len() == 8);
            assert("PartOf"@.len() == 6);
            assert("KNOWS"@.len() == 5);
            assert("Knows"@.len() == 5);
            assert("knows"@.len() == 5);
            assert("LOCATED_IN"@.len() == 10);
            assert("LocatedIn"@.len() == 9);
            assert("located_in"@.len() == 10);
            assert("APPEARS_IN"@.len() == 10);
            assert("AppearsIn"@.len() == 9);
            assert("appears_in"@.len() == 10);
            assert("LEADS_TO"@.len() == 8);
            assert("LeadsTo"@.len() == 7);
            assert("leads_to"@.len() == 8);
            assert("part_of"@.len() == 7);
            assert("KNOWS"@.len() == 5);
            assert("Knows"@.len() == 5);
            assert("knows"@.len() == 5);
            assert("LOCATED_IN"@.len() == 10);
            assert("LocatedIn"@.len() == 9);
            assert("located_in"@.len() == 10);
            assert("APPEARS_IN"@.len() == 10);
            assert("AppearsIn"@.len() == 9);
            assert("appears_in"@.len() == 10);
            assert("LEADS_TO"@.len() == 8);
            assert("part_of"@[0] != "LeadsTo"@[0]);
            assert("leads_to"@.len() == 8);
            assert forall|s: Seq<char>| edge_type_of_str(s) == Some(EdgeType::PartOf) implies s == "PART_OF"@ || s == "part_of"@ || s == "PartOf"@ by {}
        },
        EdgeType::HappensAt => {
            assert(ascii_lower("HAPPENS_AT"@) =~= "happens_at"@);
            assert("HAPPENS_AT"@.len() == 10);
            assert("KNOWS"@.len() == 5);
            assert("Knows"@.len() == 5);
            assert("knows"@.len() == 5);
            assert("HAPPENS_AT"@[0] != "LOCATED_IN"@[0]);
            assert("LocatedIn"@.len() == 9);
            assert("HAPPENS_AT"@[0] != "located_in"@[0]);
            assert("HAPPENS_AT"@[0] != "APPEARS_IN"@[0]);
            assert("AppearsIn"@.len() == 9);
            assert("HAPPENS_AT"@[0] != "appears_in"@[0]);
            assert("LEADS_TO"@.len() == 8);
            assert("LeadsTo"@.len() == 7);
            assert("leads_to"@.len() == 8);
            assert("PART_OF"@.len() == 7);
            assert("PartOf"@.len() == 6);
            assert("part_of"@.len() == 7);
            assert("HappensAt"@.len() == 9);
            assert("KNOWS"@.len() == 5);
            assert("Knows"@.len() == 5);
            assert("knows"@.len() == 5);
            assert("LOCATED_IN"@.len() == 10);
            assert("HappensAt"@[0] != "LocatedIn"@[0]);
            assert("located_in"@.len() == 10);
            assert("APPEARS_IN"@.len() == 10);
            assert("HappensAt"@[0] != "AppearsIn"@[0]);
            assert("appears_in"@.len() == 10);
            assert("LEADS_TO"@.len() == 8);
            assert("LeadsTo"@.len() == 7);
            assert("leads_to"@.len() == 8);
            assert("PART_OF"@.len() == 7);
            assert("PartOf"@.len() == 6);
            assert("part_of"@.len() == 7);
            assert("happens_at"@.len() == 10);
            assert("KNOWS"@.len() == 5);
            assert("Knows"@.len() == 5);
            assert("knows"@.len() == 5);
            assert("happens_at"@[0] != "LOCATED_IN"@[0]);
            assert("LocatedIn"@.len() == 9);
            assert("happens_at"@[0] != "located_in"@[0]);
            assert("happens_at"@[0] != "APPEARS_IN"@[0]);
            assert("AppearsIn"@.len() == 9);
            assert("happens_at"@[0] != "appears_in"@[0]);
            assert("LEADS_TO"@.len() == 8);
            assert("LeadsTo"@.len() == 7);
            assert("leads_to"@.len() == 8);
            assert("PART_OF"@.len() == 7);
            assert("PartOf"@.len() == 6);
            assert("part_of"@.len() == 7);
            assert forall|s: Seq<char>| edge_type_of_str(s) == Some(EdgeType::HappensAt) implies s == "HAPPENS_AT"@ || s == "happens_at"@ || s == "HappensAt"@ by {}
        },
        EdgeType::Mentions => {
            assert(ascii_lower("MENTIONS"@) =~= "mentions"@);
            assert("MENTIONS"@.len() == 8);
            assert("KNOWS"@.len() == 5);
            assert("Knows"@.len() == 5);
            assert("knows"@.len() == 5);
            assert("LOCATED_IN"@.len() == 10);
            assert("LocatedIn"@.len() == 9);
            assert("located_in"@.len() == 10);
            assert("APPEARS_IN"@.len() == 10);
            assert("AppearsIn"@.len() == 9);
            assert("appears_in"@.len() == 10);
            assert("MENTIONS"@[0] != "LEADS_TO"@[0]);
            assert("LeadsTo"@.len() == 7);
            assert("MENTIONS"@[0] != "leads_to"@[0]);
            assert("PART_OF"@.len() == 7);
            assert("PartOf"@.len() == 6);
            assert("part_of"@.len() == 7);
            assert("HAPPENS_AT"@.len() == 10);
            assert("HappensAt"@.len() == 9);
            assert("happens_at"@.len() == 10);
            assert("Mentions"@.len() == 8);
            assert("KNOWS"@.len() == 5);
            assert("Knows"@.len() == 5);
            assert("knows"@.len() == 5);
            assert("LOCATED_IN"@.len() == 10);
            assert("LocatedIn"@.len() == 9);
            assert("located_in"@.len() == 10);
            assert("APPEARS_IN"@.len() == 10);
            assert("AppearsIn"@.len() == 9);
            assert("appears_in"@.len() == 10);
            assert("Mentions"@[0] != "LEADS_TO"@[0]);
            assert("LeadsTo"@.len() == 7);
            assert("Mentions"@[0] != "leads_to"@[0]);
            assert("PART_OF"@.len() == 7);
            assert("PartOf"@.len() == 6);
            assert("part_of"@.len() == 7);
            assert("HAPPENS_AT"@.len() == 10);
            assert("HappensAt"@.len() == 9);
            assert("happens_at"@.len() == 10);
            assert("mentions"@.len() == 8);
            assert("KNOWS"@.len() == 5);
            assert("Knows"@.len() == 5);
            assert("knows"@.len() == 5);
            assert("LOCATED_IN"@.len() == 10);
            assert("LocatedIn"@.len() == 9);
            assert("located_in"@.len() == 10);
            assert("APPEARS_IN"@.len() == 10);
            assert("AppearsIn"@.len() == 9);
            assert("appears_in"@.len() == 10);
            assert("mentions"@[0] != "LEADS_TO"@[0]);
            assert("LeadsTo"@.len() == 7);
            assert("mentions"@[0] != "leads_to"@[0]);
            assert("PART_OF"@.len() == 7);
            assert("PartOf"@.len() == 6);
            assert("part_of"@.len() == 7);
            assert("HAPPENS_AT"@.len() == 10);
            assert("HappensAt"@.len() == 9);
            assert("happens_at"@.len() == 10);
            assert forall|s: Seq<char>| edge_type_of_str(s) == Some(EdgeType::Mentions) implies s == "MENTIONS"@ || s == "mentions"@ || s == "Mentions"@ by {}
        },
        EdgeType::RelatedTo => {
            assert(ascii_lower("RELATED_TO"@) =~= "related_to"@);
            assert("RELATED_TO"@.len() == 10);
            assert("KNOWS"@.len() == 5);
            assert("Knows"@.len() == 5);
            assert("knows"@.len() == 5);
            assert("RELATED_TO"@[0] != "LOCATED_IN"@[0]);
            assert("LocatedIn"@.len() == 9);
            assert("RELATED_TO"@[0] != "located_in"@[0]);
            assert("RELATED_TO"@[0] != "APPEARS_IN"@[0]);
            assert("AppearsIn"@.len() == 9);
            assert("RELATED_TO"@[0] != "appears_in"@[0]);
            assert("LEADS_TO"@.len() == 8);
            assert("LeadsTo"@.len() == 7);
            assert("leads_to"@.len() == 8);
            assert("PART_OF"@.len() == 7);
            assert("PartOf"@.len() == 6);
            assert("part_of"@.len() == 7);
            assert("RELATED_TO"@[0] != "HAPPENS_AT"@[0]);
            assert("HappensAt"@.len() == 9);
            assert("RELATED_TO"@[0] != "happens_at"@[0]);
            assert("MENTIONS"@.len() == 8);
            assert("Mentions"@.len() == 8);
            assert("mentions"@.len() == 8);
            assert("RelatedTo"@.len() == 9);
            assert("KNOWS"@.len() == 5);
            assert("Knows"@.len() == 5);
            assert("knows"@.len() == 5);
            assert("LOCATED_IN"@.len() == 10);
            assert("RelatedTo"@[0] != "LocatedIn"@[0]);
            assert("located_in"@.len() == 10);
            assert("APPEARS_IN"@.len() == 10);
            assert("RelatedTo"@[0] != "AppearsIn"@[0]);
            assert("appears_in"@.len() == 10);
            assert("LEADS_TO"@.len() == 8);
            assert("LeadsTo"@.len() == 7);
            assert("leads_to"@.len() == 8);
            assert("PART_OF"@.len() == 7);
            assert("PartOf"@.len() == 6);
            assert("part_of"@.len() == 7);
            assert("HAPPENS_AT"@.len() == 10);
            assert("RelatedTo"@[0] != "HappensAt"@[0]);
            assert("happens_at"@.len() == 10);
            assert("MENTIONS"@.len() == 8);
            assert("Mentions"@.len() == 8);
            assert("mentions"@.len() == 8);
            assert("related_to"@.len() == 10);
            assert("KNOWS"@.len() == 5);
            assert("Knows"@.len() == 5);
            assert("knows"@.len() == 5);
            assert("related_to"@[0] != "LOCATED_IN"@[0]);
            assert("LocatedIn"@.len() == 9);
            assert("related_to"@[0] != "located_in"@[0]);
            assert("related_to"@[0] != "APPEARS_IN"@[0]);
            assert("AppearsIn"@.len() == 9);
            assert("related_to"@[0] != "appears_in"@[0]);
            assert("LEADS_TO"@.len() == 8);
            assert("LeadsTo"@.len() == 7);
            assert("leads_to"@.len() == 8);
            assert("PART_OF"@.len() == 7);
            assert("PartOf"@.len() == 6);
            assert("part_of"@.len() == 7);
            assert("related_to"@[0] != "HAPPENS_AT"@[0]);
            assert("HappensAt"@.len() == 9);
            assert("related_to"@[0] != "happens_at"@[0]);
            assert("MENTIONS"@.len() == 8);
            assert("Mentions"@.len() == 8);
            assert("mentions"@.len() == 8);
            assert forall|s: Seq<char>| edge_type_of_str(s) == Some(EdgeType::RelatedTo) implies s == "RELATED_TO"@ || s == "related_to"@ || s == "RelatedTo"@ by {}
        },
        EdgeType::Foreshadows => {
            assert(ascii_lower("FORESHADOWS"@) =~= "foreshadows"@);
            assert("FORESHADOWS"@.len() == 11);
            assert("KNOWS"@.len() == 5);
            assert("Knows"@.len() == 5);
            assert("knows"@.len() == 5);
            assert("LOCATED_IN"@.len() == 10);
            assert("LocatedIn"@.len() == 9);
            assert("located_in"@.len() == 10);
            assert("APPEARS_IN"@.len() == 10);
            assert("AppearsIn"@.len() == 9);
            assert("appears_in"@.len() == 10);
            assert("LEADS_TO"@.len() == 8);
            assert("LeadsTo"@.len() == 7);
            assert("leads_to"@.len() == 8);
            assert("PART_OF"@.len() == 7);
            assert("PartOf"@.len() == 6);
            assert("part_of"@.len() == 7);
            assert("HAPPENS_AT"@.len() == 10);
            assert("HappensAt"@.len() == 9);
            assert("happens_at"@.len() == 10);
            assert("MENTIONS"@.len() == 8);
            assert("Mentions"@.len() == 8);
            assert("mentions"@.len() == 8);
            assert("RELATED_TO"@.len() == 10);
            assert("RelatedTo"@.len() == 9);
            assert("related_to"@.len() == 10);
            assert("Foreshadows"@.len() == 11);
            assert("KNOWS"@.len() == 5);
            assert("Knows"@.len() == 5);
            assert("knows"@.len() == 5);
            assert("LOCATED_IN"@.len() == 10);
            assert("LocatedIn"@.len() == 9);
            assert("located_in"@.len() == 10);
            assert("APPEARS_IN"@.len() == 10);
            assert("AppearsIn"@.len() == 9);
            assert("appears_in"@.len() == 10);
            assert("LEADS_TO"@.len() == 8);
            assert("LeadsTo"@.len() == 7);
            assert("leads_to"@.len() == 8);
            assert("PART_OF"@.len() == 7);
            assert("PartOf"@.len() == 6);
            assert("part_of"@.len() == 7);
            assert("HAPPENS_AT"@.len() == 10);
            assert("HappensAt"@.len() == 9);
            assert("happens_at"@.len() == 10);
            assert("MENTIONS"@.len() == 8);
            assert("Mentions"@.len() == 8);
            assert("mentions"@.len() == 8);
            assert("RELATED_TO"@.len() == 10);
            assert("RelatedTo"@.len() == 9);
            assert("related_to"@.len() == 10);
            assert("foreshadows"@.len() == 11);
            assert("KNOWS"@.len() == 5);
            assert("Knows"@.len() == 5);
            assert("knows"@.len() == 5);
            assert("LOCATED_IN"@.len() == 10);
            assert("LocatedIn"@.len() == 9);
            assert("located_in"@.len() == 10);
            assert("APPEARS_IN"@.len() == 10);
            assert("AppearsIn"@.len() == 9);
            assert("appears_in"@.len() == 10);
            assert("LEADS_TO"@.len() == 8);
            assert("LeadsTo"@.len() == 7);
            assert("leads_to"@.len() == 8);
            assert("PART_OF"@.len() == 7);
            assert("PartOf"@.len() == 6);
            assert("part_of"@.len() == 7);
            assert("HAPPENS_AT"@.len() == 10);
            assert("HappensAt"@.len() == 9);
            assert("happens_at"@.len() == 10);
            assert("MENTIONS"@.len() == 8);
            assert("Mentions"@.len() == 8);
            assert("mentions"@.len() == 8);
            assert("RELATED_TO"@.len() == 10);
            assert("RelatedTo"@.len() == 9);
            assert("related_to"@.len() == 10);
            assert forall|s: Seq<char>| edge_type_of_str(s) == Some(EdgeType::Foreshadows) implies s == "FORESHADOWS"@ || s == "foreshadows"@ || s == "Foreshadows"@ by {}
        },
        EdgeType::Twist => {
            assert(ascii_lower("TWIST"@) =~= "twist"@);
            assert("TWIST"@.len() == 5);
            assert("TWIST"@[0] != "KNOWS"@[0]);
            assert("TWIST"@[0] != "Knows"@[0]);
            assert("TWIST"@[0] != "knows"@[0]);
            assert("LOCATED_IN"@.len() == 10);
            assert("LocatedIn"@.len() == 9);
            assert("located_in"@.len() == 10);
            assert("APPEARS_IN"@.len() == 10);
            assert("AppearsIn"@.len() == 9);
            assert("appears_in"@.len() == 10);
            assert("LEADS_TO"@.len() == 8);
            assert("LeadsTo"@.len() == 7);
            assert("leads_to"@.len() == 8);
            assert("PART_OF"@.len() == 7);
            assert("PartOf"@.len() == 6);
            assert("part_of"@.len() == 7);
            assert("HAPPENS_AT"@.len() == 10);
            assert("HappensAt"@.len() == 9);
            assert("happens_at"@.len() == 10);
            assert("MENTIONS"@.len() == 8);
            assert("Mentions"@.len() == 8);
            assert("mentions"@.len() == 8);
            assert("RELATED_TO"@.len() == 10);
            assert("RelatedTo"@.len() == 9);
            assert("related_to"@.len() == 10);
            assert("FORESHADOWS"@.len() == 11);
            assert("Foreshadows"@.len() == 11);
            assert("foreshadows"@.len() == 11);
            assert("Twist"@.len() == 5);
            assert("Twist"@[0] != "KNOWS"@[0]);
            assert("Twist"@[0] != "Knows"@[0]);
            assert("Twist"@[0] != "knows"@[0]);
            assert("LOCATED_IN"@.len() == 10);
            assert("LocatedIn"@.len() == 9);
            assert("located_in"@.len() == 10);
            assert("APPEARS_IN"@.len() == 10);
            assert("AppearsIn"@.len() == 9);
            assert("appears_in"@.len() == 10);
            assert("LEADS_TO"@.len() == 8);
            assert("LeadsTo"@.len() == 7);
            assert("leads_to"@.len() == 8);
            assert("PART_OF"@.len() == 7);
            assert("PartOf"@.len() == 6);
            assert("part_of"@.len() == 7);
            assert("HAPPENS_AT"@.len() == 10);
            assert("HappensAt"@.len() == 9);
            assert("happens_at"@.len() == 10);
            assert("MENTIONS"@.len() == 8);
            assert("Mentions"@.len() == 8);
            assert("mentions"@.len() == 8);
            assert("RELATED_TO"@.len() == 10);
            assert("RelatedTo"@.len() == 9);
            assert("related_to"@.len() == 10);
            assert("FORESHADOWS"@.len() == 11);
            assert("Foreshadows"@.len() == 11);
            assert("foreshadows"@.len() == 11);
            assert("twist"@.len() == 5);
            assert("twist"@[0] != "KNOWS"@[0]);
            assert("twist"@[0] != "Knows"@[0]);
            assert("twist"@[0] != "knows"@[0]);
            assert("LOCATED_IN"@.len() == 10);
            assert("LocatedIn"@.len() == 9);
            assert("located_in"@.len() == 10);
            assert("APPEARS_IN"@.len() == 10);
            assert("AppearsIn"@.len() == 9);
            assert("appears_in"@.len() == 10);
            assert("LEADS_TO"@.len() == 8);
            assert("LeadsTo"@.len() == 7);
            assert("leads_to"@.len() == 8);
            assert("PART_OF"@.len() == 7);
            assert("PartOf"@.len() == 6);
            assert("part_of"@.len() == 7);
            assert("HAPPENS_AT"@.len() == 10);
            assert("HappensAt"@.len() == 9);
            assert("happens_at"@.len() == 10);
            assert("MENTIONS"@.len() == 8);
            assert("Mentions"@.len() == 8);
            assert("mentions"@.len() == 8);
            assert("RELATED_TO"@.len() == 10);
            assert("RelatedTo"@.len() == 9);
            assert("related_to"@.len() == 10);
            assert("FORESHADOWS"@.len() == 11);
            assert("Foreshadows"@.len() == 11);
            assert("foreshadows"@.len() == 11);
            assert forall|s: Seq<char>| edge_type_of_str(s) == Some(EdgeType::Twist) implies s == "TWIST"@ || s == "twist"@ || s == "Twist"@ by {}
        },
        EdgeType::TaggedWith => {
            assert(ascii_lower("TAGGED_WITH"@) =~= "tagged_with"@);
            assert("TAGGED_WITH"@.len() == 11);
            assert("KNOWS"@.len() == 5);
            assert("Knows"@.len() == 5);
            assert("knows"@.len() == 5);
            assert("LOCATED_IN"@.len() == 10);
            assert("LocatedIn"@.len() == 9);
            assert("located_in"@.len() == 10);
            assert("APPEARS_IN"@.len() == 10);
            assert("AppearsIn"@.len() == 9);
            assert("appears_in"@.len() == 10);
            assert("LEADS_TO"@.len() == 8);
            assert("LeadsTo"@.len() == 7);
            assert("leads_to"@.len() == 8);
            assert("PART_OF"@.len() == 7);
            assert("PartOf"@.len() == 6);
            assert("part_of"@.len() == 7);
            assert("HAPPENS_AT"@.len() == 10);
            assert("HappensAt"@.len() == 9);
            assert("happens_at"@.len() == 10);
            assert("MENTIONS"@.len() == 8);
            assert("Mentions"@.len() == 8);
            assert("mentions"@.len() == 8);
            assert("RELATED_TO"@.len() == 10);
            assert("RelatedTo"@.len() == 9);
            assert("related_to"@.len() == 10);
            assert("TAGGED_WITH"@[0] != "FORESHADOWS"@[0]);
            assert("TAGGED_WITH"@[0] != "Foreshadows"@[0]);
            assert("TAGGED_WITH"@[0] != "foreshadows"@[0]);
            assert("TWIST"@.len() == 5);
            assert("Twist"@.len() == 5);
            assert("twist"@.len() == 5);
            assert("TaggedWith"@.len() == 10);
            assert("KNOWS"@.len() == 5);
            assert("Knows"@.len() == 5);
            assert("knows"@.len() == 5);
            assert("TaggedWith"@[0] != "LOCATED_IN"@[0]);
            assert("LocatedIn"@.len() == 9);
            assert("TaggedWith"@[0] != "located_in"@[0]);
            assert("TaggedWith"@[0] != "APPEARS_IN"@[0]);
            assert("AppearsIn"@.len() == 9);
            assert("TaggedWith"@[0] != "appears_in"@[0]);
            assert("LEADS_TO"@.len() == 8);
            assert("LeadsTo"@.len() == 7);
            assert("leads_to"@.len() == 8);
            assert("PART_OF"@.len() == 7);
            assert("PartOf"@.len() == 6);
            assert("part_of"@.len() == 7);
            assert("TaggedWith"@[0] != "HAPPENS_AT"@[0]);
            assert("HappensAt"@.len() == 9);
            assert("TaggedWith"@[0] != "happens_at"@[0]);
            assert("MENTIONS"@.len() == 8);
            assert("Mentions"@.len() == 8);
            assert("mentions"@.len() == 8);
            assert("TaggedWith"@[0] != "RELATED_TO"@[0]);
            assert("RelatedTo"@.len() == 9);
            assert("TaggedWith"@[0] != "related_to"@[0]);
            assert("FORESHADOWS"@.len() == 11);
            assert("Foreshadows"@.len() == 11);
            assert("foreshadows"@.len() == 11);
            assert("TWIST"@.len() == 5);
            assert("Twist"@.len() == 5);
            assert("twist"@.len() == 5);
            assert("tagged_with"@.len() == 11);
            assert("KNOWS"@.len() == 5);
            assert("Knows"@.len() == 5);
            assert("knows"@.len() == 5);
            assert("LOCATED_IN"@.len() == 10);
            assert("LocatedIn"@.len() == 9);
            assert("located_in"@.len() == 10);
            assert("APPEARS_IN"@.len() == 10);
            assert("AppearsIn"@.len() == 9);
            assert("appears_in"@.len() == 10);
            assert("LEADS_TO"@.len() == 8);
            assert("LeadsTo"@.len() == 7);
            assert("leads_to"@.len() == 8);
            assert("PART_OF"@.len() == 7);
            assert("PartOf"@.len() == 6);
            assert("part_of"@.len() == 7);
            assert("HAPPENS_AT"@.len() == 10);
            assert("HappensAt"@.len() == 9);
            assert("happens_at"@.len() == 10);
            assert("MENTIONS"@.len() == 8);
            assert("Mentions"@.len() == 8);
            assert("mentions"@.len() == 8);
            assert("RELATED_TO"@.len() == 10);
            assert("RelatedTo"@.len() == 9);
            assert("related_to"@.len() == 10);
            assert("tagged_with"@[0] != "FORESHADOWS"@[0]);
            assert("tagged_with"@[0] != "Foreshadows"@[0]);
            assert("tagged_with"@[0] != "foreshadows"@[0]);
            assert("TWIST"@.len() == 5);
            assert("Twist"@.len() == 5);
            assert("twist"@.len() == 5);
            assert forall|s: Seq<char>| edge_type_of_str(s) == Some(EdgeType::TaggedWith) implies s == "TAGGED_WITH"@ || s == "tagged_with"@ || s == "TaggedWith"@ by {}
        },
    }
}

/// The relation names that the `add_relationship` tool offers.
pub open spec fn relationship_type_options() -> Seq<Seq<char>> {
    seq!["knows"@, "located_in"@, "appears_in"@, "leads_to"@, "part_of"@, "happens_at"@, "mentions"@, "related_to"@]
}

/// Every relation name the `add_relationship` tool offers is an ASCII text
/// that names an edge type, whose stored name is the offered name in upper case.
pub proof fn lemma_relationship_type_options(i: int)
    requires
        0 <= i < relationship_type_options().len(),
    ensures
        is_ascii_text(relationship_type_options()[i]),
        edge_type_of_str(relationship_type_options()[i]) matches Some(t) && edge_type_name(t) == ascii_upper(
            relationship_type_options()[i],
        ),
{
    reveal_strlit("KNOWS");
    reveal_strlit("Knows");
    reveal_strlit("knows");
    reveal_strlit("LOCATED_IN");
    reveal_strlit("LocatedIn");
    reveal_strlit("located_in");
    reveal_strlit("APPEARS_IN");
    reveal_strlit("AppearsIn");
    reveal_strlit("appears_in");
    reveal_strlit("LEADS_TO");
    reveal_strlit("LeadsTo");
    reveal_strlit("leads_to");
    reveal_strlit("PART_OF");
    reveal_strlit("PartOf");
    reveal_strlit("part_of");
    reveal_strlit("HAPPENS_AT");
    reveal_strlit("HappensAt");
    reveal_strlit("happens_at");
    reveal_strlit("MENTIONS");
    reveal_strlit("Mentions");
    reveal_strlit("mentions");
    reveal_strlit("RELATED_TO");
    reveal_strlit("RelatedTo");
    reveal_strlit("related_to");
    reveal_strlit("FORESHADOWS");
    reveal_strlit("Foreshadows");
    reveal_strlit("foreshadows");
    reveal_strlit("TWIST");
    reveal_strlit("Twist");
    reveal_strlit("twist");
    reveal_strlit("TAGGED_WITH");
    reveal_strlit("TaggedWith");
    reveal_strlit("tagged_with");
    if i == 0 {
        lemma_edge_type_name_roundtrip(EdgeType::Knows);
        assert(ascii_lower("KNOWS"@) =~= "knows"@);
        assert(ascii_upper("knows"@) =~= "KNOWS"@);
        assert(relationship_type_options()[0] == "knows"@);
    }
    if i == 1 {
        lemma_edge_type_name_roundtrip(EdgeType::LocatedIn);
        assert(ascii_lower("LOCATED_IN"@) =~= "located_in"@);
        assert(ascii_upper("located_in"@) =~= "LOCATED_IN"@);
        assert(relationship_type_options()[1] == "located_in"@);
    }
    if i == 2 {
        lemma_edge_type_name_roundtrip(EdgeType::AppearsIn);
        assert(ascii_lower("APPEARS_IN"@) =~= "appears_in"@);
        assert(ascii_upper("appears_in"@) =~= "APPEARS_IN"@);
        assert(relationship_type_options()[2] == "appears_in"@);
    }
    if i == 3 {
        lemma_edge_type_name_roundtrip(EdgeType::LeadsTo);
        assert(ascii_lower("LEADS_TO"@) =~= "leads_to"@);
        assert(ascii_upper("leads_to"@) =~= "LEADS_TO"@);
        assert(relationship_type_options()[3] == "leads_to"@);
    }
    if i == 4 {
        lemma_edge_type_name_roundtrip(EdgeType::PartOf);
        assert(ascii_lower("PART_OF"@) =~= "part_of"@);
        assert(ascii_upper("part_of"@) =~= "PART_OF"@);
        assert(relationship_type_options()[4] == "part_of"@);
    }
    if i == 5 {
        lemma_edge_type_name_roundtrip(EdgeType::HappensAt);
        assert(ascii_lower("HAPPENS_AT"@) =~= "happens_at"@);
        assert(ascii_upper("happens_at"@) =~= "HAPPENS_AT"@);
        assert(relationship_type_options()[5] == "happens_at"@);
    }
    if i == 6 {
        lemma_edge_type_name_roundtrip(EdgeType::Mentions);
        assert(ascii_lower("MENTIONS"@) =~= "mentions"@);
        assert(ascii_upper("mentions"@) =~= "MENTIONS"@);
        assert(relationship_type_options()[6] == "mentions"@);
    }
    if i == 7 {
        lemma_edge_type_name_roundtrip(EdgeType::RelatedTo);
        assert(ascii_lower("RELATED_TO"@) =~= "related_to"@);
        assert(ascii_upper("related_to"@) =~= "RELATED_TO"@);
        assert(relationship_type_options()[7] == "related_to"@);
    }
}



/// The view of an edge.
pub struct EdgeView {
    pub id: i64,
    pub project: Seq<char>,
    pub source_id: i64,
    pub target_id: i64,
    pub edge_type: EdgeType,
    pub properties: Map<Seq<char>, PropValueView>,
}

/// An edge of the knowledge graph, from a source node to a target node.
#[derive(Debug, Clone)]
pub struct Edge {
    /// Edge id (0 while not yet assigned).
    pub id: i64,
    /// The project the edge belongs to.
    pub project: String,
    /// Id of the source node.
    pub source_id: i64,
    /// Id of the target node.
    pub target_id: i64,
    /// The relation.
    pub edge_type: EdgeType,
    /// Further properties.
    pub properties: Properties,
}

impl View for Edge {
    type V = EdgeView;

    open spec fn view(&self) -> EdgeView {
        EdgeView {
            id: self.id,
            project: self.project@,
            source_id: self.source_id,
            target_id: self.target_id,
            edge_type: self.edge_type,
            properties: self.properties@,
        }
    }
}

/// A fresh edge: id 0, no properties.
pub open spec fn new_edge_view(
    project: Seq<char>,
    source_id: i64,
    target_id: i64,
    edge_type: EdgeType,
) -> EdgeView {
    EdgeView { id: 0, project, source_id, target_id, edge_type, properties: Map::empty() }
}

impl Edge {
    /// A new edge with id 0 and no properties.
    pub fn new(project: &str, source_id: i64, target_id: i64, edge_type: EdgeType) -> (r: Self)
        ensures
            r@ == new_edge_view(project@, source_id, target_id, edge_type),
    {
        Edge {
            id: 0,
            project: project.to_owned(),
            source_id,
            target_id,
            edge_type,
            properties: Properties::new(),
        }
    }

    /// A copy of the edge.
    pub fn duplicate(&self) -> (r: Edge)
        ensures
            r@ == self@,
    {
        Edge {
            id: self.id,
            project: self.project.clone(),
            source_id: self.source_id,
            target_id: self.target_id,
            edge_type: self.edge_type,
            properties: self.properties.duplicate(),
        }
    }
}

} // verus!
