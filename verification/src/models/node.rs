//! Node labels, properties and nodes.

use vstd::prelude::*;
use crate::text::{str_eq, ascii_lower, is_ascii_text};

verus! {

/// Kind of a graph node.
#[derive(Debug, Clone, Copy, PartialEq, Eq, Structural)]
pub enum NodeLabel {
    /// A character (protagonist, supporting role, villain ...).
    Character,
    /// A location (city, building, country ...).
    Location,
    /// A scene.
    Scene,
    /// A chapter.
    Chapter,
    /// A plot line.
    Plotline,
    /// A timeline event.
    Timeline,
    /// An important item.
    Item,
    /// A note.
    Note,
    /// The project root.
    Project,
    /// A source (markdown) file.
    File,
    /// An organization.
    Organization,
}

/// The label a string names: the lower-case or the capitalised English word.
pub open spec fn label_of_str(s: Seq<char>) -> Option<NodeLabel> {
    if s == "character"@ || s == "Character"@ { Some(NodeLabel::Character) }
    else if s == "location"@ || s == "Location"@ { Some(NodeLabel::Location) }
    else if s == "scene"@ || s == "Scene"@ { Some(NodeLabel::Scene) }
    else if s == "chapter"@ || s == "Chapter"@ { Some(NodeLabel::Chapter) }
    else if s == "plotline"@ || s == "Plotline"@ { Some(NodeLabel::Plotline) }
    else if s == "timeline"@ || s == "Timeline"@ { Some(NodeLabel::Timeline) }
    else if s == "item"@ || s == "Item"@ { Some(NodeLabel::Item) }
    else if s == "note"@ || s == "Note"@ { Some(NodeLabel::Note) }
    else if s == "project"@ || s == "Project"@ { Some(NodeLabel::Project) }
    else if s == "file"@ || s == "File"@ { Some(NodeLabel::File) }
    else if s == "organization"@ || s == "Organization"@ { Some(NodeLabel::Organization) }
    else { None }
}

/// The canonical (capitalised) name of a label.
pub open spec fn label_name(l: NodeLabel) -> Seq<char> {
    match l {
        NodeLabel::Character => "Character"@,
        NodeLabel::Location => "Location"@,
        NodeLabel::Scene => "Scene"@,
        NodeLabel::Chapter => "Chapter"@,
        NodeLabel::Plotline => "Plotline"@,
        NodeLabel::Timeline => "Timeline"@,
        NodeLabel::Item => "Item"@,
        NodeLabel::Note => "Note"@,
        NodeLabel::Project => "Project"@,
        NodeLabel::File => "File"@,
        NodeLabel::Organization => "Organization"@,
    }
}

/// The Chinese name of a label.
pub open spec fn label_cn_name(l: NodeLabel) -> Seq<char> {
    match l {
        NodeLabel::Character => "角色"@,
        NodeLabel::Location => "地点"@,
        NodeLabel::Scene => "场景"@,
        NodeLabel::Chapter => "章节"@,
        NodeLabel::Plotline => "故事线"@,
        NodeLabel::Timeline => "时间线"@,
        NodeLabel::Item => "物品"@,
        NodeLabel::Note => "笔记"@,
        NodeLabel::Project => "项目"@,
        NodeLabel::File => "文件"@,
        NodeLabel::Organization => "组织"@,
    }
}

impl NodeLabel {
    /// Parses a label from its lower-case or capitalised English name.
    pub fn from_str(s: &str) -> (r: Option<Self>)
        ensures
            r == label_of_str(s@),
    {
        if str_eq(s, "character") || str_eq(s, "Character") { Some(NodeLabel::Character) }
        else if str_eq(s, "location") || str_eq(s, "Location") { Some(NodeLabel::Location) }
        else if str_eq(s, "scene") || str_eq(s, "Scene") { Some(NodeLabel::Scene) }
        else if str_eq(s, "chapter") || str_eq(s, "Chapter") { Some(NodeLabel::Chapter) }
        else if str_eq(s, "plotline") || str_eq(s, "Plotline") { Some(NodeLabel::Plotline) }
        else if str_eq(s, "timeline") || str_eq(s, "Timeline") { Some(NodeLabel::Timeline) }
        else if str_eq(s, "item") || str_eq(s, "Item") { Some(NodeLabel::Item) }
        else if str_eq(s, "note") || str_eq(s, "Note") { Some(NodeLabel::Note) }
        else if str_eq(s, "project") || str_eq(s, "Project") { Some(NodeLabel::Project) }
        else if str_eq(s, "file") || str_eq(s, "File") { Some(NodeLabel::File) }
        else if str_eq(s, "organization") || str_eq(s, "Organization") { Some(NodeLabel::Organization) }
        else { None }
    }

    /// The canonical name of the label, as stored in the database.
    pub fn as_str(&self) -> (r: &'static str)
        ensures
            r@ == label_name(*self),
    {
        match self {
            NodeLabel::Character => "Character",
            NodeLabel::Location => "Location",
            NodeLabel::Scene => "Scene",
            NodeLabel::Chapter => "Chapter",
            NodeLabel::Plotline => "Plotline",
            NodeLabel::Timeline => "Timeline",
            NodeLabel::Item => "Item",
            NodeLabel::Note => "Note",
            NodeLabel::Project => "Project",
            NodeLabel::File => "File",
            NodeLabel::Organization => "Organization",
        }
    }

    /// The Chinese name of the label.
    pub fn cn_name(&self) -> (r: &'static str)
        ensures
            r@ == label_cn_name(*self),
    {
        match self {
            NodeLabel::Character => "角色",
            NodeLabel::Location => "地点",
            NodeLabel::Scene => "场景",
            NodeLabel::Chapter => "章节",
            NodeLabel::Plotline => "故事线",
            NodeLabel::Timeline => "时间线",
            NodeLabel::Item => "物品",
            NodeLabel::Note => "笔记",
            NodeLabel::Project => "项目",
            NodeLabel::File => "文件",
            NodeLabel::Organization => "组织",
        }
    }
}

/// Every label is read back from its canonical name and from that name's
/// ASCII lower-case form; and a text names a label only when it is one of
/// those two spellings.
#[verifier::spinoff_prover]
#[verifier::rlimit(50)]
pub proof fn lemma_label_name_roundtrip(l: NodeLabel)
    ensures
        label_of_str(label_name(l)) == Some(l),
        label_of_str(ascii_lower(label_name(l))) == Some(l),
        is_ascii_text(label_name(l)),
        forall|s: Seq<char>| label_of_str(s) == Some(l) ==> s == label_name(l) || s == ascii_lower(label_name(l)),
{
    reveal_strlit("character");
    reveal_strlit("Character");
    reveal_strlit("location");
    reveal_strlit("Location");
    reveal_strlit("scene");
    reveal_strlit("Scene");
    reveal_strlit("chapter");
    reveal_strlit("Chapter");
    reveal_strlit("plotline");
    reveal_strlit("Plotline");
    reveal_strlit("timeline");
    reveal_strlit("Timeline");
    reveal_strlit("item");
    reveal_strlit("Item");
    reveal_strlit("note");
    reveal_strlit("Note");
    reveal_strlit("project");
    reveal_strlit("Project");
    reveal_strlit("file");
    reveal_strlit("File");
    reveal_strlit("organization");
    reveal_strlit("Organization");
    match l {
        NodeLabel::Character => {
            assert(ascii_lower("Character"@) =~= "character"@);
            assert("Character"@.len() == 9);
            assert("character"@.len() == 9);
            assert forall|s: Seq<char>| label_of_str(s) == Some(NodeLabel::Character) implies s == "Character"@ || s == "character"@ by {}
        },
        NodeLabel::Location => {
            assert(ascii_lower("Location"@) =~= "location"@);
            assert("Location"@.len() == 8);
            assert("character"@.len() == 9);
            assert("Character"@.len() == 9);
            assert("location"@.len() == 8);
            assert("character"@.len() == 9);
            assert("Character"@.len() == 9);
            assert forall|s: Seq<char>| label_of_str(s) == Some(NodeLabel::Location) implies s == "Location"@ || s == "location"@ by {}
        },
        NodeLabel::Scene => {
            assert(ascii_lower("Scene"@) =~= "scene"@);
            assert("Scene"@.len() == 5);
            assert("character"@.len() == 9);
            assert("Character"@.len() == 9);
            assert("location"@.len() == 8);
            assert("Location"@.len() == 8);
            assert("scene"@.len() == 5);
            assert("character"@.len() == 9);
            assert("Character"@.len() == 9);
            assert("location"@.len() == 8);
            assert("Location"@.len() == 8);
            assert forall|s: Seq<char>| label_of_str(s) == Some(NodeLabel::Scene) implies s == "Scene"@ || s == "scene"@ by {}
        },
        NodeLabel::Chapter => {
            assert(ascii_lower("Chapter"@) =~= "chapter"@);
            assert("Chapter"@.len() == 7);
            assert("character"@.len() == 9);
            assert("Character"@.len() == 9);
            assert("location"@.len() == 8);
            assert("Location"@.len() == 8);
            assert("scene"@.len() == 5);
            assert("Scene"@.len() == 5);
            assert("chapter"@.len() == 7);
            assert("character"@.len() == 9);
            assert("Character"@.len() == 9);
            assert("location"@.len() == 8);
            assert("Location"@.len() == 8);
            assert("scene"@.len() == 5);
            assert("Scene"@.len() == 5);
            assert forall|s: Seq<char>| label_of_str(s) == Some(NodeLabel::Chapter) implies s == "Chapter"@ || s == "chapter"@ by {}
        },
        NodeLabel::Plotline => {
            assert(ascii_lower("Plotline"@) =~= "plotline"@);
            assert("Plotline"@.len() == 8);
            assert("character"@.len() == 9);
            assert("Character"@.len() == 9);
            assert("Plotline"@[0] != "location"@[0]);
            assert("Plotline"@[0] != "Location"@[0]);
            assert("scene"@.len() == 5);
            assert("Scene"@.len() == 5);
            assert("chapter"@.len() == 7);
            assert("Chapter"@.len() == 7);
            assert("plotline"@.len() == 8);
            assert("character"@.len() == 9);
            assert("Character"@.len() == 9);
            assert("plotline"@[0] != "location"@[0]);
            assert("plotline"@[0] != "Location"@[0]);
            assert("scene"@.len() == 5);
            assert("Scene"@.len() == 5);
            assert("chapter"@.len() == 7);
            assert("Chapter"@.len() == 7);
            assert forall|s: Seq<char>| label_of_str(s) == Some(NodeLabel::Plotline) implies s == "Plotline"@ || s == "plotline"@ by {}
        },
        NodeLabel::Timeline => {
            assert(ascii_lower("Timeline"@) =~= "timeline"@);
            assert("Timeline"@.len() == 8);
            assert("character"@.len() == 9);
            assert("Character"@.len() == 9);
            assert("Timeline"@[0] != "location"@[0]);
            assert("Timeline"@[0] != "Location"@[0]);
            assert("scene"@.len() == 5);
            assert("Scene"@.len() == 5);
            assert("chapter"@.len() == 7);
            assert("Chapter"@.len() == 7);
            assert("Timeline"@[0] != "plotline"@[0]);
            assert("Timeline"@[0] != "Plotline"@[0]);
            assert("timeline"@.len() == 8);
            assert("character"@.len() == 9);
            assert("Character"@.len() == 9);
            assert("timeline"@[0] != "location"@[0]);
            assert("timeline"@[0] != "Location"@[0]);
            assert("scene"@.len() == 5);
            assert("Scene"@.len() == 5);
            assert("chapter"@.len() == 7);
            assert("Chapter"@.len() == 7);
            assert("timeline"@[0] != "plotline"@[0]);
            assert("timeline"@[0] != "Plotline"@[0]);
            assert forall|s: Seq<char>| label_of_str(s) == Some(NodeLabel::Timeline) implies s == "Timeline"@ || s == "timeline"@ by {}
        },
        NodeLabel::Item => {
            assert(ascii_lower("Item"@) =~= "item"@);
            assert("Item"@.len() == 4);
            assert("character"@.len() == 9);
            assert("Character"@.len() == 9);
            assert("location"@.len() == 8);
            assert("Location"@.len() == 8);
            assert("scene"@.len() == 5);
            assert("Scene"@.len() == 5);
            assert("chapter"@.len() == 7);
            assert("Chapter"@.len() == 7);
            assert("plotline"@.len() == 8);
            assert("Plotline"@.len() == 8);
            assert("timeline"@.len() == 8);
            assert("Timeline"@.len() == 8);
            assert("item"@.len() == 4);
            assert("character"@.len() == 9);
            assert("Character"@.len() == 9);
            assert("location"@.len() == 8);
            assert("Location"@.len() == 8);
            assert("scene"@.len() == 5);
            assert("Scene"@.len() == 5);
            assert("chapter"@.len() == 7);
            assert("Chapter"@.len() == 7);
            assert("plotline"@.len() == 8);
            assert("Plotline"@.len() == 8);
            assert("timeline"@.len() == 8);
            assert("Timeline"@.len() == 8);
            assert forall|s: Seq<char>| label_of_str(s) == Some(NodeLabel::Item) implies s == "Item"@ || s == "item"@ by {}
        },
        NodeLabel::Note => {
            assert(ascii_lower("Note"@) =~= "note"@);
            assert("Note"@.len() == 4);
            assert("character"@.len() == 9);
            assert("Character"@.len() == 9);
            assert("location"@.len() == 8);
            assert("Location"@.len() == 8);
            assert("scene"@.len() == 5);
            assert("Scene"@.len() == 5);
            assert("chapter"@.len() == 7);
            assert("Chapter"@.len() == 7);
            assert("plotline"@.len() == 8);
            assert("Plotline"@.len() == 8);
            assert("timeline"@.len() == 8);
            assert("Timeline"@.len() == 8);
            assert("Note"@[0] != "item"@[0]);
            assert("Note"@[0] != "Item"@[0]);
            assert("note"@.len() == 4);
            assert("character"@.len() == 9);
            assert("Character"@.len() == 9);
            assert("location"@.len() == 8);
            assert("Location"@.len() == 8);
            assert("scene"@.len() == 5);
            assert("Scene"@.len() == 5);
            assert("chapter"@.len() == 7);
            assert("Chapter"@.len() == 7);
            assert("plotline"@.len() == 8);
            assert("Plotline"@.len() == 8);
            assert("timeline"@.len() == 8);
            assert("Timeline"@.len() == 8);
            assert("note"@[0] != "item"@[0]);
            assert("note"@[0] != "Item"@[0]);
            assert forall|s: Seq<char>| label_of_str(s) == Some(NodeLabel::Note) implies s == "Note"@ || s == "note"@ by {}
        },
        NodeLabel::Project => {
            assert(ascii_lower("Project"@) =~= "project"@);
            assert("Project"@.len() == 7);
            assert("character"@.len() == 9);
            assert("Character"@.len() == 9);
            assert("location"@.len() == 8);
            assert("Location"@.len() == 8);
            assert("scene"@.len() == 5);
            assert("Scene"@.len() == 5);
            assert("Project"@[0] != "chapter"@[0]);
            assert("Project"@[0] != "Chapter"@[0]);
            assert("plotline"@.len() == 8);
            assert("Plotline"@.len() == 8);
            assert("timeline"@.len() == 8);
            assert("Timeline"@.len() == 8);
            assert("item"@.len() == 4);
            assert("Item"@.len() == 4);
            assert("note"@.len() == 4);
            assert("Note"@.len() == 4);
            assert("project"@.len() == 7);
            assert("character"@.len() == 9);
            assert("Character"@.len() == 9);
            assert("location"@.len() == 8);
            assert("Location"@.len() == 8);
            assert("scene"@.len() == 5);
            assert("Scene"@.len() == 5);
            assert("project"@[0] != "chapter"@[0]);
            assert("project"@[0] != "Chapter"@[0]);
            assert("plotline"@.len() == 8);
            assert("Plotline"@.len() == 8);
            assert("timeline"@.len() == 8);
            assert("Timeline"@.len() == 8);
            assert("item"@.len() == 4);
            assert("Item"@.len() == 4);
            assert("note"@.len() == 4);
            assert("Note"@.len() == 4);
            assert forall|s: Seq<char>| label_of_str(s) == Some(NodeLabel::Project) implies s == "Project"@ || s == "project"@ by {}
        },
        NodeLabel::File => {
            assert(ascii_lower("File"@) =~= "file"@);
            assert("File"@.len() == 4);
            assert("character"@.len() == 9);
            assert("Character"@.len() == 9);
            assert("location"@.len() == 8);
            assert("Location"@.len() == 8);
            assert("scene"@.len() == 5);
            assert("Scene"@.len() == 5);
            assert("chapter"@.len() == 7);
            assert("Chapter"@.len() == 7);
            assert("plotline"@.len() == 8);
            assert("Plotline"@.len() == 8);
            assert("timeline"@.len() == 8);
            assert("Timeline"@.len() == 8);
            assert("File"@[0] != "item"@[0]);
            assert("File"@[0] != "Item"@[0]);
            assert("File"@[0] != "note"@[0]);
            assert("File"@[0] != "Note"@[0]);
            assert("project"@.len() == 7);
            assert("Project"@.len() == 7);
            assert("file"@.len() == 4);
            assert("character"@.len() == 9);
            assert("Character"@.len() == 9);
            assert("location"@.len() == 8);
            assert("Location"@.len() == 8);
            assert("scene"@.len() == 5);
            assert("Scene"@.len() == 5);
            assert("chapter"@.len() == 7);
            assert("Chapter"@.len() == 7);
            assert("plotline"@.len() == 8);
            assert("Plotline"@.len() == 8);
            assert("timeline"@.len() == 8);
            assert("Timeline"@.len() == 8);
            assert("file"@[0] != "item"@[0]);
            assert("file"@[0] != "Item"@[0]);
            assert("file"@[0] != "note"@[0]);
            assert("file"@[0] != "Note"@[0]);
            assert("project"@.len() == 7);
            assert("Project"@.len() == 7);
            assert forall|s: Seq<char>| label_of_str(s) == Some(NodeLabel::File) implies s == "File"@ || s == "file"@ by {}
        },
        NodeLabel::Organization => {
            assert(ascii_lower("Organization"@) =~= "organization"@);
            assert("Organization"@.len() == 12);
            assert("character"@.len() == 9);
            assert("Character"@.len() == 9);
            assert("location"@.len() == 8);
            assert("Location"@.len() == 8);
            assert("scene"@.len() == 5);
            assert("Scene"@.len() == 5);
            assert("chapter"@.len() == 7);
            assert("Chapter"@.len() == 7);
            assert("plotline"@.len() == 8);
            assert("Plotline"@.len() == 8);
            assert("timeline"@.len() == 8);
            assert("Timeline"@.len() == 8);
            assert("item"@.len() == 4);
            assert("Item"@.len() == 4);
            assert("note"@.len() == 4);
            assert("Note"@.len() == 4);
            assert("project"@.len() == 7);
            assert("Project"@.len() == 7);
            assert("file"@.len() == 4);
            assert("File"@.len() == 4);
            assert("organization"@.len() == 12);
            assert("character"@.len() == 9);
            assert("Character"@.len() == 9);
            assert("location"@.len() == 8);
            assert("Location"@.len() == 8);
            assert("scene"@.len() == 5);
            assert("Scene"@.len() == 5);
            assert("chapter"@.len() == 7);
            assert("Chapter"@.len() == 7);
            assert("plotline"@.len() == 8);
            assert("Plotline"@.len() == 8);
            assert("timeline"@.len() == 8);
            assert("Timeline"@.len() == 8);
            assert("item"@.len() == 4);
            assert("Item"@.len() == 4);
            assert("note"@.len() == 4);
            assert("Note"@.len() == 4);
            assert("project"@.len() == 7);
            assert("Project"@.len() == 7);
            assert("file"@.len() == 4);
            assert("File"@.len() == 4);
            assert forall|s: Seq<char>| label_of_str(s) == Some(NodeLabel::Organization) implies s == "Organization"@ || s == "organization"@ by {}
        },
    }
}

/// The labels that the `search_graph` tool offers.
pub open spec fn search_label_options() -> Seq<Seq<char>> {
    seq!["character"@, "location"@, "scene"@, "chapter"@, "plotline"@, "timeline"@, "item"@, "note"@]
}

/// Every label the `search_graph` tool offers names a label, whose canonical
/// name is the offered one with its first letter in upper case: the offered
/// name is that name's ASCII lower-case form.
pub proof fn lemma_search_label_options(i: int)
    requires
        0 <= i < search_label_options().len(),
    ensures
        label_of_str(search_label_options()[i]) matches Some(l) && ascii_lower(label_name(l))
            == search_label_options()[i],
{
    reveal_strlit("character");
    reveal_strlit("Character");
    reveal_strlit("location");
    reveal_strlit("Location");
    reveal_strlit("scene");
    reveal_strlit("Scene");
    reveal_strlit("chapter");
    reveal_strlit("Chapter");
    reveal_strlit("plotline");
    reveal_strlit("Plotline");
    reveal_strlit("timeline");
    reveal_strlit("Timeline");
    reveal_strlit("item");
    reveal_strlit("Item");
    reveal_strlit("note");
    reveal_strlit("Note");
    reveal_strlit("project");
    reveal_strlit("Project");
    reveal_strlit("file");
    reveal_strlit("File");
    reveal_strlit("organization");
    reveal_strlit("Organization");
    if i == 0 {
        lemma_label_name_roundtrip(NodeLabel::Character);
        assert(ascii_lower("Character"@) =~= "character"@);
        assert(search_label_options()[0] == "character"@);
    }
    if i == 1 {
        lemma_label_name_roundtrip(NodeLabel::Location);
        assert(ascii_lower("Location"@) =~= "location"@);
        assert(search_label_options()[1] == "location"@);
    }
    if i == 2 {
        lemma_label_name_roundtrip(NodeLabel::Scene);
        assert(ascii_lower("Scene"@) =~= "scene"@);
        assert(search_label_options()[2] == "scene"@);
    }
    if i == 3 {
        lemma_label_name_roundtrip(NodeLabel::Chapter);
        assert(ascii_lower("Chapter"@) =~= "chapter"@);
        assert(search_label_options()[3] == "chapter"@);
    }
    if i == 4 {
        lemma_label_name_roundtrip(NodeLabel::Plotline);
        assert(ascii_lower("Plotline"@) =~= "plotline"@);
        assert(search_label_options()[4] == "plotline"@);
    }
    if i == 5 {
        lemma_label_name_roundtrip(NodeLabel::Timeline);
        assert(ascii_lower("Timeline"@) =~= "timeline"@);
        assert(search_label_options()[5] == "timeline"@);
    }
    if i == 6 {
        lemma_label_name_roundtrip(NodeLabel::Item);
        assert(ascii_lower("Item"@) =~= "item"@);
        assert(search_label_options()[6] == "item"@);
    }
    if i == 7 {
        lemma_label_name_roundtrip(NodeLabel::Note);
        assert(ascii_lower("Note"@) =~= "note"@);
        assert(search_label_options()[7] == "note"@);
    }
}


// ============================================================
// Properties
// ============================================================

/// A property value: the JSON scalars that node and edge properties hold.
#[derive(Debug, Clone, PartialEq)]
pub enum PropValue {
    /// A JSON string.
    Str(String),
    /// A JSON integer.
    Int(i64),
    /// A JSON boolean.
    Bool(bool),
    /// JSON `null`.
    Null,
}

/// The view of a property value.
pub enum PropValueView {
    Str(Seq<char>),
    Int(i64),
    Bool(bool),
    Null,
}

impl View for PropValue {
    type V = PropValueView;

    open spec fn view(&self) -> PropValueView {
        match self {
            PropValue::Str(s) => PropValueView::Str(s@),
            PropValue::Int(i) => PropValueView::Int(*i),
            PropValue::Bool(b) => PropValueView::Bool(*b),
            PropValue::Null => PropValueView::Null,
        }
    }
}

impl PropValue {
    /// The string, if the value is a string.
    pub fn as_str(&self) -> (r: Option<&str>)
        ensures
            match self@ {
                PropValueView::Str(s) => r matches Some(t) && t@ == s,
                _ => r is None,
            },
    {
        match self {
            PropValue::Str(s) => Some(s.as_str()),
            _ => None,
        }
    }

    /// The integer, if the value is an integer.
    pub fn as_i64(&self) -> (r: Option<i64>)
        ensures
            match self@ {
                PropValueView::Int(i) => r == Some(i),
                _ => r is None,
            },
    {
        match self {
            PropValue::Int(i) => Some(*i),
            _ => None,
        }
    }

    /// A copy of the value.
    pub fn duplicate(&self) -> (r: PropValue)
        ensures
            r@ == self@,
    {
        match self {
            PropValue::Str(s) => PropValue::Str(s.clone()),
            PropValue::Int(i) => PropValue::Int(*i),
            PropValue::Bool(b) => PropValue::Bool(*b),
            PropValue::Null => PropValue::Null,
        }
    }
}

/// The map that a list of entries describes: a later entry for a key
/// replaces an earlier one.
pub open spec fn entries_map(e: Seq<(String, PropValue)>) -> Map<Seq<char>, PropValueView>
    decreases e.len(),
{
    if e.len() == 0 {
        Map::empty()
    } else {
        entries_map(e.drop_last()).insert(e.last().0@, e.last().1@)
    }
}

/// What `serde_json::to_string` gives for the JSON object of these properties.
pub uninterp spec fn json_text(m: Map<Seq<char>, PropValueView>) -> Seq<char>;

/// The properties that `serde_json::from_str` reads from a text, when the text
/// is a JSON object whose values are all strings, integers that fit `i64`,
/// booleans or `null`.
pub uninterp spec fn json_object_of(text: Seq<char>) -> Option<Map<Seq<char>, PropValueView>>;

/// Whether no key of the properties is one of serde_json's private marker
/// keys (`$serde_json::private::RawValue`, `$serde_json::private::Number`):
/// `serde_json::from_str` reads an object whose first key is such a marker
/// not as an object but as the raw value or number it marks.
pub open spec fn plain_keys(m: Map<Seq<char>, PropValueView>) -> bool {
    &&& !m.contains_key("$serde_json::private::RawValue"@)
    &&& !m.contains_key("$serde_json::private::Number"@)
}

/// `serde_json::to_string` of the JSON object of the entries (keys in
/// `serde_json::Map` order; a later entry for a key replaces an earlier one).
/// Claimed of serde_json: the text depends on the described map only, and,
/// when no key is one of serde_json's private marker keys,
/// `serde_json::from_str` reads that map back from it.  Nothing is claimed of
/// reading back an object with a marker key.
#[verifier::external_body]
fn json_object_text(entries: &Vec<(String, PropValue)>) -> (r: String)
    ensures
        r@ == json_text(entries_map(entries@)),
        plain_keys(entries_map(entries@)) ==> json_object_of(r@) == Some(entries_map(entries@)),
{
    let mut m = serde_json::Map::new();
    for (k, v) in entries.iter() {
        let x = match v {
            PropValue::Str(s) => serde_json::Value::String(s.clone()),
            PropValue::Int(i) => serde_json::Value::from(*i),
            PropValue::Bool(b) => serde_json::Value::Bool(*b),
            PropValue::Null => serde_json::Value::Null,
        };
        m.insert(k.clone(), x);
    }
    serde_json::to_string(&serde_json::Value::Object(m)).unwrap_or_else(|_| String::from("{}"))
}

/// `serde_json::from_str` of a text as a JSON value, and its entries when it is
/// an object of strings, `i64` integers, booleans and `null` (`Ok(None)` for
/// any other JSON value).  Claimed of serde_json: the entries describe
/// `json_object_of(text)`.  Which texts are syntax errors is not stated.
#[verifier::external_body]
fn json_object_entries(text: &str) -> (r: Result<Option<Vec<(String, PropValue)>>, serde_json::Error>)
    ensures
        r matches Ok(Some(v)) ==> json_object_of(text@) == Some(entries_map(v@)),
        !(r matches Ok(Some(_))) ==> json_object_of(text@) is None,
{
    let serde_json::Value::Object(m) = serde_json::from_str::<serde_json::Value>(text)? else {
        return Ok(None);
    };
    Ok(m.into_iter().map(|(k, x)| match x {
        serde_json::Value::String(s) => Some((k, PropValue::Str(s))),
        serde_json::Value::Number(n) => n.as_i64().map(|i| (k, PropValue::Int(i))),
        serde_json::Value::Bool(b) => Some((k, PropValue::Bool(b))),
        serde_json::Value::Null => Some((k, PropValue::Null)),
        serde_json::Value::Array(_) => None,
        serde_json::Value::Object(_) => None,
    }).collect())
}

/// Declares `serde_json::Error` to the verifier.
#[verifier::external_type_specification]
#[verifier::external_body]
pub struct ExJsonError(serde_json::Error);

/// Why a text cannot be read as properties.
#[derive(Debug)]
pub enum PropertiesError {
    /// The text is not valid JSON.
    Json(serde_json::Error),
    /// The text is JSON, but not an object of strings, integers, booleans and `null`.
    Unsupported,
}

/// The properties of a node or an edge: a JSON object of scalar values.
#[derive(Debug, Clone)]
pub struct Properties {
    entries: Vec<(String, PropValue)>,
}

impl View for Properties {
    type V = Map<Seq<char>, PropValueView>;

    closed spec fn view(&self) -> Map<Seq<char>, PropValueView> {
        entries_map(self.entries@)
    }
}

proof fn lemma_entries_map_last(e: Seq<(String, PropValue)>, i: int, k: Seq<char>)
    requires
        0 < i <= e.len(),
    ensures
        e[i - 1].0@ == k ==> entries_map(e.take(i)).contains_key(k) && entries_map(e.take(i))[k]
            == e[i - 1].1@,
        e[i - 1].0@ != k ==> entries_map(e.take(i)).contains_key(k) == entries_map(
            e.take(i - 1),
        ).contains_key(k) && entries_map(e.take(i))[k] == entries_map(e.take(i - 1))[k],
{
    assert(e.take(i).drop_last() =~= e.take(i - 1));
}

impl Properties {
    /// Empty properties.
    pub fn new() -> (r: Self)
        ensures
            r@ == Map::<Seq<char>, PropValueView>::empty(),
    {
        Properties { entries: Vec::new() }
    }

    /// The value of a key.
    pub fn get(&self, key: &str) -> (r: Option<&PropValue>)
        ensures
            match r {
                Some(v) => self@.contains_key(key@) && v@ == self@[key@],
                None => !self@.contains_key(key@),
            },
    {
        let k = key.to_owned();
        let mut i = self.entries.len();
        assert(self.entries@.take(i as int) =~= self.entries@);
        while i > 0
            invariant
                i <= self.entries.len(),
                k@ == key@,
                entries_map(self.entries@).contains_key(key@) == entries_map(
                    self.entries@.take(i as int),
                ).contains_key(key@),
                entries_map(self.entries@).contains_key(key@) ==> entries_map(self.entries@)[key@]
                    == entries_map(self.entries@.take(i as int))[key@],
            decreases i,
        {
            proof {
                lemma_entries_map_last(self.entries@, i as int, key@);
            }
            if self.entries[i - 1].0 == k {
                return Some(&self.entries[i - 1].1);
            }
            i = i - 1;
        }
        assert(self.entries@.take(0) =~= Seq::<(String, PropValue)>::empty());
        None
    }

    /// The value of a key, if it is a string.
    pub fn get_str(&self, key: &str) -> (r: Option<&str>)
        ensures
            match r {
                Some(s) => self@.contains_key(key@) && self@[key@] == PropValueView::Str(s@),
                None => !(self@.contains_key(key@) && self@[key@] is Str),
            },
    {
        match self.get(key) {
            Some(v) => v.as_str(),
            None => None,
        }
    }

    /// Sets the value of a key.
    pub fn insert(&mut self, key: &str, value: PropValue)
        ensures
            final(self)@ == old(self)@.insert(key@, value@),
    {
        let ghost before = self.entries@;
        self.entries.push((key.to_owned(), value));
        assert(self.entries@.drop_last() =~= before);
    }

    /// The properties as JSON text (`serde_json::to_string` of the object).
    /// Unless a key is one of serde_json's private marker keys, `from_json`
    /// reads these properties back from the text.
    pub fn to_json(&self) -> (r: String)
        ensures
            r@ == json_text(self@),
            plain_keys(self@) ==> json_object_of(r@) == Some(self@),
    {
        json_object_text(&self.entries)
    }

    /// Reads properties from JSON text.
    pub fn from_json(json: &str) -> (r: Result<Self, PropertiesError>)
        ensures
            match r {
                Ok(p) => json_object_of(json@) == Some(p@),
                Err(_) => json_object_of(json@) is None,
            },
    {
        match json_object_entries(json) {
            Ok(Some(entries)) => Ok(Properties { entries }),
            Ok(None) => Err(PropertiesError::Unsupported),
            Err(e) => Err(PropertiesError::Json(e)),
        }
    }

    /// A copy of the properties.
    pub fn duplicate(&self) -> (r: Properties)
        ensures
            r@ == self@,
    {
        let mut entries: Vec<(String, PropValue)> = Vec::new();
        let mut i: usize = 0;
        while i < self.entries.len()
            invariant
                i <= self.entries.len(),
                entries_map(entries@) == entries_map(self.entries@.take(i as int)),
            decreases self.entries.len() - i,
        {
            let ghost before = entries@;
            let k = self.entries[i].0.clone();
            let v = self.entries[i].1.duplicate();
            entries.push((k, v));
            assert(entries@.drop_last() =~= before);
            assert(self.entries@.take(i + 1).drop_last() =~= self.entries@.take(i as int));
            i = i + 1;
        }
        assert(self.entries@.take(self.entries.len() as int) =~= self.entries@);
        Properties { entries }
    }
}

/// Reading a key back after setting it gives the value that was set.
pub proof fn lemma_properties_read_after_write(
    m: Map<Seq<char>, PropValueView>,
    k: Seq<char>,
    v: PropValueView,
    other: Seq<char>,
)
    ensures
        m.insert(k, v).contains_key(k),
        m.insert(k, v)[k] == v,
        other != k ==> m.insert(k, v).contains_key(other) == m.contains_key(other),
        other != k && m.contains_key(other) ==> m.insert(k, v)[other] == m[other],
{
}

// ============================================================
// Nodes
// ============================================================

/// The characters of an optional string.
pub open spec fn opt_view(s: Option<String>) -> Option<Seq<char>> {
    match s {
        Some(x) => Some(x@),
        None => None,
    }
}

/// The view of a node.
pub struct NodeView {
    pub id: i64,
    pub project: Seq<char>,
    pub label: NodeLabel,
    pub name: Seq<char>,
    pub qualified_name: Seq<char>,
    pub file_path: Option<Seq<char>>,
    pub start_line: Option<i32>,
    pub end_line: Option<i32>,
    pub properties: Map<Seq<char>, PropValueView>,
}

/// A node of the knowledge graph.
#[derive(Debug, Clone)]
pub struct Node {
    /// Node id (0 while not yet assigned).
    pub id: i64,
    /// The project the node belongs to.
    pub project: String,
    /// The node's label.
    pub label: NodeLabel,
    /// Short name.
    pub name: String,
    /// Qualified name (`project.name`), unique within a graph.
    pub qualified_name: String,
    /// Source file path, for nodes imported from a file.
    pub file_path: Option<String>,
    /// First line.
    pub start_line: Option<i32>,
    /// Last line.
    pub end_line: Option<i32>,
    /// Further properties.
    pub properties: Properties,
}

impl View for Node {
    type V = NodeView;

    open spec fn view(&self) -> NodeView {
        NodeView {
            id: self.id,
            project: self.project@,
            label: self.label,
            name: self.name@,
            qualified_name: self.qualified_name@,
            file_path: opt_view(self.file_path),
            start_line: self.start_line,
            end_line: self.end_line,
            properties: self.properties@,
        }
    }
}

/// A fresh node: id 0, no file, no lines, no properties.
pub open spec fn new_node_view(
    project: Seq<char>,
    label: NodeLabel,
    name: Seq<char>,
    qualified_name: Seq<char>,
) -> NodeView {
    NodeView {
        id: 0,
        project,
        label,
        name,
        qualified_name,
        file_path: None,
        start_line: None,
        end_line: None,
        properties: Map::empty(),
    }
}

impl Node {
    /// A new node with id 0, no file, no lines and no properties.
    pub fn new(project: &str, label: NodeLabel, name: &str, qualified_name: &str) -> (r: Self)
        ensures
            r@ == new_node_view(project@, label, name@, qualified_name@),
    {
        Node {
            id: 0,
            project: project.to_owned(),
            label,
            name: name.to_owned(),
            qualified_name: qualified_name.to_owned(),
            file_path: None,
            start_line: None,
            end_line: None,
            properties: Properties::new(),
        }
    }

    /// The node with its source file set.
    pub fn with_file(self, file_path: &str) -> (r: Self)
        ensures
            r@ == (NodeView { file_path: Some(file_path@), ..self@ }),
    {
        let mut n = self;
        n.file_path = Some(file_path.to_owned());
        n
    }

    /// The node with its line range set.
    pub fn with_lines(self, start: i32, end: i32) -> (r: Self)
        ensures
            r@ == (NodeView { start_line: Some(start), end_line: Some(end), ..self@ }),
    {
        let mut n = self;
        n.start_line = Some(start);
        n.end_line = Some(end);
        n
    }

    /// A copy of the node.
    pub fn duplicate(&self) -> (r: Node)
        ensures
            r@ == self@,
    {
        Node {
            id: self.id,
            project: self.project.clone(),
            label: self.label,
            name: self.name.clone(),
            qualified_name: self.qualified_name.clone(),
            file_path: match &self.file_path {
                Some(f) => Some(f.clone()),
                None => None,
            },
            start_line: self.start_line,
            end_line: self.end_line,
            properties: self.properties.duplicate(),
        }
    }
}

} // verus!
