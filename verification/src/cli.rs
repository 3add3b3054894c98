//! The command line: its commands as plain values, and what the command
//! handlers decide and print.
//!
//! Parsing the arguments, opening the store and printing are the
//! application's; the texts and choices are made here.

use vstd::prelude::*;
use vstd::string::StringExecFns;
use crate::models::{
    Node, NodeView, NodeLabel, label_of_str, label_cn_name, Edge, EdgeType, edge_type_name, edge_type_of_str,
    new_edge_view,
};
use crate::text::{seq_views, int_text, i64_text, u64_text};

verus! {

broadcast use vstd::seq_lib::group_seq_properties;

/// The command line.
#[derive(Debug)]
pub struct Cli {
    /// The command.
    pub command: Commands,
}

/// The top-level commands.
#[derive(Debug)]
pub enum Commands {
    /// Runs the MCP server on stdin/stdout.
    Server,
    /// Runs the web UI.
    Ui {
        /// The port (8080 by default).
        port: u16,
        /// The project shown first.
        project: Option<String>,
    },
    /// A one-shot command.
    Cli(CliCommand),
    /// Creates a project and its database.
    Init {
        /// The project's name.
        name: String,
        /// The directory of the database.
        path: Option<String>,
    },
    /// Configuration.
    Config {
        /// What to do.
        action: Option<ConfigAction>,
    },
}

/// The one-shot commands.
#[derive(Debug)]
pub enum CliCommand {
    /// Adds a character.
    AddCharacter { name: String, project: Option<String>, traits: Option<String> },
    /// Adds a relationship between two characters.
    AddRelationship {
        character_a: String,
        character_b: String,
        relationship_type: String,
        project: Option<String>,
    },
    /// Lists the characters of a project.
    ListCharacters { project: Option<String> },
    /// Searches the graph by name and/or label.
    Search { query: Option<String>, label: Option<String>, project: Option<String> },
    /// Imports a file or directory of chapters.
    Import { path: String, project: Option<String>, source: Option<String> },
}

/// Configuration actions.
#[derive(Debug)]
pub enum ConfigAction {
    /// Lists the settings.
    List,
    /// Shows a setting.
    Get { key: String },
    /// Changes a setting.
    SetValue { key: String, value: String },
}

/// The database file used when no directory is given.
pub const DB_PATH: &'static str = "novelbase.db";

/// The project used when none is given.
pub fn project_or_default<'a>(project: Option<&'a str>) -> (r: &'a str)
    ensures
        r@ == match project {
            Some(p) => p@,
            None => "default"@,
        },
{
    match project {
        Some(p) => p,
        None => "default",
    }
}

/// A text without its trailing `/` characters.
pub open spec fn trim_slashes(s: Seq<char>) -> Seq<char>
    decreases s.len(),
{
    if s.len() > 0 && s.last() == '/' {
        trim_slashes(s.drop_last())
    } else {
        s
    }
}

/// Dropping trailing slashes keeps a prefix of the text, drops only `/`
/// characters, and leaves no `/` at the end.
pub proof fn lemma_trim_slashes(s: Seq<char>)
    ensures
        trim_slashes(s).len() <= s.len(),
        trim_slashes(s) == s.take(trim_slashes(s).len() as int),
        forall|j: int| trim_slashes(s).len() <= j < s.len() ==> s[j] == '/',
        trim_slashes(s).len() == 0 || trim_slashes(s).last() != '/',
    decreases s.len(),
{
    if s.len() > 0 && s.last() == '/' {
        let d = s.drop_last();
        lemma_trim_slashes(d);
        let t = trim_slashes(d);
        assert(d.take(t.len() as int) =~= s.take(t.len() as int));
        assert forall|j: int| t.len() <= j < s.len() implies s[j] == '/' by {
            if j < s.len() - 1 {
                assert(s[j] == d[j]);
            }
        }
    } else {
        assert(s.take(s.len() as int) =~= s);
    }
}

/// The database of `init`: `novelbase.db` in the given directory (its
/// trailing slashes dropped), or in the working directory.
pub fn db_path_for(path: Option<&str>) -> (r: String)
    ensures
        r@ == match path {
            Some(p) => trim_slashes(p@) + "/novelbase.db"@,
            None => "novelbase.db"@,
        },
{
    match path {
        Some(p) => {
            let v = crate::text::chars_of(p);
            let mut n = v.len();
            while n > 0 && v[n - 1] == '/'
                invariant
                    n <= v.len(),
                    trim_slashes(v@) == trim_slashes(v@.take(n as int)),
                decreases n,
            {
                assert(v@.take(n as int).drop_last() =~= v@.take(n - 1));
                n = n - 1;
            }
            assert(trim_slashes(v@.take(n as int)) == v@.take(n as int));
            let head = crate::text::slice_chars(&v, 0, n);
            let mut s = crate::text::string_of(&head);
            s.append("/novelbase.db");
            s
        },
        None => DB_PATH.to_owned(),
    }
}

/// What `config` prints.
pub open spec fn config_text(action: Option<ConfigAction>) -> Seq<char> {
    match action {
        Some(ConfigAction::List) => "配置列表（暂未实现）"@,
        Some(ConfigAction::Get { key }) => "获取配置: "@ + key@ + "（暂未实现）"@,
        Some(ConfigAction::SetValue { key, value }) => "设置配置: "@ + key@ + " = "@ + value@ + "（暂未实现）"@,
        None => "运行 `novelbase-memory-mcp config --help` 查看配置用法"@,
    }
}

/// What `config` prints.
pub fn config_message(action: &Option<ConfigAction>) -> (r: String)
    ensures
        r@ == config_text(*action),
{
    match action {
        Some(ConfigAction::List) => "配置列表（暂未实现）".to_owned(),
        Some(ConfigAction::Get { key }) => {
            let mut s = "获取配置: ".to_owned();
            s.append(key.as_str());
            s.append("（暂未实现）");
            s
        },
        Some(ConfigAction::SetValue { key, value }) => {
            let mut s = "设置配置: ".to_owned();
            s.append(key.as_str());
            s.append(" = ");
            s.append(value.as_str());
            s.append("（暂未实现）");
            s
        },
        None => "运行 `novelbase-memory-mcp config --help` 查看配置用法".to_owned(),
    }
}

/// What `init` prints.
pub fn initialized_message(name: &str, db_path: &str) -> (r: String)
    ensures
        r@ == "✅ 项目 '"@ + name@ + "' 已初始化，数据库: "@ + db_path@,
{
    let mut s = "✅ 项目 '".to_owned();
    s.append(name);
    s.append("' 已初始化，数据库: ");
    s.append(db_path);
    s
}

/// What `add-character` prints.
pub fn character_added_line(name: &str, id: i64) -> (r: String)
    ensures
        r@ == "✅ 角色 '"@ + name@ + "' 已添加，ID: "@ + int_text(id as int),
{
    let mut s = "✅ 角色 '".to_owned();
    s.append(name);
    s.append("' 已添加，ID: ");
    s.append(i64_text(id).as_str());
    s
}

/// What `add-relationship` prints.
pub fn relationship_added_line(id: i64, a: &str, edge_type: EdgeType, b: &str) -> (r: String)
    ensures
        r@ == "✅ 关系已添加 (ID: "@ + int_text(id as int) + ") — "@ + a@ + " --["@ + edge_type_name(
            edge_type,
        ) + "]--> "@ + b@,
{
    let mut s = "✅ 关系已添加 (ID: ".to_owned();
    s.append(i64_text(id).as_str());
    s.append(") — ");
    s.append(a);
    s.append(" --[");
    s.append(edge_type.as_str());
    s.append("]--> ");
    s.append(b);
    s
}

/// The message of a character that was not found.
pub fn character_not_found(name: &str) -> (r: String)
    ensures
        r@ == "未找到角色: "@ + name@,
{
    let mut s = "未找到角色: ".to_owned();
    s.append(name);
    s
}

/// The message of an unknown relationship type.
pub fn unknown_relationship(relationship_type: &str) -> (r: String)
    ensures
        r@ == "未知关系类型: "@ + relationship_type@,
{
    let mut s = "未知关系类型: ".to_owned();
    s.append(relationship_type);
    s
}

/// The edge `add-relationship` adds, given the ids found for the two
/// characters: the first missing character, and then an unknown relationship
/// type, is reported instead.
pub fn relationship_to_add(
    project: &str,
    character_a: &str,
    a: Option<i64>,
    character_b: &str,
    b: Option<i64>,
    relationship_type: &str,
) -> (r: Result<Edge, String>)
    ensures
        match (a, b) {
            (None, _) => r matches Err(m) && m@ == "未找到角色: "@ + character_a@,
            (Some(_), None) => r matches Err(m) && m@ == "未找到角色: "@ + character_b@,
            (Some(x), Some(y)) => match edge_type_of_str(relationship_type@) {
                None => r matches Err(m) && m@ == "未知关系类型: "@ + relationship_type@,
                Some(t) => r matches Ok(e) && e@ == new_edge_view(project@, x, y, t),
            },
        },
{
    match (a, b) {
        (None, _) => Err(character_not_found(character_a)),
        (Some(_), None) => Err(character_not_found(character_b)),
        (Some(x), Some(y)) => match EdgeType::from_str(relationship_type) {
            None => Err(unknown_relationship(relationship_type)),
            Some(t) => Ok(Edge::new(project, x, y, t)),
        },
    }
}

/// One line per node, each after a newline: `  - name (ID: id)`.
pub open spec fn listed_lines(ns: Seq<NodeView>) -> Seq<char>
    decreases ns.len(),
{
    if ns.len() == 0 {
        Seq::empty()
    } else {
        listed_lines(ns.drop_last()) + "\n  - "@ + ns.last().name + " (ID: "@ + int_text(
            ns.last().id as int,
        ) + ")"@
    }
}

/// The listed lines of a list of nodes are those of its parts, in order; a
/// node is listed as a newline and `  - name (ID: id)`.
#[verifier::rlimit(40)]
pub proof fn lemma_listed_lines_concat(a: Seq<NodeView>, b: Seq<NodeView>)
    ensures
        listed_lines(a + b) == listed_lines(a) + listed_lines(b),
    decreases b.len(),
{
    if b.len() == 0 {
        assert(a + b =~= a);
        assert(listed_lines(a) + Seq::<char>::empty() =~= listed_lines(a));
    } else {
        lemma_listed_lines_concat(a, b.drop_last());
        assert((a + b).drop_last() =~= a + b.drop_last());
        assert((a + b).last() == b.last());
        assert(listed_lines(a + b) =~= listed_lines(a) + listed_lines(b));
    }
}

/// The line of one node.
pub proof fn lemma_listed_lines_one(n: NodeView)
    ensures
        listed_lines(seq![n]) == "\n  - "@ + n.name + " (ID: "@ + int_text(n.id as int) + ")"@,
{
    assert(seq![n].drop_last() =~= Seq::<NodeView>::empty());
    assert(seq![n].last() == n);
    assert(listed_lines(Seq::<NodeView>::empty()) == Seq::<char>::empty());
    assert(listed_lines(seq![n]) =~= "\n  - "@ + n.name + " (ID: "@ + int_text(n.id as int) + ")"@);
}

/// What `list-characters` prints.
pub open spec fn character_listing(project: Seq<char>, ns: Seq<NodeView>) -> Seq<char> {
    "📋 角色列表（项目: "@ + project + "）:"@ + listed_lines(ns) + "\n共 "@ + int_text(ns.len() as int)
        + " 个角色"@
}

/// What `list-characters` prints for the characters found.
pub fn character_listing_text(project: &str, characters: &Vec<Node>) -> (r: String)
    ensures
        r@ == character_listing(project@, seq_views(characters@)),
{
    let ghost ns = seq_views(characters@);
    let mut s = "📋 角色列表（项目: ".to_owned();
    s.append(project);
    s.append("）:");
    let ghost head = s@;
    let mut i: usize = 0;
    while i < characters.len()
        invariant
            i <= characters.len(),
            ns == seq_views(characters@),
            s@ == head + listed_lines(ns.take(i as int)),
        decreases characters.len() - i,
    {
        assert(ns.take(i + 1).drop_last() =~= ns.take(i as int));
        s.append("\n  - ");
        s.append(characters[i].name.as_str());
        s.append(" (ID: ");
        s.append(i64_text(characters[i].id).as_str());
        s.append(")");
        i = i + 1;
    }
    assert(ns.take(characters.len() as int) =~= ns);
    s.append("\n共 ");
    s.append(u64_text(characters.len() as u64).as_str());
    s.append(" 个角色");
    s
}

// ============================================================
// search
// ============================================================

/// How a search goes.
#[derive(Debug)]
pub enum SearchPlan {
    /// Search names for the query (full text first, then by substring), then
    /// keep the nodes of the label, if one is given.
    ByQuery { query: String, label: Option<String> },
    /// List the nodes of a label.
    ByLabel(NodeLabel),
    /// Print the message and stop.
    Message(String),
}

/// How a search with the given query and label goes.
pub fn search_plan(query: Option<&str>, label: Option<&str>) -> (r: SearchPlan)
    ensures
        match query {
            Some(q) => r matches SearchPlan::ByQuery { query: x, label: y } && x@ == q@ && match label {
                Some(l) => y matches Some(z) && z@ == l@,
                None => y is None,
            },
            None => match label {
                Some(l) => match label_of_str(l@) {
                    Some(x) => r == SearchPlan::ByLabel(x),
                    None => r matches SearchPlan::Message(m) && m@ == "未知标签: "@ + l@,
                },
                None => r matches SearchPlan::Message(m) && m@ == "请指定搜索关键词或 --label"@,
            },
        },
{
    match query {
        Some(q) => SearchPlan::ByQuery {
            query: q.to_owned(),
            label: match label {
                Some(l) => Some(l.to_owned()),
                None => None,
            },
        },
        None => match label {
            Some(l) => match NodeLabel::from_str(l) {
                Some(x) => SearchPlan::ByLabel(x),
                None => {
                    let mut m = "未知标签: ".to_owned();
                    m.append(l);
                    SearchPlan::Message(m)
                },
            },
            None => SearchPlan::Message("请指定搜索关键词或 --label".to_owned()),
        },
    }
}

/// Whether the full-text result is used: it succeeded and found something;
/// otherwise the search falls back to substring matching.
pub fn use_full_text<E>(result: &Result<Vec<Node>, E>) -> (r: bool)
    ensures
        r == (result matches Ok(v) && v.len() > 0),
{
    match result {
        Ok(v) => v.len() > 0,
        Err(_) => false,
    }
}

/// The nodes of a search that carry the named label, or the message for an
/// unknown label.
pub fn keep_label(nodes: Vec<Node>, label: &str) -> (r: Result<Vec<Node>, String>)
    ensures
        match label_of_str(label@) {
            Some(l) => r matches Ok(v) && seq_views(v@) == seq_views(nodes@).filter(
                |n: NodeView| n.label == l,
            ),
            None => r matches Err(m) && m@ == "未知标签: "@ + label@
                + "，可用: character/location/scene/chapter/plotline/timeline/item/note/project/file"@,
        },
{
    match NodeLabel::from_str(label) {
        Some(l) => {
            let ghost ns = seq_views(nodes@);
            let ghost p = |n: NodeView| n.label == l;
            let mut out: Vec<Node> = Vec::new();
            let mut i: usize = 0;
            while i < nodes.len()
                invariant
                    i <= nodes.len(),
                    ns == seq_views(nodes@),
                    p == (|n: NodeView| n.label == l),
                    seq_views(out@) == ns.take(i as int).filter(p),
                decreases nodes.len() - i,
            {
                proof {
                    reveal(Seq::filter);
                    assert(ns.take(i + 1).drop_last() =~= ns.take(i as int));
                }
                let ghost before = seq_views(out@);
                if nodes[i].label == l {
                    out.push(nodes[i].duplicate());
                    assert(seq_views(out@) =~= before.push(ns[i as int]));
                }
                i = i + 1;
            }
            assert(ns.take(ns.len() as int) =~= ns);
            Ok(out)
        },
        None => {
            let mut m = "未知标签: ".to_owned();
            m.append(label);
            m.append("，可用: character/location/scene/chapter/plotline/timeline/item/note/project/file");
            Err(m)
        },
    }
}

/// One line per node found, each after a newline:
/// `  - [label] name (ID: id, 文件: path)`, with `-` for a node without a file.
pub open spec fn found_lines(ns: Seq<NodeView>) -> Seq<char>
    decreases ns.len(),
{
    if ns.len() == 0 {
        Seq::empty()
    } else {
        let n = ns.last();
        found_lines(ns.drop_last()) + "\n  - ["@ + label_cn_name(n.label) + "] "@ + n.name + " (ID: "@
            + int_text(n.id as int) + ", 文件: "@ + match n.file_path {
            Some(p) => p,
            None => "-"@,
        } + ")"@
    }
}

/// The line of one node found.
pub open spec fn found_line(n: NodeView) -> Seq<char> {
    "\n  - ["@ + label_cn_name(n.label) + "] "@ + n.name + " (ID: "@ + int_text(n.id as int) + ", 文件: "@
        + match n.file_path {
        Some(p) => p,
        None => "-"@,
    } + ")"@
}

proof fn lemma_found_lines_step(s: Seq<NodeView>)
    requires
        s.len() > 0,
    ensures
        found_lines(s) == found_lines(s.drop_last()) + found_line(s.last()),
{
    assert(found_lines(s) =~= found_lines(s.drop_last()) + found_line(s.last()));
}

/// The lines of the nodes found are those of its parts, in order; a node is
/// a newline and `  - [label] name (ID: id, 文件: path)`, `-` standing for a
/// missing path.
pub proof fn lemma_found_lines_concat(a: Seq<NodeView>, b: Seq<NodeView>)
    ensures
        found_lines(a + b) == found_lines(a) + found_lines(b),
    decreases b.len(),
{
    if b.len() == 0 {
        assert(a + b =~= a);
        assert(found_lines(a) + Seq::<char>::empty() =~= found_lines(a));
    } else {
        lemma_found_lines_concat(a, b.drop_last());
        assert((a + b).drop_last() =~= a + b.drop_last());
        assert((a + b).last() == b.last());
        lemma_found_lines_step(a + b);
        lemma_found_lines_step(b);
        let x = found_lines(a);
        let y = found_lines(b.drop_last());
        let z = found_line(b.last());
        assert(x + (y + z) =~= (x + y) + z);
    }
}

/// The line of one node.
pub proof fn lemma_found_lines_one(n: NodeView)
    ensures
        found_lines(seq![n]) == "\n  - ["@ + label_cn_name(n.label) + "] "@ + n.name + " (ID: "@ + int_text(n.id as int) + ", 文件: "@
            + match n.file_path {
            Some(p) => p,
            None => "-"@,
        } + ")"@,
{
    assert(seq![n].drop_last() =~= Seq::<NodeView>::empty());
    assert(seq![n].last() == n);
    assert(found_lines(Seq::<NodeView>::empty()) == Seq::<char>::empty());
    assert(found_lines(seq![n]) =~= "\n  - ["@ + label_cn_name(n.label) + "] "@ + n.name + " (ID: "@ + int_text(n.id as int) + ", 文件: "@
            + match n.file_path {
            Some(p) => p,
            None => "-"@,
        } + ")"@);
}

/// What a search prints for the nodes found.
pub open spec fn search_report(ns: Seq<NodeView>) -> Seq<char> {
    if ns.len() == 0 {
        "没有找到匹配的节点"@
    } else {
        "📋 找到 "@ + int_text(ns.len() as int) + " 个节点:"@ + found_lines(ns)
    }
}

/// What a search prints for the nodes found.
pub fn search_report_text(nodes: &Vec<Node>) -> (r: String)
    ensures
        r@ == search_report(seq_views(nodes@)),
{
    if nodes.len() == 0 {
        return "没有找到匹配的节点".to_owned();
    }
    let ghost ns = seq_views(nodes@);
    let mut s = "📋 找到 ".to_owned();
    s.append(u64_text(nodes.len() as u64).as_str());
    s.append(" 个节点:");
    let ghost head = s@;
    let mut i: usize = 0;
    while i < nodes.len()
        invariant
            i <= nodes.len(),
            ns == seq_views(nodes@),
            s@ == head + found_lines(ns.take(i as int)),
        decreases nodes.len() - i,
    {
        assert(ns.take(i + 1).drop_last() =~= ns.take(i as int));
        let n = &nodes[i];
        s.append("\n  - [");
        s.append(n.label.cn_name());
        s.append("] ");
        s.append(n.name.as_str());
        s.append(" (ID: ");
        s.append(i64_text(n.id).as_str());
        s.append(", 文件: ");
        match &n.file_path {
            Some(p) => s.append(p.as_str()),
            None => s.append("-"),
        }
        s.append(")");
        i = i + 1;
    }
    assert(ns.take(nodes.len() as int) =~= ns);
    s
}

/// What `import` prints at the end.
pub fn imported_message(project: &str, nodes: usize, edges: usize) -> (r: String)
    ensures
        r@ == "✅ 导入完成: 项目 '"@ + project@ + "'，"@ + int_text(nodes as int) + " 个节点，"@ + int_text(
            edges as int,
        ) + " 条边"@,
{
    let mut s = "✅ 导入完成: 项目 '".to_owned();
    s.append(project);
    s.append("'，");
    s.append(u64_text(nodes as u64).as_str());
    s.append(" 个节点，");
    s.append(u64_text(edges as u64).as_str());
    s.append(" 条边");
    s
}

} // verus!
