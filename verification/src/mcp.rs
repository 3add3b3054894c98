//! The MCP server's decisions: how a JSON-RPC request is routed, which tool a
//! call names, and what each tool answers.
//!
//! The application reads and writes the JSON lines and runs the store queries;
//! what is answered, for every outcome of those queries, is decided here.

use vstd::prelude::*;
use vstd::string::StringExecFns;
use crate::models::{
    Node, NodeView, NodeLabel, Edge, EdgeType, edge_type_of_str, new_edge_view, PropValue, PropValueView,
    new_node_view,
};
use crate::text::{seq_views, str_eq, int_text, i64_text, u64_text, uppercase, to_upper};

verus! {

broadcast use vstd::seq_lib::group_seq_properties;

// ============================================================
// Protocol
// ============================================================

/// The MCP protocol version the server speaks.
pub const PROTOCOL_VERSION: &'static str = "2024-11-05";

/// The server's name.
pub const SERVER_NAME: &'static str = "novelbase-memory-mcp";

/// The server's version.
pub const SERVER_VERSION: &'static str = "0.1.0";

/// JSON-RPC error code: the line is not valid JSON-RPC.
pub const PARSE_ERROR: i32 = -32700;

/// JSON-RPC error code: the method is unknown.
pub const METHOD_NOT_FOUND: i32 = -32601;

/// The methods the server answers.
#[derive(Debug, Clone, Copy, PartialEq, Eq, Structural)]
pub enum RpcMethod {
    /// `initialize`: protocol version, capabilities, server info.
    Initialize,
    /// `ping`: an empty object.
    Ping,
    /// `tools/list`: the tool definitions.
    ToolsList,
    /// `tools/call`: runs a tool.
    ToolsCall,
}

/// What to do with a line.
#[derive(Debug, Clone, Copy, PartialEq, Eq, Structural)]
pub enum RpcAction {
    /// The line is not a JSON-RPC request: answer `PARSE_ERROR`, with no id.
    ParseError,
    /// A notification (no id): nothing is answered.
    Ignore,
    /// Answer the method.
    Answer(RpcMethod),
    /// Answer `METHOD_NOT_FOUND`.
    NotFound,
}

/// The action for a request with the given method, with or without an id.
pub open spec fn rpc_action(method: Seq<char>, has_id: bool) -> RpcAction {
    if !has_id {
        RpcAction::Ignore
    } else if method == "initialize"@ {
        RpcAction::Answer(RpcMethod::Initialize)
    } else if method == "ping"@ {
        RpcAction::Answer(RpcMethod::Ping)
    } else if method == "tools/list"@ {
        RpcAction::Answer(RpcMethod::ToolsList)
    } else if method == "tools/call"@ {
        RpcAction::Answer(RpcMethod::ToolsCall)
    } else {
        RpcAction::NotFound
    }
}

/// The name a method is called by.
pub open spec fn method_name(m: RpcMethod) -> Seq<char> {
    match m {
        RpcMethod::Initialize => "initialize"@,
        RpcMethod::Ping => "ping"@,
        RpcMethod::ToolsList => "tools/list"@,
        RpcMethod::ToolsCall => "tools/call"@,
    }
}

/// A request is answered by the method it names, and only by that one; a
/// notification is never answered; a request that names no method is not
/// found.
pub proof fn lemma_rpc_routing(m: RpcMethod, x: Seq<char>)
    ensures
        rpc_action(method_name(m), true) == RpcAction::Answer(m),
        rpc_action(x, false) == RpcAction::Ignore,
        rpc_action(x, true) == RpcAction::Answer(m) ==> x == method_name(m),
        (x != method_name(RpcMethod::Initialize) && x != method_name(RpcMethod::Ping) && x != method_name(
            RpcMethod::ToolsList,
        ) && x != method_name(RpcMethod::ToolsCall)) ==> rpc_action(x, true) == RpcAction::NotFound,
{
    reveal_strlit("initialize");
    reveal_strlit("ping");
    reveal_strlit("tools/list");
    reveal_strlit("tools/call");
    assert("initialize"@[0] != "tools/list"@[0]);
    assert("initialize"@[0] != "tools/call"@[0]);
    assert("tools/list"@[6] != "tools/call"@[6]);
    assert("ping"@.len() != "initialize"@.len());
    assert("ping"@.len() != "tools/list"@.len());
    assert("ping"@.len() != "tools/call"@.len());
}

/// Routes a request: notifications are ignored, known methods answered,
/// anything else is not found.
pub fn route_request(method: &str, has_id: bool) -> (r: RpcAction)
    ensures
        r == rpc_action(method@, has_id),
{
    if !has_id {
        RpcAction::Ignore
    } else if str_eq(method, "initialize") {
        RpcAction::Answer(RpcMethod::Initialize)
    } else if str_eq(method, "ping") {
        RpcAction::Answer(RpcMethod::Ping)
    } else if str_eq(method, "tools/list") {
        RpcAction::Answer(RpcMethod::ToolsList)
    } else if str_eq(method, "tools/call") {
        RpcAction::Answer(RpcMethod::ToolsCall)
    } else {
        RpcAction::NotFound
    }
}

/// The action for a line: `request` is `None` when the line does not parse
/// as a JSON-RPC request, and otherwise its method and whether it has an id.
pub open spec fn line_action(request: Option<(Seq<char>, bool)>) -> RpcAction {
    match request {
        None => RpcAction::ParseError,
        Some((m, has_id)) => rpc_action(m, has_id),
    }
}

/// Routes a line: one that does not parse is a parse error, a notification is
/// ignored, a known method is answered, anything else is not found.
pub fn route_line(request: Option<(&str, bool)>) -> (r: RpcAction)
    ensures
        r == line_action(
            match request {
                None => None,
                Some((m, h)) => Some((m@, h)),
            },
        ),
{
    match request {
        None => RpcAction::ParseError,
        Some((m, h)) => route_request(m, h),
    }
}

/// The JSON-RPC error code an action answers with, if it answers with an error.
pub fn error_code(a: RpcAction) -> (r: Option<i32>)
    ensures
        r == match a {
            RpcAction::ParseError => Some(PARSE_ERROR),
            RpcAction::NotFound => Some(METHOD_NOT_FOUND),
            _ => None::<i32>,
        },
{
    match a {
        RpcAction::ParseError => Some(PARSE_ERROR),
        RpcAction::NotFound => Some(METHOD_NOT_FOUND),
        _ => None,
    }
}

fn concat2(a: &str, b: &str) -> (r: String)
    ensures
        r@ == a@ + b@,
{
    let mut s = a.to_owned();
    s.append(b);
    s
}

/// The message of a parse error.
pub fn parse_error_message(detail: &str) -> (r: String)
    ensures
        r@ == "Parse error: "@ + detail@,
{
    concat2("Parse error: ", detail)
}

/// The message of an unknown method.
pub fn method_not_found_message(method: &str) -> (r: String)
    ensures
        r@ == "Method not found: "@ + method@,
{
    concat2("Method not found: ", method)
}

// ============================================================
// Tool results
// ============================================================

/// One item of a tool's content.
#[derive(Debug)]
pub struct ContentItem {
    /// The item's type (always `text` here).
    pub type_: String,
    /// The text.
    pub text: String,
}

/// What a tool answers.
#[derive(Debug)]
pub struct ToolResult {
    /// The content items.
    pub content: Vec<ContentItem>,
    /// `Some(true)` for an error.
    pub is_error: Option<bool>,
}

/// Whether a result is the single text item `t`, marked as an error or not.
pub open spec fn says(r: ToolResult, t: Seq<char>, err: bool) -> bool {
    &&& r.content@.len() == 1
    &&& r.content@[0].type_@ == "text"@
    &&& r.content@[0].text@ == t
    &&& r.is_error == if err { Some(true) } else { None }
}

impl ToolResult {
    /// A plain text result.
    pub fn text(text: &str) -> (r: Self)
        ensures
            says(r, text@, false),
    {
        let mut content: Vec<ContentItem> = Vec::new();
        content.push(ContentItem { type_: "text".to_owned(), text: text.to_owned() });
        ToolResult { content, is_error: None }
    }

    /// An error result.
    pub fn error(text: &str) -> (r: Self)
        ensures
            says(r, text@, true),
    {
        let mut content: Vec<ContentItem> = Vec::new();
        content.push(ContentItem { type_: "text".to_owned(), text: text.to_owned() });
        ToolResult { content, is_error: Some(true) }
    }
}

/// An error result `prefix` + `detail`.
fn error_with(prefix: &str, detail: &str) -> (r: ToolResult)
    ensures
        says(r, prefix@ + detail@, true),
{
    ToolResult::error(concat2(prefix, detail).as_str())
}

/// The answer to arguments that do not parse.
pub fn bad_arguments(detail: &str) -> (r: ToolResult)
    ensures
        says(r, "参数解析失败: "@ + detail@, true),
{
    error_with("参数解析失败: ", detail)
}

/// The answer when the project could not be created.
pub fn project_failed(detail: &str) -> (r: ToolResult)
    ensures
        says(r, "创建项目失败: "@ + detail@, true),
{
    error_with("创建项目失败: ", detail)
}

/// The answer when a query failed.
pub fn query_failed(detail: &str) -> (r: ToolResult)
    ensures
        says(r, "查询失败: "@ + detail@, true),
{
    error_with("查询失败: ", detail)
}

/// The answer to a store write: its message on success, the store error otherwise.
pub fn store_result(result: Result<String, String>) -> (r: ToolResult)
    ensures
        match result {
            Ok(m) => says(r, m@, false),
            Err(e) => says(r, "存储错误: "@ + e@, true),
        },
{
    match result {
        Ok(m) => ToolResult::text(m.as_str()),
        Err(e) => error_with("存储错误: ", e.as_str()),
    }
}

// ============================================================
// Tools
// ============================================================

/// The tools.
#[derive(Debug, Clone, Copy, PartialEq, Eq, Structural)]
pub enum Tool {
    AddCharacter,
    ListCharacters,
    AddRelationship,
    SearchGraph,
}

/// The tool a name calls.
pub open spec fn tool_of_name(name: Seq<char>) -> Option<Tool> {
    if name == "add_character"@ {
        Some(Tool::AddCharacter)
    } else if name == "list_characters"@ {
        Some(Tool::ListCharacters)
    } else if name == "add_relationship"@ {
        Some(Tool::AddRelationship)
    } else if name == "search_graph"@ {
        Some(Tool::SearchGraph)
    } else {
        None
    }
}

/// The name a tool is called by.
pub open spec fn tool_name(t: Tool) -> Seq<char> {
    match t {
        Tool::AddCharacter => "add_character"@,
        Tool::ListCharacters => "list_characters"@,
        Tool::AddRelationship => "add_relationship"@,
        Tool::SearchGraph => "search_graph"@,
    }
}

/// A call names a tool exactly when it gives that tool's name.
pub proof fn lemma_tool_names(t: Tool, x: Seq<char>)
    ensures
        tool_of_name(tool_name(t)) == Some(t),
        tool_of_name(x) == Some(t) ==> x == tool_name(t),
        (x != tool_name(Tool::AddCharacter) && x != tool_name(Tool::ListCharacters) && x != tool_name(
            Tool::AddRelationship,
        ) && x != tool_name(Tool::SearchGraph)) ==> tool_of_name(x) is None,
{
    reveal_strlit("add_character");
    reveal_strlit("list_characters");
    reveal_strlit("add_relationship");
    reveal_strlit("search_graph");
    assert("add_character"@.len() != "list_characters"@.len());
    assert("add_character"@.len() != "add_relationship"@.len());
    assert("add_character"@.len() != "search_graph"@.len());
    assert("list_characters"@.len() != "add_relationship"@.len());
    assert("list_characters"@.len() != "search_graph"@.len());
    assert("add_relationship"@.len() != "search_graph"@.len());
}

/// The tool a name calls.
pub fn tool_by_name(name: &str) -> (r: Option<Tool>)
    ensures
        r == tool_of_name(name@),
{
    if str_eq(name, "add_character") {
        Some(Tool::AddCharacter)
    } else if str_eq(name, "list_characters") {
        Some(Tool::ListCharacters)
    } else if str_eq(name, "add_relationship") {
        Some(Tool::AddRelationship)
    } else if str_eq(name, "search_graph") {
        Some(Tool::SearchGraph)
    } else {
        None
    }
}

/// The answer to a call of an unknown tool.
pub fn unknown_tool(name: &str) -> (r: ToolResult)
    ensures
        says(r, "未知工具: "@ + name@, true),
{
    error_with("未知工具: ", name)
}

/// A tool's description for `tools/list`.
pub struct ToolDef {
    /// The tool's name.
    pub name: &'static str,
    /// What it does.
    pub description: &'static str,
    /// The JSON schema of its arguments, as JSON text.
    pub input_schema: &'static str,
}

/// The tools, in the order `tools/list` gives them.  The schema of
/// `add_relationship` offers the relation names `relationship_type_options`,
/// and that of `search_graph` the labels `search_label_options`; their
/// lemmas show that each offered value is accepted.
pub fn all_tools() -> (r: Vec<ToolDef>)
    ensures
        r@.len() == 4,
        r@[0].name@ == "add_character"@,
        r@[1].name@ == "list_characters"@,
        r@[2].name@ == "add_relationship"@,
        r@[3].name@ == "search_graph"@,
        r@[0].description@ == "添加角色到知识图谱"@,
        r@[1].description@ == "列出项目中的所有角色"@,
        r@[2].description@ == "添加两个角色之间的关系"@,
        r@[3].description@ == "按标签搜索知识图谱中的节点"@,
        r@[0].input_schema@ == "{\"type\":\"object\",\"properties\":{\"project\":{\"type\":\"string\",\"description\":\"项目名\"},\"name\":{\"type\":\"string\",\"description\":\"角色名\"},\"traits\":{\"type\":\"string\",\"description\":\"角色特征\"}},\"required\":[\"project\",\"name\"]}"@,
        r@[1].input_schema@ == "{\"type\":\"object\",\"properties\":{\"project\":{\"type\":\"string\",\"description\":\"项目名\"}},\"required\":[\"project\"]}"@,
        r@[2].input_schema@ == "{\"type\":\"object\",\"properties\":{\"project\":{\"type\":\"string\"},\"character_a\":{\"type\":\"string\",\"description\":\"角色A的名字\"},\"character_b\":{\"type\":\"string\",\"description\":\"角色B的名字\"},\"relationship_type\":{\"type\":\"string\",\"enum\":[\"knows\",\"located_in\",\"appears_in\",\"leads_to\",\"part_of\",\"happens_at\",\"mentions\",\"related_to\"],\"description\":\"关系类型\"}},\"required\":[\"project\",\"character_a\",\"character_b\",\"relationship_type\"]}"@,
        r@[3].input_schema@ == "{\"type\":\"object\",\"properties\":{\"project\":{\"type\":\"string\"},\"label\":{\"type\":\"string\",\"enum\":[\"character\",\"location\",\"scene\",\"chapter\",\"plotline\",\"timeline\",\"item\",\"note\"],\"description\":\"节点标签\"}},\"required\":[\"project\",\"label\"]}"@,
{
    let mut v: Vec<ToolDef> = Vec::new();
    v.push(
        ToolDef {
            name: "add_character",
            description: "添加角色到知识图谱",
            input_schema: "{\"type\":\"object\",\"properties\":{\"project\":{\"type\":\"string\",\"description\":\"项目名\"},\"name\":{\"type\":\"string\",\"description\":\"角色名\"},\"traits\":{\"type\":\"string\",\"description\":\"角色特征\"}},\"required\":[\"project\",\"name\"]}",
        },
    );
    v.push(
        ToolDef {
            name: "list_characters",
            description: "列出项目中的所有角色",
            input_schema: "{\"type\":\"object\",\"properties\":{\"project\":{\"type\":\"string\",\"description\":\"项目名\"}},\"required\":[\"project\"]}",
        },
    );
    v.push(
        ToolDef {
            name: "add_relationship",
            description: "添加两个角色之间的关系",
            input_schema: "{\"type\":\"object\",\"properties\":{\"project\":{\"type\":\"string\"},\"character_a\":{\"type\":\"string\",\"description\":\"角色A的名字\"},\"character_b\":{\"type\":\"string\",\"description\":\"角色B的名字\"},\"relationship_type\":{\"type\":\"string\",\"enum\":[\"knows\",\"located_in\",\"appears_in\",\"leads_to\",\"part_of\",\"happens_at\",\"mentions\",\"related_to\"],\"description\":\"关系类型\"}},\"required\":[\"project\",\"character_a\",\"character_b\",\"relationship_type\"]}",
        },
    );
    v.push(
        ToolDef {
            name: "search_graph",
            description: "按标签搜索知识图谱中的节点",
            input_schema: "{\"type\":\"object\",\"properties\":{\"project\":{\"type\":\"string\"},\"label\":{\"type\":\"string\",\"enum\":[\"character\",\"location\",\"scene\",\"chapter\",\"plotline\",\"timeline\",\"item\",\"note\"],\"description\":\"节点标签\"}},\"required\":[\"project\",\"label\"]}",
        },
    );
    v
}

// ============================================================
// add_character
// ============================================================

/// The node of a character added by hand: qualified `project.name`, with
/// the `traits` property when traits are given.
pub open spec fn added_character_view(project: Seq<char>, name: Seq<char>, traits: Option<Seq<char>>) -> NodeView {
    let n = new_node_view(project, NodeLabel::Character, name, project + "."@ + name);
    match traits {
        Some(t) => NodeView { properties: n.properties.insert("traits"@, PropValueView::Str(t)), ..n },
        None => n,
    }
}

/// The node of a character added by hand.
pub fn added_character(project: &str, name: &str, traits: Option<&str>) -> (r: Node)
    ensures
        r@ == added_character_view(
            project@,
            name@,
            match traits {
                Some(t) => Some(t@),
                None => None,
            },
        ),
{
    let mut qn = project.to_owned();
    qn.append(".");
    qn.append(name);
    let mut node = Node::new(project, NodeLabel::Character, name, qn.as_str());
    match traits {
        Some(t) => {
            node.properties.insert("traits", PropValue::Str(t.to_owned()));
        },
        None => {},
    }
    node
}

/// The message of an added character.
pub fn character_added_message(name: &str, id: i64) -> (r: String)
    ensures
        r@ == "角色 '"@ + name@ + "' 已添加 (ID: "@ + int_text(id as int) + ")"@,
{
    let mut s = "角色 '".to_owned();
    s.append(name);
    s.append("' 已添加 (ID: ");
    s.append(i64_text(id).as_str());
    s.append(")");
    s
}

// ============================================================
// Node lists
// ============================================================

/// One line per node: `  - name (ID: id)`, each ending in a newline.
pub open spec fn node_lines(ns: Seq<NodeView>) -> Seq<char>
    decreases ns.len(),
{
    if ns.len() == 0 {
        Seq::empty()
    } else {
        node_lines(ns.drop_last()) + "  - "@ + ns.last().name + " (ID: "@ + int_text(ns.last().id as int)
            + ")\n"@
    }
}

/// The lines of a list of nodes are the lines of its parts, in order; the
/// line of one node is `  - name (ID: id)` and a newline.
#[verifier::rlimit(40)]
pub proof fn lemma_node_lines_concat(a: Seq<NodeView>, b: Seq<NodeView>)
    ensures
        node_lines(a + b) == node_lines(a) + node_lines(b),
    decreases b.len(),
{
    if b.len() == 0 {
        assert(a + b =~= a);
        assert(node_lines(a) + Seq::<char>::empty() =~= node_lines(a));
    } else {
        lemma_node_lines_concat(a, b.drop_last());
        assert((a + b).drop_last() =~= a + b.drop_last());
        assert((a + b).last() == b.last());
        assert(node_lines(a + b) =~= node_lines(a) + node_lines(b));
    }
}

/// The line of one node.
pub proof fn lemma_node_lines_one(n: NodeView)
    ensures
        node_lines(seq![n]) == "  - "@ + n.name + " (ID: "@ + int_text(n.id as int) + ")\n"@,
{
    assert(seq![n].drop_last() =~= Seq::<NodeView>::empty());
    assert(seq![n].last() == n);
    assert(node_lines(Seq::<NodeView>::empty()) == Seq::<char>::empty());
    assert(node_lines(seq![n]) =~= "  - "@ + n.name + " (ID: "@ + int_text(n.id as int) + ")\n"@);
}

/// The lines of a list of nodes.
pub fn node_lines_text(nodes: &Vec<Node>) -> (r: String)
    ensures
        r@ == node_lines(seq_views(nodes@)),
{
    let ghost ns = seq_views(nodes@);
    let mut s = String::new();
    let mut i: usize = 0;
    while i < nodes.len()
        invariant
            i <= nodes.len(),
            ns == seq_views(nodes@),
            s@ == node_lines(ns.take(i as int)),
        decreases nodes.len() - i,
    {
        assert(ns.take(i + 1).drop_last() =~= ns.take(i as int));
        s.append("  - ");
        s.append(nodes[i].name.as_str());
        s.append(" (ID: ");
        s.append(i64_text(nodes[i].id).as_str());
        s.append(")\n");
        i = i + 1;
    }
    assert(ns.take(nodes.len() as int) =~= ns);
    s
}

/// The answer to `list_characters`.
pub open spec fn character_list_text(project: Seq<char>, ns: Seq<NodeView>) -> Seq<char> {
    if ns.len() == 0 {
        "项目 '"@ + project + "' 中没有角色"@
    } else {
        "📋 角色列表（项目: "@ + project + "）:\n"@ + node_lines(ns) + "共 "@ + int_text(ns.len() as int)
            + " 个角色"@
    }
}

/// The answer to `list_characters` for the characters found.
pub fn character_list(project: &str, characters: &Vec<Node>) -> (r: ToolResult)
    ensures
        says(r, character_list_text(project@, seq_views(characters@)), false),
{
    if characters.len() == 0 {
        let mut s = "项目 '".to_owned();
        s.append(project);
        s.append("' 中没有角色");
        ToolResult::text(s.as_str())
    } else {
        let mut s = "📋 角色列表（项目: ".to_owned();
        s.append(project);
        s.append("）:\n");
        s.append(node_lines_text(characters).as_str());
        s.append("共 ");
        s.append(u64_text(characters.len() as u64).as_str());
        s.append(" 个角色");
        ToolResult::text(s.as_str())
    }
}

/// The answer to `search_graph`.
pub open spec fn search_result_text(label: Seq<char>, ns: Seq<NodeView>) -> Seq<char> {
    if ns.len() == 0 {
        "没有找到 ["@ + label + "] 类型的节点"@
    } else {
        "📋 找到 "@ + int_text(ns.len() as int) + " 个 ["@ + label + "] 节点:\n"@ + node_lines(ns)
    }
}

/// The answer to `search_graph` for the nodes found under the label as it was given.
pub fn search_result(label: &str, nodes: &Vec<Node>) -> (r: ToolResult)
    ensures
        says(r, search_result_text(label@, seq_views(nodes@)), false),
{
    if nodes.len() == 0 {
        let mut s = "没有找到 [".to_owned();
        s.append(label);
        s.append("] 类型的节点");
        ToolResult::text(s.as_str())
    } else {
        let mut s = "📋 找到 ".to_owned();
        s.append(u64_text(nodes.len() as u64).as_str());
        s.append(" 个 [");
        s.append(label);
        s.append("] 节点:\n");
        s.append(node_lines_text(nodes).as_str());
        ToolResult::text(s.as_str())
    }
}

/// The label a `search_graph` call names, or the answer to an unknown label.
pub fn search_label(label: &str) -> (r: Result<NodeLabel, ToolResult>)
    ensures
        match crate::models::label_of_str(label@) {
            Some(l) => r == Ok::<NodeLabel, ToolResult>(l),
            None => r matches Err(e) && says(e, "未知标签: "@ + label@, true),
        },
{
    match NodeLabel::from_str(label) {
        Some(l) => Ok(l),
        None => Err(error_with("未知标签: ", label)),
    }
}

// ============================================================
// add_relationship
// ============================================================

/// The id of a character looked up by qualified name, or the answer when
/// it is missing or the query failed.
pub fn found_character(name: &str, lookup: Result<Option<i64>, String>) -> (r: Result<i64, ToolResult>)
    ensures
        match lookup {
            Ok(Some(id)) => r == Ok::<i64, ToolResult>(id),
            Ok(None) => r matches Err(e) && says(e, "未找到角色: "@ + name@, true),
            Err(d) => r matches Err(e) && says(e, "查询失败: "@ + d@, true),
        },
{
    match lookup {
        Ok(Some(id)) => Ok(id),
        Ok(None) => Err(error_with("未找到角色: ", name)),
        Err(d) => Err(error_with("查询失败: ", d.as_str())),
    }
}

/// The edge between two characters, or the answer to an unknown relation.
pub fn relationship_edge(project: &str, a: i64, b: i64, relationship_type: &str) -> (r: Result<Edge, ToolResult>)
    ensures
        match edge_type_of_str(relationship_type@) {
            Some(t) => r matches Ok(e) && e@ == new_edge_view(project@, a, b, t),
            None => r matches Err(e) && says(e, "未知关系类型: "@ + relationship_type@, true),
        },
{
    match EdgeType::from_str(relationship_type) {
        Some(t) => Ok(Edge::new(project, a, b, t)),
        None => Err(error_with("未知关系类型: ", relationship_type)),
    }
}

/// The message of an added relationship, given the relation as it is shown.
pub fn relationship_added_message(id: i64, a: &str, relation: &str, b: &str) -> (r: String)
    ensures
        r@ == "关系已添加 (ID: "@ + int_text(id as int) + ") — "@ + a@ + " --["@ + relation@ + "]--> "@
            + b@,
{
    let mut s = "关系已添加 (ID: ".to_owned();
    s.append(i64_text(id).as_str());
    s.append(") — ");
    s.append(a);
    s.append(" --[");
    s.append(relation);
    s.append("]--> ");
    s.append(b);
    s
}

/// The message of an added relationship, the relation upper-cased as given.
pub fn relationship_added(id: i64, a: &str, relationship_type: &str, b: &str) -> (r: String)
    ensures
        r@ == "关系已添加 (ID: "@ + int_text(id as int) + ") — "@ + a@ + " --["@ + uppercase(
            relationship_type@,
        ) + "]--> "@ + b@,
{
    let upper = to_upper(relationship_type);
    relationship_added_message(id, a, upper.as_str(), b)
}

} // verus!
