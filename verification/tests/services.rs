use novelbase_memory_mcp::cli::{
    character_added_line, character_listing_text, config_message, db_path_for, imported_message,
    keep_label, project_or_default, relationship_added_line, relationship_to_add, search_plan,
    search_report_text,
    use_full_text, ConfigAction, SearchPlan,
};
use novelbase_memory_mcp::mcp::{
    all_tools, bad_arguments, character_added_message, character_list, found_character,
    method_not_found_message, parse_error_message, relationship_added, relationship_edge,
    route_request, route_line, error_code, PARSE_ERROR, METHOD_NOT_FOUND, search_label, search_result, store_result, tool_by_name, unknown_tool,
    added_character, RpcAction, RpcMethod, Tool, ToolResult,
};
use novelbase_memory_mcp::models::{EdgeType, Node, NodeLabel, PropValue};
use novelbase_memory_mcp::text::{i64_text, u64_text};
use novelbase_memory_mcp::ui::{graph_links, graph_nodes, graph_view_labels, node_group, UIServer};
use novelbase_memory_mcp::models::Edge;

fn text_of(r: &ToolResult) -> &str {
    assert_eq!(r.content.len(), 1);
    assert_eq!(r.content[0].type_, "text");
    r.content[0].text.as_str()
}

#[test]
fn decimal_texts() {
    assert_eq!(u64_text(0), "0");
    assert_eq!(u64_text(120), "120");
    assert_eq!(u64_text(u64::MAX), "18446744073709551615");
    assert_eq!(i64_text(-5), "-5");
    assert_eq!(i64_text(i64::MIN), "-9223372036854775808");
    assert_eq!(i64_text(42), "42");
}

#[test]
fn requests_are_routed() {
    assert_eq!(route_request("initialize", true), RpcAction::Answer(RpcMethod::Initialize));
    assert_eq!(route_request("ping", true), RpcAction::Answer(RpcMethod::Ping));
    assert_eq!(route_request("tools/list", true), RpcAction::Answer(RpcMethod::ToolsList));
    assert_eq!(route_request("tools/call", true), RpcAction::Answer(RpcMethod::ToolsCall));
    assert_eq!(route_request("nope", true), RpcAction::NotFound);
    assert_eq!(route_request("notifications/initialized", false), RpcAction::Ignore);
    assert_eq!(route_request("ping", false), RpcAction::Ignore);
    assert_eq!(method_not_found_message("nope"), "Method not found: nope");
    assert_eq!(parse_error_message("eof"), "Parse error: eof");
}

#[test]
fn tool_results() {
    let t = ToolResult::text("好");
    assert_eq!(text_of(&t), "好");
    assert_eq!(t.is_error, None);
    let e = ToolResult::error("坏");
    assert_eq!(text_of(&e), "坏");
    assert_eq!(e.is_error, Some(true));
    assert_eq!(text_of(&bad_arguments("x")), "参数解析失败: x");
    let s = store_result(Err("disk".to_string()));
    assert_eq!(text_of(&s), "存储错误: disk");
    assert_eq!(s.is_error, Some(true));
    assert_eq!(text_of(&store_result(Ok("done".to_string()))), "done");
}

#[test]
fn tools_by_name() {
    assert_eq!(tool_by_name("add_character"), Some(Tool::AddCharacter));
    assert_eq!(tool_by_name("list_characters"), Some(Tool::ListCharacters));
    assert_eq!(tool_by_name("add_relationship"), Some(Tool::AddRelationship));
    assert_eq!(tool_by_name("search_graph"), Some(Tool::SearchGraph));
    assert_eq!(tool_by_name("x"), None);
    assert_eq!(text_of(&unknown_tool("x")), "未知工具: x");
    let tools = all_tools();
    let names: Vec<&str> = tools.iter().map(|t| t.name).collect();
    assert_eq!(names, vec!["add_character", "list_characters", "add_relationship", "search_graph"]);
    for t in &tools {
        assert!(serde_json::from_str::<serde_json::Value>(t.input_schema).is_ok());
    }
}

#[test]
fn add_character_tool() {
    let n = added_character("p", "张三", Some("勇敢"));
    assert_eq!(n.qualified_name, "p.张三");
    assert_eq!(n.properties.get_str("traits"), Some("勇敢"));
    assert_eq!(added_character("p", "李四", None).properties.get("traits"), None);
    assert_eq!(character_added_message("张三", 7), "角色 '张三' 已添加 (ID: 7)");
}

#[test]
fn list_and_search_tools() {
    let mut a = Node::new("p", NodeLabel::Character, "甲", "p.甲");
    a.id = 3;
    let mut b = Node::new("p", NodeLabel::Character, "乙", "p.乙");
    b.id = 12;
    let r = character_list("p", &vec![a.duplicate(), b.duplicate()]);
    assert_eq!(text_of(&r), "📋 角色列表（项目: p）:\n  - 甲 (ID: 3)\n  - 乙 (ID: 12)\n共 2 个角色");
    assert_eq!(text_of(&character_list("p", &vec![])), "项目 'p' 中没有角色");
    let s = search_result("character", &vec![a]);
    assert_eq!(text_of(&s), "📋 找到 1 个 [character] 节点:\n  - 甲 (ID: 3)\n");
    assert_eq!(text_of(&search_result("item", &vec![])), "没有找到 [item] 类型的节点");
    assert_eq!(search_label("location").ok(), Some(NodeLabel::Location));
    assert_eq!(text_of(&search_label("x").err().unwrap()), "未知标签: x");
}

#[test]
fn add_relationship_tool() {
    assert_eq!(found_character("甲", Ok(Some(4))).ok(), Some(4));
    assert_eq!(text_of(&found_character("甲", Ok(None)).err().unwrap()), "未找到角色: 甲");
    assert_eq!(text_of(&found_character("甲", Err("io".to_string())).err().unwrap()), "查询失败: io");
    let e = relationship_edge("p", 1, 2, "knows").ok().unwrap();
    assert_eq!((e.source_id, e.target_id, e.edge_type), (1, 2, EdgeType::Knows));
    assert_eq!(text_of(&relationship_edge("p", 1, 2, "hates").err().unwrap()), "未知关系类型: hates");
    assert_eq!(relationship_added(9, "甲", "knows", "乙"), "关系已添加 (ID: 9) — 甲 --[KNOWS]--> 乙");
    assert_eq!(relationship_added(9, "甲", "LocatedIn", "乙"), "关系已添加 (ID: 9) — 甲 --[LOCATEDIN]--> 乙");
}

#[test]
fn cli_texts() {
    assert_eq!(project_or_default(None), "default");
    assert_eq!(project_or_default(Some("x")), "x");
    assert_eq!(db_path_for(Some("a/b//")), "a/b/novelbase.db");
    assert_eq!(db_path_for(Some("a")), "a/novelbase.db");
    assert_eq!(db_path_for(None), "novelbase.db");
    assert_eq!(config_message(&Some(ConfigAction::List)), "配置列表（暂未实现）");
    assert_eq!(config_message(&Some(ConfigAction::Get { key: "k".to_string() })), "获取配置: k（暂未实现）");
    assert_eq!(
        config_message(&Some(ConfigAction::SetValue { key: "k".to_string(), value: "v".to_string() })),
        "设置配置: k = v（暂未实现）"
    );
    assert_eq!(config_message(&None), "运行 `novelbase-memory-mcp config --help` 查看配置用法");
    assert_eq!(character_added_line("张三", 5), "✅ 角色 '张三' 已添加，ID: 5");
    assert_eq!(
        relationship_added_line(6, "甲", EdgeType::LeadsTo, "乙"),
        "✅ 关系已添加 (ID: 6) — 甲 --[LEADS_TO]--> 乙"
    );
    assert_eq!(imported_message("红楼", 3, 2), "✅ 导入完成: 项目 '红楼'，3 个节点，2 条边");
    let mut a = Node::new("p", NodeLabel::Character, "甲", "p.甲");
    a.id = 1;
    assert_eq!(character_listing_text("p", &vec![a]), "📋 角色列表（项目: p）:\n  - 甲 (ID: 1)\n共 1 个角色");
    assert_eq!(character_listing_text("p", &vec![]), "📋 角色列表（项目: p）:\n共 0 个角色");
}

#[test]
fn search_plans() {
    assert!(matches!(search_plan(Some("宝"), None),
        SearchPlan::ByQuery { ref query, label: None } if query == "宝"));
    assert!(matches!(search_plan(None, Some("location")), SearchPlan::ByLabel(NodeLabel::Location)));
    assert!(matches!(search_plan(None, Some("x")), SearchPlan::Message(ref m) if m == "未知标签: x"));
    assert!(matches!(search_plan(None, None), SearchPlan::Message(ref m) if m == "请指定搜索关键词或 --label"));
    let ok: Result<Vec<Node>, String> = Ok(vec![]);
    assert!(!use_full_text(&ok));
    let err: Result<Vec<Node>, String> = Err("e".to_string());
    assert!(!use_full_text(&err));
    let found: Result<Vec<Node>, String> = Ok(vec![Node::new("p", NodeLabel::Item, "剑", "p.剑")]);
    assert!(use_full_text(&found));
}

#[test]
fn search_filtering_and_report() {
    let mut a = Node::new("p", NodeLabel::Character, "甲", "p.甲").with_file("c.md");
    a.id = 1;
    let mut b = Node::new("p", NodeLabel::Location, "乙", "p.乙");
    b.id = 2;
    let kept = keep_label(vec![a.duplicate(), b.duplicate()], "location").ok().unwrap();
    assert_eq!(kept.len(), 1);
    assert_eq!(kept[0].name, "乙");
    assert_eq!(
        keep_label(vec![], "x").err().unwrap(),
        "未知标签: x，可用: character/location/scene/chapter/plotline/timeline/item/note/project/file"
    );
    assert_eq!(
        search_report_text(&vec![a, b]),
        "📋 找到 2 个节点:\n  - [角色] 甲 (ID: 1, 文件: c.md)\n  - [地点] 乙 (ID: 2, 文件: -)"
    );
    assert_eq!(search_report_text(&vec![]), "没有找到匹配的节点");
}

#[test]
fn ui_data() {
    let s = UIServer::new("x.db");
    assert_eq!(s.db_path(), "x.db");
    assert_eq!(node_group(NodeLabel::Character), "character");
    assert_eq!(node_group(NodeLabel::Timeline), "note");
    assert_eq!(graph_view_labels(), vec![
        NodeLabel::Character, NodeLabel::Location, NodeLabel::File,
        NodeLabel::Scene, NodeLabel::Item, NodeLabel::Note,
    ]);
    let mut n = Node::new("p", NodeLabel::Scene, "开端", "p.开端");
    n.id = 4;
    n.properties.insert("k", PropValue::Int(1));
    let g = graph_nodes(&vec![n]);
    assert_eq!((g[0].id, g[0].label.as_str(), g[0].group.as_str()), (4, "Scene", "scene"));
    assert_eq!(g[0].props, "{\"k\":1}");
    let l = graph_links(&vec![Edge::new("p", 1, 2, EdgeType::PartOf)]);
    assert_eq!((l[0].source, l[0].target, l[0].edge_type.as_str()), (1, 2, "PART_OF"));
}

#[test]
fn lines_are_routed() {
    assert_eq!(route_line(None), RpcAction::ParseError);
    assert_eq!(route_line(Some(("initialize", true))), RpcAction::Answer(RpcMethod::Initialize));
    assert_eq!(route_line(Some(("ping", false))), RpcAction::Ignore);
    assert_eq!(route_line(Some(("x", true))), RpcAction::NotFound);
    assert_eq!(error_code(RpcAction::ParseError), Some(PARSE_ERROR));
    assert_eq!(error_code(RpcAction::NotFound), Some(METHOD_NOT_FOUND));
    assert_eq!(error_code(RpcAction::Ignore), None);
    assert_eq!((PARSE_ERROR, METHOD_NOT_FOUND), (-32700, -32601));
}

#[test]
fn relationship_decisions() {
    let e = relationship_to_add("p", "甲", Some(1), "乙", Some(2), "leads_to").ok().unwrap();
    assert_eq!((e.source_id, e.target_id, e.edge_type), (1, 2, EdgeType::LeadsTo));
    assert_eq!(relationship_to_add("p", "甲", None, "乙", None, "x").err().unwrap(), "未找到角色: 甲");
    assert_eq!(relationship_to_add("p", "甲", Some(1), "乙", None, "x").err().unwrap(), "未找到角色: 乙");
    assert_eq!(relationship_to_add("p", "甲", Some(1), "乙", Some(2), "x").err().unwrap(), "未知关系类型: x");
}
