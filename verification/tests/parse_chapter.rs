use novelbase_memory_mcp::models::{EdgeType, Node, NodeLabel};
use novelbase_memory_mcp::pipeline::graph_buf::GraphBuffer;
use novelbase_memory_mcp::pipeline::passes::parse_chapter::{ParseChapterPass, ParsedFile, RelationshipInfo};

#[test]
fn test_extract_chars_simple() {
    let content = "\
# 第一章
## 角色
- 张三
- 李四
";
    let chars = ParseChapterPass::extract_chars(content);
    assert_eq!(chars.len(), 2);
    assert_eq!(chars[0].name, "张三");
    assert_eq!(chars[1].name, "李四");
}

#[test]
fn test_extract_chars_with_traits() {
    let content = "\
## 角色
- 张三：剑客，性格勇敢
- 李四：书生
";
    let chars = ParseChapterPass::extract_chars(content);
    assert_eq!(chars.len(), 2);
    assert_eq!(chars[0].name, "张三");
    assert_eq!(chars[0].traits, "剑客，性格勇敢");
}

#[test]
fn test_extract_chars_with_alias() {
    let content = "\
## 角色
- 林黛玉：颦儿、潇湘妃子（小姐，多愁善感，结局：泪尽而逝）
";
    let chars = ParseChapterPass::extract_chars(content);
    assert_eq!(chars.len(), 1);
    assert_eq!(chars[0].name, "林黛玉");
    assert_eq!(chars[0].aliases, "颦儿、潇湘妃子");
    assert_eq!(chars[0].identity, "小姐");
    assert_eq!(chars[0].personality, "多愁善感");
    assert_eq!(chars[0].fate, "泪尽而逝");
}

#[test]
fn test_extract_locations() {
    let content = "\
## 地点
- 大观园：贾府园林
- 潇湘馆
";
    let locs = ParseChapterPass::extract_locations(content);
    assert_eq!(locs.len(), 2);
    assert_eq!(locs[0].name, "大观园");
    assert_eq!(locs[0].description, "贾府园林");
    assert_eq!(locs[1].name, "潇湘馆");
}

#[test]
fn test_extract_locations_stops_at_next_header() {
    let content = "\
## 地点
- 大观园
## 角色
- 张三
";
    let locs = ParseChapterPass::extract_locations(content);
    assert_eq!(locs.len(), 1);
}

#[test]
fn test_extract_relationships() {
    let content = "\
## 关系
- 贾宝玉 → 林黛玉：表兄妹
- 张三 -> 李四
";
    let rels = ParseChapterPass::extract_relationships(content);
    assert_eq!(rels.len(), 2);
    assert_eq!(rels[0].from, "贾宝玉");
    assert_eq!(rels[0].to, "林黛玉");
    assert_eq!(rels[0].description, "表兄妹");
    assert_eq!(rels[1].from, "张三");
    assert_eq!(rels[1].to, "李四");
}

#[test]
fn test_extract_char_with_full_fields() {
    let content = "\
## 角色
- test：别名A、别名B（身份，性格，外貌：英俊，动机：求知，心理：平静，结局：善终）
";
    let chars = ParseChapterPass::extract_chars(content);
    assert_eq!(chars.len(), 1);
    assert_eq!(chars[0].name, "test");
    assert_eq!(chars[0].aliases, "别名A、别名B");
    assert_eq!(chars[0].identity, "身份");
    assert_eq!(chars[0].personality, "性格");
    assert_eq!(chars[0].appearance, "英俊");
    assert_eq!(chars[0].motivation, "求知");
    assert_eq!(chars[0].psychology, "平静");
    assert_eq!(chars[0].fate, "善终");
}

#[test]
fn test_extract_plot_phases() {
    let content = "\
## 情节脉络
- 开端：1-5回，人物出场
- 发展：6-80回，矛盾积累
- 高潮：81-100回，家族衰败
- 结局：101-120回，宝玉出家
";
    let phases = ParseChapterPass::extract_plot_phases(content);
    assert_eq!(phases.len(), 4);
    assert_eq!(phases[0].phase, "开端");
    assert_eq!(phases[0].chapters, "1-5回");
    assert_eq!(phases[0].description, "人物出场");
    assert_eq!(phases[3].phase, "结局");
}

#[test]
fn test_extract_conflicts() {
    let content = "\
## 冲突
- 宝玉 vs 父亲 → 仕途与自由的矛盾
- 黛玉 vs 宝钗：爱情竞争
";
    let conflicts = ParseChapterPass::extract_conflicts(content);
    assert_eq!(conflicts.len(), 2);
    assert_eq!(conflicts[0].parties, "宝玉 vs 父亲");
    assert_eq!(conflicts[0].nature, "仕途与自由的矛盾");
    assert_eq!(conflicts[1].parties, "黛玉 vs 宝钗");
}

#[test]
fn test_extract_environment() {
    let content = "\
## 环境
- 时代：清朝
- 社会：封建家族
- 风俗：元宵节
- 文化：诗词
";
    let env = ParseChapterPass::extract_environment(content).unwrap();
    assert_eq!(env.era, "清朝");
    assert_eq!(env.society, "封建家族");
    assert_eq!(env.customs, "元宵节");
    assert_eq!(env.culture, "诗词");
}

#[test]
fn no_section_no_items() {
    let content = "# 第一章\n正文\n";
    assert!(ParseChapterPass::extract_chars(content).is_empty());
    assert!(ParseChapterPass::extract_environment(content).is_none());
    assert!(ParseChapterPass::extract_foreshadows(content).is_empty());
    assert!(ParseChapterPass::extract_twists(content).is_empty());
}

#[test]
fn alternative_headers_are_read() {
    let content = "## 人物\n- 甲\n## 场所\n- 乙\n";
    assert_eq!(ParseChapterPass::extract_chars(content).len(), 1);
    assert_eq!(ParseChapterPass::extract_locations(content)[0].name, "乙");
}

const CHAPTER: &str = "\
# 第一回
## 角色
- 贾宝玉：宝二爷（公子，多情）
- 林黛玉
## 地点
- 大观园：园林
## 关系
- 贾宝玉 → 林黛玉：LOCATED_IN
- 贾宝玉 -> 薛宝钗
## 冲突
- 宝玉 vs 父亲 → 仕途
## 环境
- 时代：清朝
## 伏笔
- 金锁 → 婚姻：暗示
## 反转
- 团圆 → 离散：命运
";

fn graph_with_file() -> (GraphBuffer, i64) {
    let mut g = GraphBuffer::new("红楼");
    let id = g.upsert_node(
        Node::new("红楼", NodeLabel::File, "ch1.md", "红楼.ch1.md").with_file("ch1.md"),
    );
    (g, id)
}

#[test]
fn merging_a_chapter_builds_the_graph() {
    let (mut g, file_id) = graph_with_file();
    let parsed = ParsedFile::from_content(file_id, "ch1.md", CHAPTER);
    assert!(g.has_room_for(parsed.merge_cost()));
    let counts = ParseChapterPass::merge_parsed(&mut g, "红楼", &parsed);
    assert_eq!(counts.characters, 2);
    assert_eq!(counts.locations, 1);
    // only the relationship whose two characters exist becomes an edge
    assert_eq!(counts.relationships, 1);

    let bao = g.find_by_qn("红楼.贾宝玉").unwrap();
    assert_eq!(bao.label, NodeLabel::Character);
    assert_eq!(bao.properties.get_str("aliases"), Some("宝二爷"));
    assert_eq!(bao.properties.get_str("identity"), Some("公子"));
    assert_eq!(bao.properties.get_str("fate"), None);
    let bao_id = bao.id;
    let dai_id = g.find_by_qn("红楼.林黛玉").unwrap().id;

    let edges = g.edge_list();
    // chapter relationships are `knows`, with the text after the colon as description
    assert!(edges.iter().any(|e| e.source_id == bao_id && e.target_id == dai_id
        && e.edge_type == EdgeType::Knows
        && e.properties.get_str("description") == Some("LOCATED_IN")));
    assert!(edges.iter().any(|e| e.source_id == bao_id && e.target_id == file_id
        && e.edge_type == EdgeType::AppearsIn));

    let env = g.find_by_qn("红楼.环境设定").unwrap();
    assert_eq!(env.properties.get_str("era"), Some("清朝"));
    let conflict = g.find_by_qn("红楼.冲突.宝玉 vs 父亲").unwrap();
    assert_eq!(conflict.properties.get_str("type"), Some("conflict"));
    let src = g.find_by_qn("红楼.伏笔.金锁").unwrap().id;
    let tgt = g.find_by_qn("红楼.伏笔.婚姻").unwrap().id;
    assert!(edges.iter().any(|e| e.source_id == src && e.target_id == tgt
        && e.edge_type == EdgeType::Foreshadows
        && e.properties.get_str("description") == Some("暗示")));
    let twist = g.find_by_qn("红楼.反转.团圆").unwrap();
    assert_eq!(twist.properties.get_str("reality"), Some("离散：命运"));
}

#[test]
fn merging_twice_changes_nothing() {
    let (mut g, file_id) = graph_with_file();
    let parsed = ParsedFile::from_content(file_id, "ch1.md", CHAPTER);
    ParseChapterPass::merge_parsed(&mut g, "红楼", &parsed);
    let (n, e) = (g.node_count(), g.edge_count());
    ParseChapterPass::merge_parsed(&mut g, "红楼", &parsed);
    assert_eq!((g.node_count(), g.edge_count()), (n, e));
}

#[test]
fn unknown_relations_are_knows() {
    let (mut g, file_id) = graph_with_file();
    let content = "## 角色\n- 甲\n- 乙\n## 关系\n- 甲 → 乙：朋友\n";
    let parsed = ParsedFile::from_content(file_id, "ch1.md", content);
    ParseChapterPass::merge_parsed(&mut g, "红楼", &parsed);
    let a = g.find_by_qn("红楼.甲").unwrap().id;
    let b = g.find_by_qn("红楼.乙").unwrap().id;
    let e = g.edge_list().iter().find(|e| e.source_id == a && e.target_id == b).unwrap();
    assert_eq!(e.edge_type, EdgeType::Knows);
    assert_eq!(e.properties.get_str("description"), Some("朋友"));
}

#[test]
fn file_infos_lists_file_nodes_with_paths() {
    let (mut g, file_id) = graph_with_file();
    g.upsert_node(Node::new("红楼", NodeLabel::File, "nopath.md", "红楼.nopath.md"));
    g.upsert_node(Node::new("红楼", NodeLabel::Character, "甲", "红楼.甲"));
    let infos = ParseChapterPass::file_infos(&g);
    assert_eq!(infos, vec![(file_id, "ch1.md".to_string(), "ch1.md".to_string())]);
}

#[test]
fn relation_names_are_lower_cased_before_matching() {
    let (mut g, file_id) = graph_with_file();
    let mut parsed = ParsedFile::from_content(file_id, "ch1.md", "## 角色\n- 甲\n## 地点\n- 乙\n");
    parsed.relationships.push(RelationshipInfo {
        from: "甲".to_string(),
        to: "乙".to_string(),
        rel_type: "LOCATED_IN".to_string(),
        description: String::new(),
    });
    let counts = ParseChapterPass::merge_parsed(&mut g, "红楼", &parsed);
    assert_eq!(counts.relationships, 1);
    let a = g.find_by_qn("红楼.甲").unwrap().id;
    let b = g.find_by_qn("红楼.乙").unwrap().id;
    let e = g.edge_list().iter().find(|e| e.source_id == a && e.target_id == b).unwrap();
    assert_eq!(e.edge_type, EdgeType::LocatedIn);
    assert_eq!(e.properties.get_str("description"), None);
}

#[test]
fn character_entries_in_both_forms() {
    let c = ParseChapterPass::parse_character_entry("贾宝玉", "怡红公子、宝二爷（公子，叛逆多情，外貌：面若中秋之月，结局：出家为僧）");
    assert_eq!(c.name, "贾宝玉");
    assert_eq!(c.aliases, "怡红公子、宝二爷");
    assert_eq!(c.identity, "公子");
    assert_eq!(c.personality, "叛逆多情");
    assert_eq!(c.appearance, "面若中秋之月");
    assert_eq!(c.fate, "出家为僧");
    assert_eq!(c.traits, "");
    let d = ParseChapterPass::parse_character_entry("张三", "剑客，性格勇敢");
    assert_eq!(d.traits, "剑客，性格勇敢");
    assert_eq!(d.aliases, "");
    // an opening bracket without a closing one is the plain form
    let e = ParseChapterPass::parse_character_entry("李四", "书生（未完");
    assert_eq!(e.traits, "书生（未完");
}

const README_SAMPLE: &str = "\
## 角色
- 贾宝玉：怡红公子、宝二爷（公子，叛逆多情，外貌：面若中秋之月，结局：出家为僧）
- 林黛玉：颦儿、潇湘妃子（小姐，多愁善感，外貌：闲静时如姣花照水，结局：泪尽而逝）
## 地点
- 大观园：贾府省亲所建
## 关系
- 贾宝玉 → 林黛玉：表兄妹，木石前盟
## 情节脉络
- 开端：1-5回，人物出场
- 发展：6-80回，矛盾积累
- 结局：101-120回，树倒猢狲散
## 冲突
- 贾宝玉 vs 贾政 → 仕途与自由的矛盾
## 伏笔
- 判词 → 人物结局：金陵十二钗判词预示命运
- 刘姥姥进大观园 → 贾府败落后救巧姐
## 反转
- 预期：金玉良缘 → 实际：宝玉出家
## 标签
- 情节：元妃省亲、抄检大观园、黛玉葬花
## 环境
- 时代：清朝乾隆年间
- 社会：封建大家族，等级森严
";

#[test]
fn the_documented_chapter_format() {
    let p = ParsedFile::from_content(1, "ch.md", README_SAMPLE);
    assert_eq!(p.characters.len(), 2);
    assert_eq!(p.characters[1].aliases, "颦儿、潇湘妃子");
    assert_eq!(p.characters[1].appearance, "闲静时如姣花照水");
    assert_eq!(p.locations[0].description, "贾府省亲所建");
    assert_eq!(p.relationships.len(), 1);
    assert_eq!(p.relationships[0].description, "表兄妹，木石前盟");
    assert_eq!(p.plot_phases.len(), 3);
    assert_eq!(p.plot_phases[2].description, "树倒猢狲散");
    assert_eq!(p.conflicts[0].parties, "贾宝玉 vs 贾政");
    // a foreshadowing needs a description after a colon
    assert_eq!(p.foreshadows.len(), 1);
    assert_eq!(p.foreshadows[0].target, "人物结局");
    assert_eq!(p.twists[0].expectation, "金玉良缘");
    assert_eq!(p.twists[0].reality, "宝玉出家");
    assert_eq!(p.tags.len(), 3);
    assert_eq!((p.tags[0].category.as_str(), p.tags[0].name.as_str()), ("情节", "元妃省亲"));
    assert_eq!(p.tags[2].name, "黛玉葬花");
    let env = p.environment.as_ref().unwrap();
    assert_eq!(env.society, "封建大家族，等级森严");
    assert_eq!(env.customs, "");
}

#[test]
fn a_reused_name_keeps_one_node() {
    let (mut g, file_id) = graph_with_file();
    let parsed = ParsedFile::from_content(file_id, "ch1.md", "## 角色\n- 大观园\n## 地点\n- 大观园：园林\n");
    ParseChapterPass::merge_parsed(&mut g, "红楼", &parsed);
    let n = g.find_by_qn("红楼.大观园").unwrap();
    assert_eq!(n.label, NodeLabel::Location);
    assert_eq!(g.find_by_label(NodeLabel::Character).len(), 0);
    assert_eq!(g.node_count(), 2);
}

#[test]
fn tag_lines() {
    let content = "## 标签\n- 情节：元妃省亲、 抄检大观园 、、\n- 文化: 诗词\n- 无类别、其二\n## 角色\n- 甲\n";
    let tags = ParseChapterPass::extract_tags(content);
    let got: Vec<(&str, &str)> = tags.iter().map(|t| (t.category.as_str(), t.name.as_str())).collect();
    assert_eq!(got, vec![("情节", "元妃省亲"), ("情节", "抄检大观园"), ("文化", "诗词"), ("", "无类别"), ("", "其二")]);
}

#[test]
fn tags_link_the_file_to_tag_notes() {
    let (mut g, file_id) = graph_with_file();
    let parsed = ParsedFile::from_content(file_id, "ch1.md", "## 标签\n- 情节：元妃省亲\n");
    assert!(g.has_room_for(parsed.merge_cost()));
    ParseChapterPass::merge_parsed(&mut g, "红楼", &parsed);
    let t = g.find_by_qn("红楼.标签.元妃省亲").unwrap();
    assert_eq!(t.name, "元妃省亲");
    assert_eq!(t.label, NodeLabel::Note);
    assert_eq!(t.properties.get_str("type"), Some("tag"));
    assert_eq!(t.properties.get_str("category"), Some("情节"));
    let tid = t.id;
    assert!(g.edge_list().iter().any(|e| e.source_id == file_id && e.target_id == tid
        && e.edge_type.as_str() == "TAGGED_WITH"));
}
