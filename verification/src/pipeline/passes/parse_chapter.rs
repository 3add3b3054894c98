//! Chapter parsing: the structured sections of a chapter file.
//!
//! | Section | Yields |
//! |---------|--------|
//! | `## 角色` / `## 人物` | characters |
//! | `## 地点` / `## 场所` | locations |
//! | `## 关系` / `## 关系图谱` | relationships |
//! | `## 情节脉络` / `## 结构` | plot phases |
//! | `## 冲突` / `## 矛盾` | conflicts |
//! | `## 环境` / `## 背景` | the social environment |
//! | `## 伏笔` / `## 铺垫` | foreshadowings |
//! | `## 反转` / `## 转折` | twists |
//! | `## 标签` | tags (`category：a、b、c`) |
//!
//! A character line reads `- name：alias1、alias2（identity，personality，外貌：x，动机：x，心理：x，结局：x）`.

use vstd::prelude::*;
use crate::text::{
    lemma_find_absent, lemma_split_once_char, lemma_join_lacks,
    lemma_trim_join, lemma_trim_start_lacks, lemma_trim_end_lacks, lemma_trim_of_trim_start,
    lemma_trim_of_trim_end, lemma_trim_end_shape, lemma_split_char_pair, lemma_split_char_whole, trim_start, trim_end, is_ws, lemma_trim_nonempty, has_prefix,
    views, seq_views, trim, lines, strip_prefix, strip_either, split_once, split_once_either, find, split_char,
    trim_chars, lines_chars, strip_prefix_chars, chars_eq, first_at, occurs_at, string_of,
    chars_of, slice_chars, find_chars, split_once_chars, split_once_either_chars,
    strip_either_chars, split_char_chars,
};

verus! {

broadcast use vstd::seq_lib::group_seq_properties;

// ============================================================
// Results
// ============================================================

/// What a character line says, as character sequences.
pub struct CharacterSpec {
    pub name: Seq<char>,
    pub aliases: Seq<char>,
    pub identity: Seq<char>,
    pub personality: Seq<char>,
    pub appearance: Seq<char>,
    pub motivation: Seq<char>,
    pub psychology: Seq<char>,
    pub fate: Seq<char>,
    pub traits: Seq<char>,
}

/// A character parsed from a chapter.
pub struct CharacterInfo {
    /// The name.
    pub name: String,
    /// Aliases (text before the parenthesis).
    pub aliases: String,
    /// Identity (first unlabelled field).
    pub identity: String,
    /// Personality (second unlabelled field).
    pub personality: String,
    /// Appearance (`外貌：`).
    pub appearance: String,
    /// Motivation (`动机：`).
    pub motivation: String,
    /// Psychology (`心理：`).
    pub psychology: String,
    /// Fate (`结局：`).
    pub fate: String,
    /// The whole description, for lines without the parenthesised form.
    pub traits: String,
}

impl View for CharacterInfo {
    type V = CharacterSpec;

    open spec fn view(&self) -> CharacterSpec {
        CharacterSpec {
            name: self.name@,
            aliases: self.aliases@,
            identity: self.identity@,
            personality: self.personality@,
            appearance: self.appearance@,
            motivation: self.motivation@,
            psychology: self.psychology@,
            fate: self.fate@,
            traits: self.traits@,
        }
    }
}

/// What a location line says.
pub struct LocationSpec {
    pub name: Seq<char>,
    pub description: Seq<char>,
}

/// A location parsed from a chapter.
pub struct LocationInfo {
    /// The name.
    pub name: String,
    /// The description (may be empty).
    pub description: String,
}

impl View for LocationInfo {
    type V = LocationSpec;

    open spec fn view(&self) -> LocationSpec {
        LocationSpec { name: self.name@, description: self.description@ }
    }
}

/// What a relationship line says.
pub struct RelationshipSpec {
    pub from: Seq<char>,
    pub to: Seq<char>,
    pub rel_type: Seq<char>,
    pub description: Seq<char>,
}

/// A relationship parsed from a chapter.
pub struct RelationshipInfo {
    /// The first character.
    pub from: String,
    /// The second character.
    pub to: String,
    /// The relation type (always `knows` in chapter files).
    pub rel_type: String,
    /// The description (may be empty).
    pub description: String,
}

impl View for RelationshipInfo {
    type V = RelationshipSpec;

    open spec fn view(&self) -> RelationshipSpec {
        RelationshipSpec {
            from: self.from@,
            to: self.to@,
            rel_type: self.rel_type@,
            description: self.description@,
        }
    }
}

/// What a plot phase line says.
pub struct PlotPhaseSpec {
    pub phase: Seq<char>,
    pub chapters: Seq<char>,
    pub description: Seq<char>,
}

/// A plot phase (beginning, development, climax, ending) parsed from a chapter.
pub struct PlotPhaseInfo {
    /// The phase name.
    pub phase: String,
    /// The chapter range.
    pub chapters: String,
    /// The description (may be empty).
    pub description: String,
}

impl View for PlotPhaseInfo {
    type V = PlotPhaseSpec;

    open spec fn view(&self) -> PlotPhaseSpec {
        PlotPhaseSpec {
            phase: self.phase@,
            chapters: self.chapters@,
            description: self.description@,
        }
    }
}

/// What a conflict line says.
pub struct ConflictSpec {
    pub parties: Seq<char>,
    pub nature: Seq<char>,
}

/// A conflict parsed from a chapter.
pub struct ConflictInfo {
    /// The parties (`A vs B`).
    pub parties: String,
    /// The nature of the conflict.
    pub nature: String,
}

impl View for ConflictInfo {
    type V = ConflictSpec;

    open spec fn view(&self) -> ConflictSpec {
        ConflictSpec { parties: self.parties@, nature: self.nature@ }
    }
}

/// What the environment section says.
pub struct SocialEnvSpec {
    pub era: Seq<char>,
    pub society: Seq<char>,
    pub customs: Seq<char>,
    pub culture: Seq<char>,
}

/// The social environment of the story.
pub struct SocialEnvInfo {
    /// The era (`时代`).
    pub era: String,
    /// The society (`社会`).
    pub society: String,
    /// The customs (`风俗`).
    pub customs: String,
    /// The culture (`文化`).
    pub culture: String,
}

impl View for SocialEnvInfo {
    type V = SocialEnvSpec;

    open spec fn view(&self) -> SocialEnvSpec {
        SocialEnvSpec {
            era: self.era@,
            society: self.society@,
            customs: self.customs@,
            culture: self.culture@,
        }
    }
}

/// What a foreshadowing line says.
pub struct ForeshadowSpec {
    pub source: Seq<char>,
    pub target: Seq<char>,
    pub description: Seq<char>,
}

/// A foreshadowing parsed from a chapter.
pub struct ForeshadowInfo {
    /// Where it is laid.
    pub source: String,
    /// What it points to.
    pub target: String,
    /// The description.
    pub description: String,
}

impl View for ForeshadowInfo {
    type V = ForeshadowSpec;

    open spec fn view(&self) -> ForeshadowSpec {
        ForeshadowSpec {
            source: self.source@,
            target: self.target@,
            description: self.description@,
        }
    }
}

/// What a twist line says.
pub struct TwistSpec {
    pub expectation: Seq<char>,
    pub reality: Seq<char>,
    pub description: Seq<char>,
}

/// A twist parsed from a chapter.
pub struct TwistInfo {
    /// What was expected.
    pub expectation: String,
    /// What happened.
    pub reality: String,
    /// The description (always empty in chapter files).
    pub description: String,
}

impl View for TwistInfo {
    type V = TwistSpec;

    open spec fn view(&self) -> TwistSpec {
        TwistSpec {
            expectation: self.expectation@,
            reality: self.reality@,
            description: self.description@,
        }
    }
}

/// A tag, as a specification.
pub struct TagSpec {
    pub category: Seq<char>,
    pub name: Seq<char>,
}

/// A tag parsed from a chapter.
pub struct TagInfo {
    /// The category the tag is listed under (may be empty).
    pub category: String,
    /// The tag.
    pub name: String,
}

impl View for TagInfo {
    type V = TagSpec;

    open spec fn view(&self) -> TagSpec {
        TagSpec { category: self.category@, name: self.name@ }
    }
}

// ============================================================
// Sections
// ============================================================

/// The prefix of a section header line.
pub open spec fn header_prefix() -> Seq<char> {
    seq!['#', '#', ' ']
}

/// The prefix of an item line.
pub open spec fn item_prefix() -> Seq<char> {
    seq!['-', ' ']
}

/// One line of the section scan: a header opens or closes the wanted section;
/// inside it, a non-empty `- ` line is an item (trimmed).
pub open spec fn scan_line(
    st: (bool, Seq<Seq<char>>),
    line: Seq<char>,
    h1: Seq<char>,
    h2: Seq<char>,
) -> (bool, Seq<Seq<char>>) {
    let t = trim(line);
    match strip_prefix(t, header_prefix()) {
        Some(rest) => {
            let h = trim(rest);
            (h == h1 || h == h2, st.1)
        },
        None => if !st.0 {
            (false, st.1)
        } else {
            match strip_prefix(t, item_prefix()) {
                Some(rest) => {
                    let item = trim(rest);
                    if item.len() == 0 {
                        st
                    } else {
                        (true, st.1.push(item))
                    }
                },
                None => st,
            }
        },
    }
}

/// A header line `## h` (ending in a non-space) opens the wanted section when
/// its trimmed title is one of the two wanted titles and closes it
/// otherwise; it adds no item.
pub proof fn lemma_scan_header(st: (bool, Seq<Seq<char>>), h: Seq<char>, h1: Seq<char>, h2: Seq<char>)
    requires
        h.len() > 0,
        !is_ws(h.last()),
    ensures
        scan_line(st, header_prefix() + h, h1, h2) == ((trim(h) == h1 || trim(h) == h2), st.1),
{
    let line = header_prefix() + h;
    assert(line[0] == '#');
    assert(line.last() == h.last());
    assert(line.drop_first().len() < line.len());
    assert(trim_start(line) == line);
    assert(trim_end(line) == line);
    assert(line.subrange(0, 3) =~= header_prefix());
    assert(line.skip(3) =~= h);
}

/// Inside the wanted section, an item line `- x` (ending in a non-space)
/// adds the trimmed `x` as the next item and stays in the section.
pub proof fn lemma_scan_item(items: Seq<Seq<char>>, x: Seq<char>, h1: Seq<char>, h2: Seq<char>)
    requires
        x.len() > 0,
        !is_ws(x.last()),
    ensures
        scan_line((true, items), item_prefix() + x, h1, h2) == (true, items.push(trim(x))),
{
    let line = item_prefix() + x;
    assert(line[0] == '-');
    assert(line.last() == x.last());
    assert(trim_start(line) == line);
    assert(trim_end(line) == line);
    assert(line.subrange(0, 3)[0] == '-');
    assert(header_prefix()[0] == '#');
    assert(line.subrange(0, 2) =~= item_prefix());
    assert(line.skip(2) =~= x);
    lemma_trim_nonempty(x);
}

/// Outside the wanted section, a line that is not a header changes nothing.
pub proof fn lemma_scan_outside(items: Seq<Seq<char>>, line: Seq<char>, h1: Seq<char>, h2: Seq<char>)
    requires
        !has_prefix(trim(line), header_prefix()),
    ensures
        scan_line((false, items), line, h1, h2) == (false, items),
{
}

/// The scan state after the given lines.
pub open spec fn scan(ls: Seq<Seq<char>>, h1: Seq<char>, h2: Seq<char>) -> (bool, Seq<Seq<char>>)
    decreases ls.len(),
{
    if ls.len() == 0 {
        (false, Seq::empty())
    } else {
        scan_line(scan(ls.drop_last(), h1, h2), ls.last(), h1, h2)
    }
}

/// The items of the sections headed `## h1` or `## h2` in `content`.
pub open spec fn section_items(content: Seq<char>, h1: Seq<char>, h2: Seq<char>) -> Seq<Seq<char>> {
    scan(lines(content), h1, h2).1
}

/// The items of the sections headed `## h1` or `## h2`.
pub fn section_items_chars(content: &Vec<char>, h1: &Vec<char>, h2: &Vec<char>) -> (r: Vec<Vec<char>>)
    ensures
        views(r@) == section_items(content@, h1@, h2@),
{
    let ls = lines_chars(content);
    let hp = vec!['#', '#', ' '];
    let ip = vec!['-', ' '];
    let mut in_section = false;
    let mut items: Vec<Vec<char>> = Vec::new();
    let mut i: usize = 0;
    assert(views(ls@).take(0) =~= Seq::<Seq<char>>::empty());
    while i < ls.len()
        invariant
            i <= ls.len(),
            hp@ == header_prefix(),
            ip@ == item_prefix(),
            views(ls@) == lines(content@),
            (in_section, views(items@)) == scan(views(ls@).take(i as int), h1@, h2@),
        decreases ls.len() - i,
    {
        let ghost before = views(items@);
        assert(views(ls@).take(i + 1).drop_last() =~= views(ls@).take(i as int));
        assert(views(ls@).take(i + 1).last() == ls@[i as int]@);
        let t = trim_chars(&ls[i]);
        match strip_prefix_chars(&t, &hp) {
            Some(rest) => {
                let h = trim_chars(&rest);
                in_section = chars_eq(&h, h1) || chars_eq(&h, h2);
            },
            None => {
                if in_section {
                    match strip_prefix_chars(&t, &ip) {
                        Some(rest) => {
                            let item = trim_chars(&rest);
                            if item.len() > 0 {
                                items.push(item);
                                assert(views(items@) =~= before.push(items@.last()@));
                            }
                        },
                        None => {},
                    }
                }
            },
        }
        i = i + 1;
    }
    assert(views(ls@).take(ls.len() as int) =~= views(ls@));
    items
}

// ============================================================
// Characters
// ============================================================

/// Name and description of a character line: split at the first `:`; if that
/// gives no description, split the line at the first `：` instead.
pub open spec fn char_name_desc(item: Seq<char>) -> (Seq<char>, Seq<char>) {
    let first = match split_once(item, seq![':']) {
        Some((n, d)) => (trim(n), trim(d)),
        None => (item, Seq::<char>::empty()),
    };
    if first.1.len() == 0 {
        match split_once(item, seq!['：']) {
            Some((n, d)) => (trim(n), trim(d)),
            None => (item, Seq::<char>::empty()),
        }
    } else {
        first
    }
}

/// A character with the given name and all other fields empty.
pub open spec fn bare_character(name: Seq<char>) -> CharacterSpec {
    CharacterSpec {
        name,
        aliases: Seq::empty(),
        identity: Seq::empty(),
        personality: Seq::empty(),
        appearance: Seq::empty(),
        motivation: Seq::empty(),
        psychology: Seq::empty(),
        fate: Seq::empty(),
        traits: Seq::empty(),
    }
}

/// One comma-separated field inside the parentheses: a labelled field sets its
/// slot (the last one wins); the first two unlabelled ones are identity and personality.
pub open spec fn field_step(f: CharacterSpec, segment: Seq<char>) -> CharacterSpec {
    let seg = trim(segment);
    if seg.len() == 0 {
        f
    } else {
        match strip_either(seg, seq!['外', '貌', '：'], seq!['外', '貌', ':']) {
            Some(v) => CharacterSpec { appearance: trim(v), ..f },
            None => match strip_either(seg, seq!['动', '机', '：'], seq!['动', '机', ':']) {
                Some(v) => CharacterSpec { motivation: trim(v), ..f },
                None => match strip_either(seg, seq!['心', '理', '：'], seq!['心', '理', ':']) {
                    Some(v) => CharacterSpec { psychology: trim(v), ..f },
                    None => match strip_either(seg, seq!['结', '局', '：'], seq!['结', '局', ':']) {
                        Some(v) => CharacterSpec { fate: trim(v), ..f },
                        None => if f.identity.len() == 0 {
                            CharacterSpec { identity: seg, ..f }
                        } else if f.personality.len() == 0 {
                            CharacterSpec { personality: seg, ..f }
                        } else {
                            f
                        },
                    },
                },
            },
        }
    }
}

/// The fields after the given segments.
pub open spec fn fold_fields(base: CharacterSpec, segs: Seq<Seq<char>>) -> CharacterSpec
    decreases segs.len(),
{
    if segs.len() == 0 {
        base
    } else {
        field_step(fold_fields(base, segs.drop_last()), segs.last())
    }
}

/// A character entry: with `（...）` in the description, aliases before it and
/// fields inside; otherwise the whole description as traits.
pub open spec fn character_entry(name: Seq<char>, desc: Seq<char>) -> CharacterSpec {
    let plain = CharacterSpec { traits: desc, ..bare_character(name) };
    match find(desc, seq!['（']) {
        None => plain,
        Some(p) => {
            let after = desc.skip(p + 1);
            match find(after, seq!['）']) {
                None => plain,
                Some(q) => fold_fields(
                    CharacterSpec { aliases: trim(desc.take(p)), ..bare_character(name) },
                    split_char(trim(after.take(q)), '，'),
                ),
            }
        },
    }
}

/// A segment with no colon carries no label.
proof fn lemma_no_label(seg: Seq<char>, l: Seq<char>)
    requires
        l.len() == 3,
        l[2] == '：' || l[2] == ':',
        !seg.contains('：'),
        !seg.contains(':'),
    ensures
        strip_prefix(seg, l) is None,
{
    if 3 <= seg.len() && seg.subrange(0, 3) == l {
        assert(seg[2] == seg.subrange(0, 3)[2]);
        assert(seg.contains(seg[2]));
    }
}

/// An unlabelled segment (no colon in it) that is not blank fills identity
/// while that is empty, else personality while that is empty.
proof fn lemma_plain_field(f: CharacterSpec, segment: Seq<char>)
    requires
        !segment.contains('：'),
        !segment.contains(':'),
        trim(segment).len() > 0,
    ensures
        field_step(f, segment) == (if f.identity.len() == 0 {
            CharacterSpec { identity: trim(segment), ..f }
        } else if f.personality.len() == 0 {
            CharacterSpec { personality: trim(segment), ..f }
        } else {
            f
        }),
{
    let seg = trim(segment);
    lemma_trim_start_lacks(segment, '：');
    lemma_trim_start_lacks(segment, ':');
    lemma_trim_end_lacks(trim_start(segment), '：');
    lemma_trim_end_lacks(trim_start(segment), ':');
    lemma_no_label(seg, seq!['外', '貌', '：']);
    lemma_no_label(seg, seq!['外', '貌', ':']);
    lemma_no_label(seg, seq!['动', '机', '：']);
    lemma_no_label(seg, seq!['动', '机', ':']);
    lemma_no_label(seg, seq!['心', '理', '：']);
    lemma_no_label(seg, seq!['心', '理', ':']);
    lemma_no_label(seg, seq!['结', '局', '：']);
    lemma_no_label(seg, seq!['结', '局', ':']);
}

/// A character description `aliases（identity，personality）…` gives the
/// aliases before the parenthesis, the first unlabelled field as identity and
/// the second as personality, every part trimmed, and nothing else.
pub proof fn lemma_character_identity_personality(
    name: Seq<char>,
    a: Seq<char>,
    i: Seq<char>,
    p: Seq<char>,
    rest: Seq<char>,
)
    requires
        !a.contains('（'),
        !i.contains('，'),
        !i.contains('）'),
        !i.contains('：'),
        !i.contains(':'),
        !p.contains('，'),
        !p.contains('）'),
        !p.contains('：'),
        !p.contains(':'),
        trim(i).len() > 0,
        trim(p).len() > 0,
    ensures
        character_entry(name, a + seq!['（'] + i + seq!['，'] + p + seq!['）'] + rest) == (CharacterSpec {
            aliases: trim(a),
            identity: trim(i),
            personality: trim(p),
            ..bare_character(name)
        }),
{
    let inner = i + seq!['，'] + p;
    let after = inner + seq!['）'] + rest;
    let desc = a + seq!['（'] + after;
    assert(a + seq!['（'] + i + seq!['，'] + p + seq!['）'] + rest =~= desc);
    lemma_split_once_char(a, '（', after);
    let k = find(desc, seq!['（'])->0;
    assert(desc.take(k).len() == a.len());
    assert(desc.skip(k + 1) == after);
    lemma_join_lacks(i, '，', p, '）');
    lemma_split_once_char(inner, '）', rest);
    let q = find(after, seq!['）'])->0;
    assert(after.take(q).len() == inner.len());
    assert(after.take(q) == inner);
    lemma_trim_join(i, '，', p);
    lemma_trim_start_lacks(i, '，');
    lemma_trim_end_lacks(p, '，');
    lemma_split_char_pair(trim_start(i), '，', trim_end(p));
    let segs = seq![trim_start(i), trim_end(p)];
    let base = CharacterSpec { aliases: trim(a), ..bare_character(name) };
    assert(segs.drop_last() =~= seq![trim_start(i)]);
    assert(seq![trim_start(i)].drop_last() =~= Seq::<Seq<char>>::empty());
    lemma_trim_start_lacks(i, '：');
    lemma_trim_start_lacks(i, ':');
    lemma_trim_end_lacks(p, '：');
    lemma_trim_end_lacks(p, ':');
    lemma_trim_of_trim_start(i);
    lemma_trim_of_trim_end(p);
    lemma_plain_field(base, trim_start(i));
    let f1 = field_step(base, trim_start(i));
    lemma_plain_field(f1, trim_end(p));
    assert(fold_fields(base, Seq::<Seq<char>>::empty()) == base);
    assert(seq![trim_start(i)].last() == trim_start(i));
    assert(segs.last() == trim_end(p));
    assert(fold_fields(base, seq![trim_start(i)]) == f1);
    assert(fold_fields(base, segs) == field_step(f1, trim_end(p)));
}

/// A description `aliases（segment）…` with one segment gives the aliases
/// before the parenthesis and what that one segment sets.
proof fn lemma_one_segment_entry(name: Seq<char>, a: Seq<char>, s: Seq<char>, rest: Seq<char>)
    requires
        !a.contains('（'),
        !s.contains('，'),
        !s.contains('）'),
    ensures
        character_entry(name, a + seq!['（'] + s + seq!['）'] + rest) == field_step(
            CharacterSpec { aliases: trim(a), ..bare_character(name) },
            trim(s),
        ),
{
    let after = s + seq!['）'] + rest;
    let desc = a + seq!['（'] + after;
    assert(a + seq!['（'] + s + seq!['）'] + rest =~= desc);
    lemma_split_once_char(a, '（', after);
    let k = find(desc, seq!['（'])->0;
    assert(desc.take(k).len() == a.len());
    assert(desc.skip(k + 1) == after);
    lemma_split_once_char(s, '）', rest);
    let q = find(after, seq!['）'])->0;
    assert(after.take(q).len() == s.len());
    assert(after.take(q) == s);
    lemma_trim_start_lacks(s, '，');
    lemma_trim_end_lacks(trim_start(s), '，');
    lemma_split_char_whole(trim(s), '，');
    let base = CharacterSpec { aliases: trim(a), ..bare_character(name) };
    assert(seq![trim(s)].drop_last() =~= Seq::<Seq<char>>::empty());
    assert(fold_fields(base, Seq::<Seq<char>>::empty()) == base);
    assert(seq![trim(s)].last() == trim(s));
}

/// A labelled segment `label：x`, trimmed twice, is the label, the colon and
/// `x` without its trailing white space.
proof fn lemma_labelled_segment(l: Seq<char>, x: Seq<char>)
    requires
        l.len() == 2,
        !is_ws(l[0]),
    ensures
        trim(trim(l + seq!['：'] + x)) == l + seq!['：'] + trim_end(x),
{
    lemma_trim_join(l, '：', x);
    lemma_trim_join(l, '：', trim_end(x));
    lemma_trim_end_shape(x);
}

/// A labelled field inside the parentheses sets its own slot:
/// `（外貌：x）` the appearance, `（动机：x）` the motivation, `（心理：x）` the
/// psychology and `（结局：x）` the fate, trimmed; the aliases are what stands
/// before the parenthesis, and nothing else is set.
pub proof fn lemma_character_labelled_field(name: Seq<char>, a: Seq<char>, x: Seq<char>, rest: Seq<char>)
    requires
        !a.contains('（'),
        !x.contains('，'),
        !x.contains('）'),
    ensures
        character_entry(name, a + seq!['（', '外', '貌', '：'] + x + seq!['）'] + rest) == (CharacterSpec {
            aliases: trim(a),
            appearance: trim(x),
            ..bare_character(name)
        }),
        character_entry(name, a + seq!['（', '动', '机', '：'] + x + seq!['）'] + rest) == (CharacterSpec {
            aliases: trim(a),
            motivation: trim(x),
            ..bare_character(name)
        }),
        character_entry(name, a + seq!['（', '心', '理', '：'] + x + seq!['）'] + rest) == (CharacterSpec {
            aliases: trim(a),
            psychology: trim(x),
            ..bare_character(name)
        }),
        character_entry(name, a + seq!['（', '结', '局', '：'] + x + seq!['）'] + rest) == (CharacterSpec {
            aliases: trim(a),
            fate: trim(x),
            ..bare_character(name)
        }),
{
    lemma_character_label_appearance(name, a, x, rest);
    lemma_character_label_motivation(name, a, x, rest);
    lemma_character_label_psychology(name, a, x, rest);
    lemma_character_label_fate(name, a, x, rest);
}

#[verifier::rlimit(40)]
proof fn lemma_character_label_appearance(name: Seq<char>, a: Seq<char>, x: Seq<char>, rest: Seq<char>)
    requires
        !a.contains('（'),
        !x.contains('，'),
        !x.contains('）'),
    ensures
        character_entry(name, a + seq!['（', '外', '貌', '：'] + x + seq!['）'] + rest) == (CharacterSpec {
            aliases: trim(a),
            appearance: trim(x),
            ..bare_character(name)
        }),
{
    let base = CharacterSpec { aliases: trim(a), ..bare_character(name) };
    lemma_trim_of_trim_end(x);
    lemma_labelled_field_entry(name, a, seq!['外', '貌'], x, rest);
    assert(seq!['（'] + seq!['外', '貌'] + seq!['：'] =~= seq!['（', '外', '貌', '：']);
    lemma_step_labelled(base, seq!['外', '貌'], trim_end(x));
}

#[verifier::rlimit(40)]
proof fn lemma_character_label_motivation(name: Seq<char>, a: Seq<char>, x: Seq<char>, rest: Seq<char>)
    requires
        !a.contains('（'),
        !x.contains('，'),
        !x.contains('）'),
    ensures
        character_entry(name, a + seq!['（', '动', '机', '：'] + x + seq!['）'] + rest) == (CharacterSpec {
            aliases: trim(a),
            motivation: trim(x),
            ..bare_character(name)
        }),
{
    let base = CharacterSpec { aliases: trim(a), ..bare_character(name) };
    lemma_trim_of_trim_end(x);
    lemma_labelled_field_entry(name, a, seq!['动', '机'], x, rest);
    assert(seq!['（'] + seq!['动', '机'] + seq!['：'] =~= seq!['（', '动', '机', '：']);
    lemma_step_labelled(base, seq!['动', '机'], trim_end(x));
}

#[verifier::rlimit(40)]
proof fn lemma_character_label_psychology(name: Seq<char>, a: Seq<char>, x: Seq<char>, rest: Seq<char>)
    requires
        !a.contains('（'),
        !x.contains('，'),
        !x.contains('）'),
    ensures
        character_entry(name, a + seq!['（', '心', '理', '：'] + x + seq!['）'] + rest) == (CharacterSpec {
            aliases: trim(a),
            psychology: trim(x),
            ..bare_character(name)
        }),
{
    let base = CharacterSpec { aliases: trim(a), ..bare_character(name) };
    lemma_trim_of_trim_end(x);
    lemma_labelled_field_entry(name, a, seq!['心', '理'], x, rest);
    assert(seq!['（'] + seq!['心', '理'] + seq!['：'] =~= seq!['（', '心', '理', '：']);
    lemma_step_labelled(base, seq!['心', '理'], trim_end(x));
}

#[verifier::rlimit(40)]
proof fn lemma_character_label_fate(name: Seq<char>, a: Seq<char>, x: Seq<char>, rest: Seq<char>)
    requires
        !a.contains('（'),
        !x.contains('，'),
        !x.contains('）'),
    ensures
        character_entry(name, a + seq!['（', '结', '局', '：'] + x + seq!['）'] + rest) == (CharacterSpec {
            aliases: trim(a),
            fate: trim(x),
            ..bare_character(name)
        }),
{
    let base = CharacterSpec { aliases: trim(a), ..bare_character(name) };
    lemma_trim_of_trim_end(x);
    lemma_labelled_field_entry(name, a, seq!['结', '局'], x, rest);
    assert(seq!['（'] + seq!['结', '局'] + seq!['：'] =~= seq!['（', '结', '局', '：']);
    lemma_step_labelled(base, seq!['结', '局'], trim_end(x));
}

/// One labelled segment, already trimmed, sets the slot of its label.
proof fn lemma_step_labelled(f: CharacterSpec, l: Seq<char>, v: Seq<char>)
    requires
        l == seq!['外', '貌'] || l == seq!['动', '机'] || l == seq!['心', '理'] || l == seq!['结', '局'],
        trim(l + seq!['：'] + v) == l + seq!['：'] + v,
    ensures
        l == seq!['外', '貌'] ==> field_step(f, l + seq!['：'] + v) == (CharacterSpec { appearance: trim(v), ..f }),
        l == seq!['动', '机'] ==> field_step(f, l + seq!['：'] + v) == (CharacterSpec { motivation: trim(v), ..f }),
        l == seq!['心', '理'] ==> field_step(f, l + seq!['：'] + v) == (CharacterSpec { psychology: trim(v), ..f }),
        l == seq!['结', '局'] ==> field_step(f, l + seq!['：'] + v) == (CharacterSpec { fate: trim(v), ..f }),
{
    let s = l + seq!['：'] + v;
    let head = s.subrange(0, 3);
    assert(head =~= l + seq!['：']);
    assert(s.skip(3) =~= v);
    assert(head[0] == l[0]);
    assert(seq!['外', '貌', '：'][0] == '外');
    assert(seq!['外', '貌', ':'][0] == '外');
    assert(seq!['动', '机', '：'][0] == '动');
    assert(seq!['动', '机', ':'][0] == '动');
    assert(seq!['心', '理', '：'][0] == '心');
    assert(seq!['心', '理', ':'][0] == '心');
    assert(seq!['结', '局', '：'][0] == '结');
    assert(seq!['结', '局', ':'][0] == '结');
    if l == seq!['外', '貌'] {
        assert(head =~= seq!['外', '貌', '：']);
    } else if l == seq!['动', '机'] {
        assert(head =~= seq!['动', '机', '：']);
    } else if l == seq!['心', '理'] {
        assert(head =~= seq!['心', '理', '：']);
    } else {
        assert(head =~= seq!['结', '局', '：']);
    }
}

/// `aliases（label：x）…` is the one labelled segment, trimmed twice.
proof fn lemma_labelled_field_entry(name: Seq<char>, a: Seq<char>, l: Seq<char>, x: Seq<char>, rest: Seq<char>)
    requires
        !a.contains('（'),
        !x.contains('，'),
        !x.contains('）'),
        l.len() == 2,
        !is_ws(l[0]),
        l[0] != '，' && l[1] != '，' && l[0] != '）' && l[1] != '）',
    ensures
        character_entry(name, a + (seq!['（'] + l + seq!['：']) + x + seq!['）'] + rest) == field_step(
            CharacterSpec { aliases: trim(a), ..bare_character(name) },
            l + seq!['：'] + trim_end(x),
        ),
        trim(l + seq!['：'] + trim_end(x)) == l + seq!['：'] + trim_end(x),
{
    let s = l + seq!['：'] + x;
    assert(a + (seq!['（'] + l + seq!['：']) + x + seq!['）'] + rest =~= a + seq!['（'] + s + seq!['）'] + rest);
    assert forall|k: int| 0 <= k < s.len() implies s[k] != '，' && s[k] != '）' by {
        if k >= 3 {
            assert(s[k] == x[k - 3]);
            assert(x.contains(x[k - 3]));
        }
    }
    lemma_one_segment_entry(name, a, s, rest);
    lemma_labelled_segment(l, x);
    lemma_trim_join(l, '：', trim_end(x));
    lemma_trim_end_shape(x);
}

/// The characters of a chapter.
pub open spec fn spec_characters(content: Seq<char>) -> Seq<CharacterSpec> {
    section_items(content, seq!['角', '色'], seq!['人', '物']).map_values(
        |item: Seq<char>| character_entry(char_name_desc(item).0, char_name_desc(item).1),
    )
}

// ============================================================
// Locations, relationships, plot phases, conflicts
// ============================================================

/// A location line: name and description split at `:` or else `：`.
pub open spec fn location_of(item: Seq<char>) -> LocationSpec {
    match split_once_either(item, seq![':'], seq!['：']) {
        Some((n, d)) => LocationSpec { name: trim(n), description: trim(d) },
        None => LocationSpec { name: item, description: Seq::empty() },
    }
}

/// The locations of a chapter.
pub open spec fn spec_locations(content: Seq<char>) -> Seq<LocationSpec> {
    section_items(content, seq!['地', '点'], seq!['场', '所']).map_values(|item: Seq<char>| location_of(item))
}

/// A relationship line `A → B：description` (or `->`); lines without an arrow are skipped.
pub open spec fn relationship_of(item: Seq<char>) -> Option<RelationshipSpec> {
    match split_once_either(item, seq!['→'], seq!['-', '>']) {
        Some((a, b)) => {
            let after = trim(b);
            let (to, desc) = match split_once_either(after, seq![':'], seq!['：']) {
                Some((t, d)) => (trim(t), trim(d)),
                None => (after, Seq::<char>::empty()),
            };
            Some(RelationshipSpec { from: trim(a), to, rel_type: "knows"@, description: desc })
        },
        None => None,
    }
}

/// A relationship line `from → to：description`, with no arrow in `from`, no
/// colon in `to` and no `:` in the description, links `from` to `to` as
/// `knows` with that description; every part is trimmed.
pub proof fn lemma_relationship_line(a: Seq<char>, b: Seq<char>, d: Seq<char>)
    requires
        !a.contains('→'),
        !b.contains(':'),
        !b.contains('：'),
        !d.contains(':'),
    ensures
        relationship_of(a + seq!['→'] + b + seq!['：'] + d) == Some(
            RelationshipSpec { from: trim(a), to: trim(b), rel_type: "knows"@, description: trim(d) },
        ),
{
    let rest = b + seq!['：'] + d;
    assert(a + seq!['→'] + b + seq!['：'] + d =~= a + seq!['→'] + rest);
    lemma_split_once_char(a, '→', rest);
    lemma_trim_join(b, '：', d);
    let after = trim_start(b) + seq!['：'] + trim_end(d);
    lemma_trim_start_lacks(b, ':');
    lemma_trim_end_lacks(d, ':');
    lemma_join_lacks(trim_start(b), '：', trim_end(d), ':');
    lemma_find_absent(after, seq![':']);
    lemma_trim_start_lacks(b, '：');
    lemma_split_once_char(trim_start(b), '：', trim_end(d));
    lemma_trim_of_trim_start(b);
    lemma_trim_of_trim_end(d);
}

/// A relationship line `from → to` with no colon after the arrow links `from`
/// to `to` as `knows` with no description; both are trimmed.
pub proof fn lemma_relationship_line_plain(a: Seq<char>, b: Seq<char>)
    requires
        !a.contains('→'),
        !b.contains(':'),
        !b.contains('：'),
    ensures
        relationship_of(a + seq!['→'] + b) == Some(
            RelationshipSpec { from: trim(a), to: trim(b), rel_type: "knows"@, description: Seq::empty() },
        ),
{
    lemma_split_once_char(a, '→', b);
    lemma_trim_start_lacks(b, ':');
    lemma_trim_start_lacks(b, '：');
    lemma_trim_end_lacks(trim_start(b), ':');
    lemma_trim_end_lacks(trim_start(b), '：');
    lemma_find_absent(trim(b), seq![':']);
    lemma_find_absent(trim(b), seq!['：']);
}

/// The relationships of a list of items.
pub open spec fn relationships_of(items: Seq<Seq<char>>) -> Seq<RelationshipSpec>
    decreases items.len(),
{
    if items.len() == 0 {
        Seq::empty()
    } else {
        let r = relationships_of(items.drop_last());
        match relationship_of(items.last()) {
            Some(x) => r.push(x),
            None => r,
        }
    }
}

/// The relationships of a chapter.
pub open spec fn spec_relationships(content: Seq<char>) -> Seq<RelationshipSpec> {
    relationships_of(section_items(content, seq!['关', '系'], seq!['关', '系', '图', '谱']))
}

/// A plot phase line `phase：chapters，description`; lines without a colon are skipped.
pub open spec fn plot_phase_of(item: Seq<char>) -> Option<PlotPhaseSpec> {
    match split_once_either(item, seq!['：'], seq![':']) {
        Some((phase, rest)) => Some(
            match split_once(rest, seq!['，']) {
                Some((ch, d)) => PlotPhaseSpec {
                    phase: trim(phase),
                    chapters: trim(ch),
                    description: trim(d),
                },
                None => PlotPhaseSpec {
                    phase: trim(phase),
                    chapters: trim(rest),
                    description: Seq::empty(),
                },
            },
        ),
        None => None,
    }
}

/// A plot-phase line `phase：chapters`, with no `，` after the colon, is that
/// phase with those chapters and no description; every part is trimmed.
pub proof fn lemma_plot_phase_without_description(p: Seq<char>, rest: Seq<char>)
    requires
        !p.contains('：'),
        !rest.contains('，'),
    ensures
        plot_phase_of(p + seq!['：'] + rest) == Some(
            PlotPhaseSpec { phase: trim(p), chapters: trim(rest), description: Seq::empty() },
        ),
{
    lemma_split_once_char(p, '：', rest);
    lemma_find_absent(rest, seq!['，']);
}

/// A plot-phase line `phase：chapters，description` is that phase, with the
/// chapters before the first `，` and the description after it; every part is
/// trimmed.
pub proof fn lemma_plot_phase_with_description(p: Seq<char>, ch: Seq<char>, d: Seq<char>)
    requires
        !p.contains('：'),
        !ch.contains('，'),
    ensures
        plot_phase_of(p + seq!['：'] + (ch + seq!['，'] + d)) == Some(
            PlotPhaseSpec { phase: trim(p), chapters: trim(ch), description: trim(d) },
        ),
{
    lemma_split_once_char(p, '：', ch + seq!['，'] + d);
    lemma_split_once_char(ch, '，', d);
}

/// The ASCII colon works the same when the line has no full-width colon.
pub proof fn lemma_plot_phase_ascii_colon(p: Seq<char>, rest: Seq<char>)
    requires
        !p.contains(':'),
        !p.contains('：'),
        !rest.contains('：'),
        !rest.contains('，'),
    ensures
        plot_phase_of(p + seq![':'] + rest) == Some(
            PlotPhaseSpec { phase: trim(p), chapters: trim(rest), description: Seq::empty() },
        ),
{
    lemma_join_lacks(p, ':', rest, '：');
    lemma_find_absent(p + seq![':'] + rest, seq!['：']);
    lemma_split_once_char(p, ':', rest);
    lemma_find_absent(rest, seq!['，']);
}

/// A location line `name：description`, with no `:` in it and no `：` in the
/// name, is that location with that description; both are trimmed.
pub proof fn lemma_location_line(n: Seq<char>, d: Seq<char>)
    requires
        !n.contains('：'),
        !n.contains(':'),
        !d.contains(':'),
    ensures
        location_of(n + seq!['：'] + d) == (LocationSpec { name: trim(n), description: trim(d) }),
{
    lemma_join_lacks(n, '：', d, ':');
    lemma_find_absent(n + seq!['：'] + d, seq![':']);
    lemma_split_once_char(n, '：', d);
}

/// A location line `name:description`, with no `:` in the name, is that
/// location with that description; both are trimmed.
pub proof fn lemma_location_line_ascii(n: Seq<char>, d: Seq<char>)
    requires
        !n.contains(':'),
    ensures
        location_of(n + seq![':'] + d) == (LocationSpec { name: trim(n), description: trim(d) }),
{
    lemma_split_once_char(n, ':', d);
}

/// The plot phases of a list of items.
pub open spec fn plot_phases_of(items: Seq<Seq<char>>) -> Seq<PlotPhaseSpec>
    decreases items.len(),
{
    if items.len() == 0 {
        Seq::empty()
    } else {
        let r = plot_phases_of(items.drop_last());
        match plot_phase_of(items.last()) {
            Some(x) => r.push(x),
            None => r,
        }
    }
}

/// The plot phases of a chapter.
pub open spec fn spec_plot_phases(content: Seq<char>) -> Seq<PlotPhaseSpec> {
    plot_phases_of(section_items(content, seq!['情', '节', '脉', '络'], seq!['结', '构']))
}

/// A conflict line `parties → nature` (or `->`, or `parties：nature`).
pub open spec fn conflict_of(item: Seq<char>) -> Option<ConflictSpec> {
    match split_once_either(item, seq!['→'], seq!['-', '>']) {
        Some((a, b)) => Some(ConflictSpec { parties: trim(a), nature: trim(b) }),
        None => match split_once(item, seq!['：']) {
            Some((a, b)) => Some(ConflictSpec { parties: trim(a), nature: trim(b) }),
            None => None,
        },
    }
}

/// A conflict line `parties → nature` is those parties in that conflict; every
/// part is trimmed.
pub proof fn lemma_conflict_with_arrow(a: Seq<char>, b: Seq<char>)
    requires
        !a.contains('→'),
    ensures
        conflict_of(a + seq!['→'] + b) == Some(ConflictSpec { parties: trim(a), nature: trim(b) }),
{
    lemma_split_once_char(a, '→', b);
}

/// A conflict line `parties：nature` without an arrow is, like the arrow form,
/// those parties with the nature after the colon; every part is trimmed.
pub proof fn lemma_conflict_with_colon(a: Seq<char>, b: Seq<char>)
    requires
        !a.contains('：'),
        !a.contains('→'),
        !b.contains('→'),
        !a.contains('-'),
        !b.contains('-'),
    ensures
        conflict_of(a + seq!['：'] + b) == Some(ConflictSpec { parties: trim(a), nature: trim(b) }),
{
    let s = a + seq!['：'] + b;
    lemma_join_lacks(a, '：', b, '→');
    lemma_join_lacks(a, '：', b, '-');
    lemma_find_absent(s, seq!['→']);
    lemma_find_absent(s, seq!['-', '>']);
    lemma_split_once_char(a, '：', b);
}

/// The conflicts of a list of items.
pub open spec fn conflicts_of(items: Seq<Seq<char>>) -> Seq<ConflictSpec>
    decreases items.len(),
{
    if items.len() == 0 {
        Seq::empty()
    } else {
        let r = conflicts_of(items.drop_last());
        match conflict_of(items.last()) {
            Some(x) => r.push(x),
            None => r,
        }
    }
}

/// The conflicts of a chapter.
pub open spec fn spec_conflicts(content: Seq<char>) -> Seq<ConflictSpec> {
    conflicts_of(section_items(content, seq!['冲', '突'], seq!['矛', '盾']))
}

// ============================================================
// Environment, foreshadowing, twists
// ============================================================

/// The environment with every field empty.
pub open spec fn empty_env() -> SocialEnvSpec {
    SocialEnvSpec {
        era: Seq::empty(),
        society: Seq::empty(),
        customs: Seq::empty(),
        culture: Seq::empty(),
    }
}

/// One environment line `key：value`: a known key sets its field; any line
/// with a colon counts as found.
pub open spec fn env_step(st: (bool, SocialEnvSpec), item: Seq<char>) -> (bool, SocialEnvSpec) {
    match split_once_either(item, seq!['：'], seq![':']) {
        Some((k, v)) => {
            let key = trim(k);
            let val = trim(v);
            let env = st.1;
            (
                true,
                if key == seq!['时', '代'] {
                    SocialEnvSpec { era: val, ..env }
                } else if key == seq!['社', '会'] {
                    SocialEnvSpec { society: val, ..env }
                } else if key == seq!['风', '俗'] {
                    SocialEnvSpec { customs: val, ..env }
                } else if key == seq!['文', '化'] {
                    SocialEnvSpec { culture: val, ..env }
                } else {
                    env
                },
            )
        },
        None => st,
    }
}

/// An environment line `key：value` (no `：` in the key) counts as found and
/// sets the field that its trimmed key names, `时代` the era, `社会` the
/// society, `风俗` the customs and `文化` the culture, to the trimmed value;
/// any other key changes no field.
pub proof fn lemma_environment_line(st: (bool, SocialEnvSpec), k: Seq<char>, v: Seq<char>)
    requires
        !k.contains('：'),
    ensures
        ({
            let r = env_step(st, k + seq!['：'] + v);
            let key = trim(k);
            &&& r.0
            &&& key == seq!['时', '代'] ==> r.1 == (SocialEnvSpec { era: trim(v), ..st.1 })
            &&& key == seq!['社', '会'] ==> r.1 == (SocialEnvSpec { society: trim(v), ..st.1 })
            &&& key == seq!['风', '俗'] ==> r.1 == (SocialEnvSpec { customs: trim(v), ..st.1 })
            &&& key == seq!['文', '化'] ==> r.1 == (SocialEnvSpec { culture: trim(v), ..st.1 })
            &&& (key != seq!['时', '代'] && key != seq!['社', '会'] && key != seq!['风', '俗'] && key
                != seq!['文', '化']) ==> r.1 == st.1
        }),
{
    lemma_split_once_char(k, '：', v);
    let key = trim(k);
    assert(seq!['时', '代'][0] != seq!['社', '会'][0]);
    assert(seq!['时', '代'][0] != seq!['风', '俗'][0]);
    assert(seq!['时', '代'][0] != seq!['文', '化'][0]);
    assert(seq!['社', '会'][0] != seq!['风', '俗'][0]);
    assert(seq!['社', '会'][0] != seq!['文', '化'][0]);
    assert(seq!['风', '俗'][0] != seq!['文', '化'][0]);
}

/// An environment line without a colon leaves the scan as it was.
pub proof fn lemma_environment_line_without_colon(st: (bool, SocialEnvSpec), item: Seq<char>)
    requires
        !item.contains('：'),
        !item.contains(':'),
    ensures
        env_step(st, item) == st,
{
    lemma_find_absent(item, seq!['：']);
    lemma_find_absent(item, seq![':']);
}

/// The environment scan after the given items.
pub open spec fn env_scan(items: Seq<Seq<char>>) -> (bool, SocialEnvSpec)
    decreases items.len(),
{
    if items.len() == 0 {
        (false, empty_env())
    } else {
        env_step(env_scan(items.drop_last()), items.last())
    }
}

/// The environment of a chapter, if its environment section has a `key：value` line.
pub open spec fn spec_environment(content: Seq<char>) -> Option<SocialEnvSpec> {
    let st = env_scan(section_items(content, seq!['环', '境'], seq!['背', '景']));
    if st.0 {
        Some(st.1)
    } else {
        None
    }
}

/// A foreshadowing line `source → target：description`.
pub open spec fn foreshadow_of(item: Seq<char>) -> Option<ForeshadowSpec> {
    match split_once_either(item, seq!['：'], seq![':']) {
        Some((arrow, d)) => match split_once_either(arrow, seq!['→'], seq!['-', '>']) {
            Some((s, t)) => Some(
                ForeshadowSpec { source: trim(s), target: trim(t), description: trim(d) },
            ),
            None => None,
        },
        None => None,
    }
}

/// A foreshadowing line `source → target：description` (no `：` before the
/// colon, no arrow in the source) leads from that source to that target with
/// that description; every part is trimmed.
pub proof fn lemma_foreshadow_line(src: Seq<char>, tgt: Seq<char>, d: Seq<char>)
    requires
        !src.contains('：'),
        !tgt.contains('：'),
        !src.contains('→'),
    ensures
        foreshadow_of(src + seq!['→'] + tgt + seq!['：'] + d) == Some(
            ForeshadowSpec { source: trim(src), target: trim(tgt), description: trim(d) },
        ),
{
    lemma_join_lacks(src, '→', tgt, '：');
    lemma_split_once_char(src + seq!['→'] + tgt, '：', d);
    lemma_split_once_char(src, '→', tgt);
}

/// The foreshadowings of a list of items.
pub open spec fn foreshadows_of(items: Seq<Seq<char>>) -> Seq<ForeshadowSpec>
    decreases items.len(),
{
    if items.len() == 0 {
        Seq::empty()
    } else {
        let r = foreshadows_of(items.drop_last());
        match foreshadow_of(items.last()) {
            Some(x) => r.push(x),
            None => r,
        }
    }
}

/// The foreshadowings of a chapter.
pub open spec fn spec_foreshadows(content: Seq<char>) -> Seq<ForeshadowSpec> {
    foreshadows_of(section_items(content, seq!['伏', '笔'], seq!['铺', '垫']))
}

/// `s` without the prefix `p` (or else `q`), or `s` itself if it has neither.
pub open spec fn strip_either_or_self(s: Seq<char>, p: Seq<char>, q: Seq<char>) -> Seq<char> {
    match strip_either(s, p, q) {
        Some(r) => r,
        None => s,
    }
}

/// A twist line `预期：expectation → 实际：reality` (labels optional).
pub open spec fn twist_of(item: Seq<char>) -> Option<TwistSpec> {
    match split_once_either(item, seq!['→'], seq!['-', '>']) {
        Some((b, a)) => Some(
            TwistSpec {
                expectation: strip_either_or_self(trim(b), seq!['预', '期', '：'], seq!['预', '期', ':']),
                reality: strip_either_or_self(trim(a), seq!['实', '际', '：'], seq!['实', '际', ':']),
                description: Seq::empty(),
            },
        ),
        None => None,
    }
}

/// A twist line `expectation → reality` without labels or colons is that
/// expectation turned into that reality, both trimmed, with no description.
pub proof fn lemma_twist_line(x: Seq<char>, y: Seq<char>)
    requires
        !x.contains('→'),
        !x.contains('：'),
        !x.contains(':'),
        !y.contains('：'),
        !y.contains(':'),
    ensures
        twist_of(x + seq!['→'] + y) == Some(
            TwistSpec { expectation: trim(x), reality: trim(y), description: Seq::empty() },
        ),
{
    lemma_split_once_char(x, '→', y);
    lemma_trim_start_lacks(x, '：');
    lemma_trim_start_lacks(x, ':');
    lemma_trim_end_lacks(trim_start(x), '：');
    lemma_trim_end_lacks(trim_start(x), ':');
    lemma_trim_start_lacks(y, '：');
    lemma_trim_start_lacks(y, ':');
    lemma_trim_end_lacks(trim_start(y), '：');
    lemma_trim_end_lacks(trim_start(y), ':');
    lemma_no_label(trim(x), seq!['预', '期', '：']);
    lemma_no_label(trim(x), seq!['预', '期', ':']);
    lemma_no_label(trim(y), seq!['实', '际', '：']);
    lemma_no_label(trim(y), seq!['实', '际', ':']);
}

/// A labelled twist line `预期：x → 实际：y` is the expectation `x` turned
/// into the reality `y`, the labels taken off and the white space at the ends
/// of the line's halves trimmed, with no description.
pub proof fn lemma_twist_labelled(x: Seq<char>, y: Seq<char>)
    requires
        !x.contains('→'),
    ensures
        twist_of(seq!['预', '期', '：'] + x + seq!['→'] + (seq!['实', '际', '：'] + y)) == Some(
            TwistSpec { expectation: trim_end(x), reality: trim_end(y), description: Seq::empty() },
        ),
{
    let b = seq!['预', '期', '：'] + x;
    let a = seq!['实', '际', '：'] + y;
    assert forall|k: int| 0 <= k < b.len() implies b[k] != '→' by {
        if k >= 3 {
            assert(b[k] == x[k - 3]);
            assert(x.contains(x[k - 3]));
        }
    }
    lemma_split_once_char(b, '→', a);
    assert(b =~= seq!['预', '期'] + seq!['：'] + x);
    assert(a =~= seq!['实', '际'] + seq!['：'] + y);
    lemma_trim_join(seq!['预', '期'], '：', x);
    lemma_trim_join(seq!['实', '际'], '：', y);
    let tb = seq!['预', '期'] + seq!['：'] + trim_end(x);
    let ta = seq!['实', '际'] + seq!['：'] + trim_end(y);
    assert(tb.subrange(0, 3) =~= seq!['预', '期', '：']);
    assert(tb.skip(3) =~= trim_end(x));
    assert(ta.subrange(0, 3) =~= seq!['实', '际', '：']);
    assert(ta.skip(3) =~= trim_end(y));
}

/// The twists of a list of items.
pub open spec fn twists_of(items: Seq<Seq<char>>) -> Seq<TwistSpec>
    decreases items.len(),
{
    if items.len() == 0 {
        Seq::empty()
    } else {
        let r = twists_of(items.drop_last());
        match twist_of(items.last()) {
            Some(x) => r.push(x),
            None => r,
        }
    }
}

/// The twists of a chapter.
pub open spec fn spec_twists(content: Seq<char>) -> Seq<TwistSpec> {
    twists_of(section_items(content, seq!['反', '转'], seq!['转', '折']))
}

/// The tags of a list of pieces under a category: each piece trimmed, the
/// empty ones left out.
pub open spec fn tag_list(category: Seq<char>, pieces: Seq<Seq<char>>) -> Seq<TagSpec>
    decreases pieces.len(),
{
    if pieces.len() == 0 {
        Seq::empty()
    } else {
        let r = tag_list(category, pieces.drop_last());
        let t = trim(pieces.last());
        if t.len() == 0 {
            r
        } else {
            r.push(TagSpec { category, name: t })
        }
    }
}

/// A tag line `category：a、b、c` (or with `:`); a line without a colon lists
/// tags without a category.
pub open spec fn tags_of_item(item: Seq<char>) -> Seq<TagSpec> {
    match split_once_either(item, seq!['：'], seq![':']) {
        Some((c, l)) => tag_list(trim(c), split_char(trim(l), '、')),
        None => tag_list(Seq::empty(), split_char(item, '、')),
    }
}

/// A tag line `category：a、b` gives the two tags `a` and `b`, in that order,
/// each under that category; every part is trimmed.
pub proof fn lemma_tag_line(c: Seq<char>, a: Seq<char>, b: Seq<char>)
    requires
        !c.contains('：'),
        !a.contains('、'),
        !b.contains('、'),
        trim(a).len() > 0,
        trim(b).len() > 0,
    ensures
        tags_of_item(c + seq!['：'] + (a + seq!['、'] + b)) == seq![
            TagSpec { category: trim(c), name: trim(a) },
            TagSpec { category: trim(c), name: trim(b) },
        ],
{
    let l = a + seq!['、'] + b;
    lemma_split_once_char(c, '：', l);
    lemma_trim_join(a, '、', b);
    lemma_trim_start_lacks(a, '、');
    lemma_trim_end_lacks(b, '、');
    lemma_split_char_pair(trim_start(a), '、', trim_end(b));
    lemma_trim_of_trim_start(a);
    lemma_trim_of_trim_end(b);
    let pieces = seq![trim_start(a), trim_end(b)];
    assert(pieces.drop_last() =~= seq![trim_start(a)]);
    assert(seq![trim_start(a)].drop_last() =~= Seq::<Seq<char>>::empty());
    assert(pieces.last() == trim_end(b));
    assert(seq![trim_start(a)].last() == trim_start(a));
    assert(tag_list(trim(c), Seq::<Seq<char>>::empty()) == Seq::<TagSpec>::empty());
    assert(tag_list(trim(c), seq![trim_start(a)]) == seq![TagSpec { category: trim(c), name: trim(a) }]) by {
        assert(Seq::<TagSpec>::empty().push(TagSpec { category: trim(c), name: trim(a) }) =~= seq![
            TagSpec { category: trim(c), name: trim(a) },
        ]);
    }
    assert(seq![TagSpec { category: trim(c), name: trim(a) }].push(TagSpec { category: trim(c), name: trim(b) })
        =~= seq![TagSpec { category: trim(c), name: trim(a) }, TagSpec { category: trim(c), name: trim(b) }]);
}

/// A tag line without a colon gives its one tag, trimmed, with no category.
pub proof fn lemma_tag_line_plain(a: Seq<char>)
    requires
        !a.contains('：'),
        !a.contains(':'),
        !a.contains('、'),
        trim(a).len() > 0,
    ensures
        tags_of_item(a) == seq![TagSpec { category: Seq::empty(), name: trim(a) }],
{
    lemma_find_absent(a, seq!['：']);
    lemma_find_absent(a, seq![':']);
    lemma_split_char_whole(a, '、');
    assert(seq![a].drop_last() =~= Seq::<Seq<char>>::empty());
    assert(seq![a].last() == a);
    assert(tag_list(Seq::empty(), Seq::<Seq<char>>::empty()) == Seq::<TagSpec>::empty());
    assert(Seq::<TagSpec>::empty().push(TagSpec { category: Seq::empty(), name: trim(a) }) =~= seq![
        TagSpec { category: Seq::empty(), name: trim(a) },
    ]);
}

/// The tags of a list of items, in order.
pub open spec fn tags_of(items: Seq<Seq<char>>) -> Seq<TagSpec>
    decreases items.len(),
{
    if items.len() == 0 {
        Seq::empty()
    } else {
        tags_of(items.drop_last()) + tags_of_item(items.last())
    }
}

/// The tags of a chapter (the `## 标签` sections).
pub open spec fn spec_tags(content: Seq<char>) -> Seq<TagSpec> {
    tags_of(section_items(content, seq!['标', '签'], seq!['标', '签']))
}

// ============================================================
// Parsers
// ============================================================

/// A one-character pattern.
fn pat1(c: char) -> (r: Vec<char>)
    ensures
        r@ == seq![c],
{
    vec![c]
}

/// Name and description of a character line.
fn char_name_desc_chars(item: &Vec<char>) -> (r: (Vec<char>, Vec<char>))
    ensures
        (r.0@, r.1@) == char_name_desc(item@),
{
    let first = match split_once_chars(item, &pat1(':')) {
        Some((n, d)) => (trim_chars(&n), trim_chars(&d)),
        None => (slice_chars(item, 0, item.len()), Vec::new()),
    };
    proof {
        assert(item@.subrange(0, item@.len() as int) =~= item@);
    }
    if first.1.len() == 0 {
        match split_once_chars(item, &pat1('：')) {
            Some((n, d)) => (trim_chars(&n), trim_chars(&d)),
            None => (slice_chars(item, 0, item.len()), Vec::new()),
        }
    } else {
        first
    }
}

/// Applies one comma-separated field to a character.
fn field_step_chars(info: &mut CharacterInfo, segment: &Vec<char>)
    ensures
        final(info)@ == field_step(old(info)@, segment@),
{
    let seg = trim_chars(segment);
    if seg.len() == 0 {
        return;
    }
    match strip_either_chars(&seg, &vec!['外', '貌', '：'], &vec!['外', '貌', ':']) {
        Some(v) => {
            info.appearance = string_of(&trim_chars(&v));
            return;
        },
        None => {},
    }
    match strip_either_chars(&seg, &vec!['动', '机', '：'], &vec!['动', '机', ':']) {
        Some(v) => {
            info.motivation = string_of(&trim_chars(&v));
            return;
        },
        None => {},
    }
    match strip_either_chars(&seg, &vec!['心', '理', '：'], &vec!['心', '理', ':']) {
        Some(v) => {
            info.psychology = string_of(&trim_chars(&v));
            return;
        },
        None => {},
    }
    match strip_either_chars(&seg, &vec!['结', '局', '：'], &vec!['结', '局', ':']) {
        Some(v) => {
            info.fate = string_of(&trim_chars(&v));
            return;
        },
        None => {},
    }
    if info.identity.as_str().is_empty() {
        info.identity = string_of(&seg);
    } else if info.personality.as_str().is_empty() {
        info.personality = string_of(&seg);
    }
}

/// A character from its name and description.
fn character_entry_chars(name: &Vec<char>, desc: &Vec<char>) -> (r: CharacterInfo)
    ensures
        r@ == character_entry(name@, desc@),
{
    let n = desc.len();
    if let Some(p) = find_chars(desc, &pat1('（')) {
        proof {
            assert(first_at(desc@, seq!['（'], p as int));
            assert(occurs_at(desc@, seq!['（'], p as int));
        }
        let after = slice_chars(desc, p + 1, n);
        assert(after@ =~= desc@.skip(p + 1));
        if let Some(q) = find_chars(&after, &pat1('）')) {
            proof {
                assert(first_at(after@, seq!['）'], q as int));
                assert(occurs_at(after@, seq!['）'], q as int));
            }
            let before = slice_chars(desc, 0, p);
            assert(before@ =~= desc@.take(p as int));
            let inside_raw = slice_chars(&after, 0, q);
            assert(inside_raw@ =~= after@.take(q as int));
            let inside = trim_chars(&inside_raw);
            let mut info = CharacterInfo {
                name: string_of(name),
                aliases: string_of(&trim_chars(&before)),
                identity: String::new(),
                personality: String::new(),
                appearance: String::new(),
                motivation: String::new(),
                psychology: String::new(),
                fate: String::new(),
                traits: String::new(),
            };
            let ghost base = info@;
            let segs = split_char_chars(&inside, '，');
            let mut i: usize = 0;
            assert(views(segs@).take(0) =~= Seq::<Seq<char>>::empty());
            while i < segs.len()
                invariant
                    i <= segs.len(),
                    info@ == fold_fields(base, views(segs@).take(i as int)),
                decreases segs.len() - i,
            {
                assert(views(segs@).take(i + 1).drop_last() =~= views(segs@).take(i as int));
                field_step_chars(&mut info, &segs[i]);
                i = i + 1;
            }
            assert(views(segs@).take(segs.len() as int) =~= views(segs@));
            return info;
        }
    }
    CharacterInfo {
        name: string_of(name),
        aliases: String::new(),
        identity: String::new(),
        personality: String::new(),
        appearance: String::new(),
        motivation: String::new(),
        psychology: String::new(),
        fate: String::new(),
        traits: string_of(desc),
    }
}

/// A location from an item line.
fn location_chars(item: &Vec<char>) -> (r: LocationInfo)
    ensures
        r@ == location_of(item@),
{
    match split_once_either_chars(item, &pat1(':'), &pat1('：')) {
        Some((n, d)) => LocationInfo {
            name: string_of(&trim_chars(&n)),
            description: string_of(&trim_chars(&d)),
        },
        None => LocationInfo { name: string_of(item), description: String::new() },
    }
}

/// A relationship from an item line.
fn relationship_chars(item: &Vec<char>) -> (r: Option<RelationshipInfo>)
    ensures
        match r {
            Some(x) => relationship_of(item@) == Some(x@),
            None => relationship_of(item@) is None,
        },
{
    match split_once_either_chars(item, &pat1('→'), &vec!['-', '>']) {
        Some((a, b)) => {
            let after = trim_chars(&b);
            let (to, desc) = match split_once_either_chars(&after, &pat1(':'), &pat1('：')) {
                Some((t, d)) => (trim_chars(&t), trim_chars(&d)),
                None => (slice_chars(&after, 0, after.len()), Vec::new()),
            };
            proof {
                assert(after@.subrange(0, after@.len() as int) =~= after@);
            }
            Some(
                RelationshipInfo {
                    from: string_of(&trim_chars(&a)),
                    to: string_of(&to),
                    rel_type: "knows".to_owned(),
                    description: string_of(&desc),
                },
            )
        },
        None => None,
    }
}

/// A plot phase from an item line.
fn plot_phase_chars(item: &Vec<char>) -> (r: Option<PlotPhaseInfo>)
    ensures
        match r {
            Some(x) => plot_phase_of(item@) == Some(x@),
            None => plot_phase_of(item@) is None,
        },
{
    match split_once_either_chars(item, &pat1('：'), &pat1(':')) {
        Some((phase, rest)) => {
            let phase = string_of(&trim_chars(&phase));
            match split_once_chars(&rest, &pat1('，')) {
                Some((ch, d)) => Some(
                    PlotPhaseInfo {
                        phase,
                        chapters: string_of(&trim_chars(&ch)),
                        description: string_of(&trim_chars(&d)),
                    },
                ),
                None => Some(
                    PlotPhaseInfo {
                        phase,
                        chapters: string_of(&trim_chars(&rest)),
                        description: String::new(),
                    },
                ),
            }
        },
        None => None,
    }
}

/// A conflict from an item line.
fn conflict_chars(item: &Vec<char>) -> (r: Option<ConflictInfo>)
    ensures
        match r {
            Some(x) => conflict_of(item@) == Some(x@),
            None => conflict_of(item@) is None,
        },
{
    match split_once_either_chars(item, &pat1('→'), &vec!['-', '>']) {
        Some((a, b)) => Some(
            ConflictInfo { parties: string_of(&trim_chars(&a)), nature: string_of(&trim_chars(&b)) },
        ),
        None => match split_once_chars(item, &pat1('：')) {
            Some((a, b)) => Some(
                ConflictInfo {
                    parties: string_of(&trim_chars(&a)),
                    nature: string_of(&trim_chars(&b)),
                },
            ),
            None => None,
        },
    }
}

/// Applies one environment line.
fn env_step_chars(found: &mut bool, env: &mut SocialEnvInfo, item: &Vec<char>)
    ensures
        (*final(found), final(env)@) == env_step((*old(found), old(env)@), item@),
{
    match split_once_either_chars(item, &pat1('：'), &pat1(':')) {
        Some((k, v)) => {
            *found = true;
            let key = trim_chars(&k);
            let val = trim_chars(&v);
            if chars_eq(&key, &vec!['时', '代']) {
                env.era = string_of(&val);
            } else if chars_eq(&key, &vec!['社', '会']) {
                env.society = string_of(&val);
            } else if chars_eq(&key, &vec!['风', '俗']) {
                env.customs = string_of(&val);
            } else if chars_eq(&key, &vec!['文', '化']) {
                env.culture = string_of(&val);
            }
        },
        None => {},
    }
}

/// A foreshadowing from an item line.
fn foreshadow_chars(item: &Vec<char>) -> (r: Option<ForeshadowInfo>)
    ensures
        match r {
            Some(x) => foreshadow_of(item@) == Some(x@),
            None => foreshadow_of(item@) is None,
        },
{
    match split_once_either_chars(item, &pat1('：'), &pat1(':')) {
        Some((arrow, d)) => match split_once_either_chars(&arrow, &pat1('→'), &vec!['-', '>']) {
            Some((s, t)) => Some(
                ForeshadowInfo {
                    source: string_of(&trim_chars(&s)),
                    target: string_of(&trim_chars(&t)),
                    description: string_of(&trim_chars(&d)),
                },
            ),
            None => None,
        },
        None => None,
    }
}

/// `s` without the prefix `p` (or else `q`), or `s` itself.
fn strip_either_or_self_chars(s: &Vec<char>, p: &Vec<char>, q: &Vec<char>) -> (r: Vec<char>)
    ensures
        r@ == strip_either_or_self(s@, p@, q@),
{
    match strip_either_chars(s, p, q) {
        Some(t) => t,
        None => {
            let t = slice_chars(s, 0, s.len());
            assert(t@ =~= s@);
            t
        },
    }
}

/// A twist from an item line.
fn twist_chars(item: &Vec<char>) -> (r: Option<TwistInfo>)
    ensures
        match r {
            Some(x) => twist_of(item@) == Some(x@),
            None => twist_of(item@) is None,
        },
{
    match split_once_either_chars(item, &pat1('→'), &vec!['-', '>']) {
        Some((b, a)) => {
            let e = strip_either_or_self_chars(
                &trim_chars(&b),
                &vec!['预', '期', '：'],
                &vec!['预', '期', ':'],
            );
            let x = strip_either_or_self_chars(
                &trim_chars(&a),
                &vec!['实', '际', '：'],
                &vec!['实', '际', ':'],
            );
            Some(
                TwistInfo {
                    expectation: string_of(&e),
                    reality: string_of(&x),
                    description: String::new(),
                },
            )
        },
        None => None,
    }
}

/// Appends the tags of a list of pieces under a category.
fn push_tag_list(category: &Vec<char>, pieces: &Vec<Vec<char>>, out: &mut Vec<TagInfo>)
    ensures
        seq_views(final(out)@) == seq_views(old(out)@) + tag_list(category@, views(pieces@)),
{
    let ghost start = seq_views(out@);
    let mut i: usize = 0;
    while i < pieces.len()
        invariant
            i <= pieces.len(),
            seq_views(out@) == start + tag_list(category@, views(pieces@).take(i as int)),
        decreases pieces.len() - i,
    {
        assert(views(pieces@).take(i + 1).drop_last() =~= views(pieces@).take(i as int));
        assert(views(pieces@).take(i + 1).last() == pieces@[i as int]@);
        let t = trim_chars(&pieces[i]);
        if t.len() > 0 {
            let ghost before = seq_views(out@);
            out.push(TagInfo { category: string_of(category), name: string_of(&t) });
            assert(seq_views(out@) =~= before.push(out@.last()@));
        }
        i = i + 1;
    }
    assert(views(pieces@).take(pieces.len() as int) =~= views(pieces@));
}

/// Appends the tags of an item line.
fn push_item_tags(item: &Vec<char>, out: &mut Vec<TagInfo>)
    ensures
        seq_views(final(out)@) == seq_views(old(out)@) + tags_of_item(item@),
{
    match split_once_either_chars(item, &pat1('：'), &pat1(':')) {
        Some((c, l)) => {
            let pieces = split_char_chars(&trim_chars(&l), '、');
            push_tag_list(&trim_chars(&c), &pieces, out);
        },
        None => {
            let pieces = split_char_chars(item, '、');
            let empty: Vec<char> = Vec::new();
            assert(empty@ =~= Seq::<char>::empty());
            push_tag_list(&empty, &pieces, out);
        },
    }
}

// ============================================================
// The pass
// ============================================================

/// The chapter parsing pass: extracts characters, locations, relationships
/// and the other structured sections of each chapter file.
pub struct ParseChapterPass;

impl ParseChapterPass {
    /// The name of the pass.
    pub fn name(&self) -> (r: &'static str)
        ensures
            r@ == "parse_chapter"@,
    {
        "parse_chapter"
    }

    /// The characters of the `## 角色` (or `## 人物`) sections.
    pub fn extract_chars(content: &str) -> (r: Vec<CharacterInfo>)
        ensures
            seq_views(r@) == spec_characters(content@),
    {
        let items = section_items_chars(&chars_of(content), &vec!['角', '色'], &vec!['人', '物']);
        let mut out: Vec<CharacterInfo> = Vec::new();
        let mut i: usize = 0;
        while i < items.len()
            invariant
                i <= items.len(),
                seq_views(out@) == views(items@).take(i as int).map_values(|item: Seq<char>| character_entry(char_name_desc(item).0, char_name_desc(item).1)),
            decreases items.len() - i,
        {
            let (name, desc) = char_name_desc_chars(&items[i]);
            let c = character_entry_chars(&name, &desc);
            let ghost before = seq_views(out@);
            let ghost prev = views(items@).take(i as int);
            assert(views(items@).take(i + 1) =~= prev.push(items@[i as int]@));
            out.push(c);
            assert(seq_views(out@) =~= before.push(c@));
            assert(prev.push(items@[i as int]@).map_values(|item: Seq<char>| character_entry(char_name_desc(item).0, char_name_desc(item).1)) =~= prev.map_values(|item: Seq<char>| character_entry(char_name_desc(item).0, char_name_desc(item).1)).push(c@));
            i = i + 1;
        }
        assert(views(items@).take(items.len() as int) =~= views(items@));
        out
    }

    /// Parses a character entry: `aliases（identity，personality，外貌：…）` or
    /// a plain description, which becomes the traits.
    pub fn parse_character_entry(name: &str, desc: &str) -> (r: CharacterInfo)
        ensures
            r@ == character_entry(name@, desc@),
    {
        character_entry_chars(&chars_of(name), &chars_of(desc))
    }

    /// The locations of the `## 地点` (or `## 场所`) sections.
    pub fn extract_locations(content: &str) -> (r: Vec<LocationInfo>)
        ensures
            seq_views(r@) == spec_locations(content@),
    {
        let items = section_items_chars(&chars_of(content), &vec!['地', '点'], &vec!['场', '所']);
        let mut out: Vec<LocationInfo> = Vec::new();
        let mut i: usize = 0;
        while i < items.len()
            invariant
                i <= items.len(),
                seq_views(out@) == views(items@).take(i as int).map_values(|item: Seq<char>| location_of(item)),
            decreases items.len() - i,
        {
            let c = location_chars(&items[i]);
            let ghost before = seq_views(out@);
            let ghost prev = views(items@).take(i as int);
            assert(views(items@).take(i + 1) =~= prev.push(items@[i as int]@));
            out.push(c);
            assert(seq_views(out@) =~= before.push(c@));
            assert(prev.push(items@[i as int]@).map_values(|item: Seq<char>| location_of(item)) =~= prev.map_values(|item: Seq<char>| location_of(item)).push(c@));
            i = i + 1;
        }
        assert(views(items@).take(items.len() as int) =~= views(items@));
        out
    }

    /// The relationships of the `## 关系` (or `## 关系图谱`) sections.
    pub fn extract_relationships(content: &str) -> (r: Vec<RelationshipInfo>)
        ensures
            seq_views(r@) == spec_relationships(content@),
    {
        let items = section_items_chars(
            &chars_of(content),
            &vec!['关', '系'],
            &vec!['关', '系', '图', '谱'],
        );
        let mut out: Vec<RelationshipInfo> = Vec::new();
        let mut i: usize = 0;
        while i < items.len()
            invariant
                i <= items.len(),
                seq_views(out@) == relationships_of(views(items@).take(i as int)),
            decreases items.len() - i,
        {
            assert(views(items@).take(i + 1).drop_last() =~= views(items@).take(i as int));
            let ghost before = seq_views(out@);
            match relationship_chars(&items[i]) {
                Some(x) => {
                    out.push(x);
                    assert(seq_views(out@) =~= before.push(out@.last()@));
                },
                None => {},
            }
            i = i + 1;
        }
        assert(views(items@).take(items.len() as int) =~= views(items@));
        out
    }

    /// The plot phases of the `## 情节脉络` (or `## 结构`) sections.
    pub fn extract_plot_phases(content: &str) -> (r: Vec<PlotPhaseInfo>)
        ensures
            seq_views(r@) == spec_plot_phases(content@),
    {
        let items = section_items_chars(
            &chars_of(content),
            &vec!['情', '节', '脉', '络'],
            &vec!['结', '构'],
        );
        let mut out: Vec<PlotPhaseInfo> = Vec::new();
        let mut i: usize = 0;
        while i < items.len()
            invariant
                i <= items.len(),
                seq_views(out@) == plot_phases_of(views(items@).take(i as int)),
            decreases items.len() - i,
        {
            assert(views(items@).take(i + 1).drop_last() =~= views(items@).take(i as int));
            let ghost before = seq_views(out@);
            match plot_phase_chars(&items[i]) {
                Some(x) => {
                    out.push(x);
                    assert(seq_views(out@) =~= before.push(out@.last()@));
                },
                None => {},
            }
            i = i + 1;
        }
        assert(views(items@).take(items.len() as int) =~= views(items@));
        out
    }

    /// The conflicts of the `## 冲突` (or `## 矛盾`) sections.
    pub fn extract_conflicts(content: &str) -> (r: Vec<ConflictInfo>)
        ensures
            seq_views(r@) == spec_conflicts(content@),
    {
        let items = section_items_chars(&chars_of(content), &vec!['冲', '突'], &vec!['矛', '盾']);
        let mut out: Vec<ConflictInfo> = Vec::new();
        let mut i: usize = 0;
        while i < items.len()
            invariant
                i <= items.len(),
                seq_views(out@) == conflicts_of(views(items@).take(i as int)),
            decreases items.len() - i,
        {
            assert(views(items@).take(i + 1).drop_last() =~= views(items@).take(i as int));
            let ghost before = seq_views(out@);
            match conflict_chars(&items[i]) {
                Some(x) => {
                    out.push(x);
                    assert(seq_views(out@) =~= before.push(out@.last()@));
                },
                None => {},
            }
            i = i + 1;
        }
        assert(views(items@).take(items.len() as int) =~= views(items@));
        out
    }

    /// The social environment of the `## 环境` (or `## 背景`) sections, if any
    /// of their lines is a `key：value` pair.
    pub fn extract_environment(content: &str) -> (r: Option<SocialEnvInfo>)
        ensures
            match r {
                Some(e) => spec_environment(content@) == Some(e@),
                None => spec_environment(content@) is None,
            },
    {
        let items = section_items_chars(&chars_of(content), &vec!['环', '境'], &vec!['背', '景']);
        let mut env = SocialEnvInfo {
            era: String::new(),
            society: String::new(),
            customs: String::new(),
            culture: String::new(),
        };
        let mut found = false;
        let mut i: usize = 0;
        assert(views(items@).take(0) =~= Seq::<Seq<char>>::empty());
        while i < items.len()
            invariant
                i <= items.len(),
                (found, env@) == env_scan(views(items@).take(i as int)),
            decreases items.len() - i,
        {
            assert(views(items@).take(i + 1).drop_last() =~= views(items@).take(i as int));
            env_step_chars(&mut found, &mut env, &items[i]);
            i = i + 1;
        }
        assert(views(items@).take(items.len() as int) =~= views(items@));
        if found {
            Some(env)
        } else {
            None
        }
    }

    /// The foreshadowings of the `## 伏笔` (or `## 铺垫`) sections.
    pub fn extract_foreshadows(content: &str) -> (r: Vec<ForeshadowInfo>)
        ensures
            seq_views(r@) == spec_foreshadows(content@),
    {
        let items = section_items_chars(&chars_of(content), &vec!['伏', '笔'], &vec!['铺', '垫']);
        let mut out: Vec<ForeshadowInfo> = Vec::new();
        let mut i: usize = 0;
        while i < items.len()
            invariant
                i <= items.len(),
                seq_views(out@) == foreshadows_of(views(items@).take(i as int)),
            decreases items.len() - i,
        {
            assert(views(items@).take(i + 1).drop_last() =~= views(items@).take(i as int));
            let ghost before = seq_views(out@);
            match foreshadow_chars(&items[i]) {
                Some(x) => {
                    out.push(x);
                    assert(seq_views(out@) =~= before.push(out@.last()@));
                },
                None => {},
            }
            i = i + 1;
        }
        assert(views(items@).take(items.len() as int) =~= views(items@));
        out
    }

    /// The twists of the `## 反转` (or `## 转折`) sections.
    pub fn extract_twists(content: &str) -> (r: Vec<TwistInfo>)
        ensures
            seq_views(r@) == spec_twists(content@),
    {
        let items = section_items_chars(&chars_of(content), &vec!['反', '转'], &vec!['转', '折']);
        let mut out: Vec<TwistInfo> = Vec::new();
        let mut i: usize = 0;
        while i < items.len()
            invariant
                i <= items.len(),
                seq_views(out@) == twists_of(views(items@).take(i as int)),
            decreases items.len() - i,
        {
            assert(views(items@).take(i + 1).drop_last() =~= views(items@).take(i as int));
            let ghost before = seq_views(out@);
            match twist_chars(&items[i]) {
                Some(x) => {
                    out.push(x);
                    assert(seq_views(out@) =~= before.push(out@.last()@));
                },
                None => {},
            }
            i = i + 1;
        }
        assert(views(items@).take(items.len() as int) =~= views(items@));
        out
    }

    /// The tags of the `## 标签` sections: `category：a、b、c` lines, each tag
    /// trimmed and empty ones left out.
    pub fn extract_tags(content: &str) -> (r: Vec<TagInfo>)
        ensures
            seq_views(r@) == spec_tags(content@),
    {
        let items = section_items_chars(&chars_of(content), &vec!['标', '签'], &vec!['标', '签']);
        let mut out: Vec<TagInfo> = Vec::new();
        let mut i: usize = 0;
        while i < items.len()
            invariant
                i <= items.len(),
                seq_views(out@) == tags_of(views(items@).take(i as int)),
            decreases items.len() - i,
        {
            assert(views(items@).take(i + 1).drop_last() =~= views(items@).take(i as int));
            assert(views(items@).take(i + 1).last() == items@[i as int]@);
            push_item_tags(&items[i], &mut out);
            i = i + 1;
        }
        assert(views(items@).take(items.len() as int) =~= views(items@));
        out
    }
}

// ============================================================
// Parsed files
// ============================================================

/// What a chapter file yields.
pub struct ParsedSpec {
    pub file_id: i64,
    pub file_name: Seq<char>,
    pub characters: Seq<CharacterSpec>,
    pub locations: Seq<LocationSpec>,
    pub relationships: Seq<RelationshipSpec>,
    pub plot_phases: Seq<PlotPhaseSpec>,
    pub conflicts: Seq<ConflictSpec>,
    pub environment: Option<SocialEnvSpec>,
    pub foreshadows: Seq<ForeshadowSpec>,
    pub twists: Seq<TwistSpec>,
    pub tags: Seq<TagSpec>,
}

/// The parse result of one chapter file.
pub struct ParsedFile {
    /// Id of the file node.
    pub file_id: i64,
    /// The file name.
    pub file_name: String,
    /// Characters.
    pub characters: Vec<CharacterInfo>,
    /// Locations.
    pub locations: Vec<LocationInfo>,
    /// Relationships.
    pub relationships: Vec<RelationshipInfo>,
    /// Plot phases.
    pub plot_phases: Vec<PlotPhaseInfo>,
    /// Conflicts.
    pub conflicts: Vec<ConflictInfo>,
    /// The social environment, if described.
    pub environment: Option<SocialEnvInfo>,
    /// Foreshadowings.
    pub foreshadows: Vec<ForeshadowInfo>,
    /// Twists.
    pub twists: Vec<TwistInfo>,
    /// Tags.
    pub tags: Vec<TagInfo>,
}

impl View for ParsedFile {
    type V = ParsedSpec;

    open spec fn view(&self) -> ParsedSpec {
        ParsedSpec {
            file_id: self.file_id,
            file_name: self.file_name@,
            characters: seq_views(self.characters@),
            locations: seq_views(self.locations@),
            relationships: seq_views(self.relationships@),
            plot_phases: seq_views(self.plot_phases@),
            conflicts: seq_views(self.conflicts@),
            environment: match self.environment {
                Some(e) => Some(e@),
                None => None,
            },
            foreshadows: seq_views(self.foreshadows@),
            twists: seq_views(self.twists@),
            tags: seq_views(self.tags@),
        }
    }
}

impl ParsedFile {
    /// Parses the content of a chapter file.
    pub fn from_content(file_id: i64, file_name: &str, content: &str) -> (r: ParsedFile)
        ensures
            r@ == (ParsedSpec {
                file_id,
                file_name: file_name@,
                characters: spec_characters(content@),
                locations: spec_locations(content@),
                relationships: spec_relationships(content@),
                plot_phases: spec_plot_phases(content@),
                conflicts: spec_conflicts(content@),
                environment: spec_environment(content@),
                foreshadows: spec_foreshadows(content@),
                twists: spec_twists(content@),
                tags: spec_tags(content@),
            }),
    {
        ParsedFile {
            file_id,
            file_name: file_name.to_owned(),
            characters: ParseChapterPass::extract_chars(content),
            locations: ParseChapterPass::extract_locations(content),
            relationships: ParseChapterPass::extract_relationships(content),
            plot_phases: ParseChapterPass::extract_plot_phases(content),
            conflicts: ParseChapterPass::extract_conflicts(content),
            environment: ParseChapterPass::extract_environment(content),
            foreshadows: ParseChapterPass::extract_foreshadows(content),
            twists: ParseChapterPass::extract_twists(content),
            tags: ParseChapterPass::extract_tags(content),
        }
    }
}

} // verus!
