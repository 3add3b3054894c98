//! Character-level text helpers with their specifications.
//!
//! Text is handled as sequences of Unicode scalar values (`char`), which is
//! how `str` and `String` are viewed in specifications.

use vstd::prelude::*;

verus! {

broadcast use vstd::seq_lib::group_seq_properties;

/// The characters of a list of character vectors.
pub open spec fn views(v: Seq<Vec<char>>) -> Seq<Seq<char>> {
    v.map_values(|x: Vec<char>| x@)
}

/// The views of a sequence of values.
pub open spec fn seq_views<T: View>(v: Seq<T>) -> Seq<T::V> {
    v.map_values(|x: T| x@)
}

/// Equality of two string slices, by their characters.
pub fn str_eq(a: &str, b: &str) -> (r: bool)
    ensures
        r == (a@ == b@),
{
    let x = a.to_owned();
    let y = b.to_owned();
    x == y
}

/// The characters of a string slice.
pub fn chars_of(s: &str) -> (v: Vec<char>)
    ensures
        v@ == s@,
{
    let mut v: Vec<char> = Vec::new();
    for c in it: s.chars()
        invariant
            v@ == it.seq().take(it.index() as int),
            it.seq() == s@,
    {
        v.push(c);
    }
    assert(v@ =~= s@);
    v
}

/// A string made of the given characters, by `String`'s `FromIterator<char>`.
/// Claimed of std: the string holds exactly these characters, in order.
#[verifier::external_body]
pub(crate) fn string_of(v: &Vec<char>) -> (s: String)
    ensures
        s@ == v@,
{
    v.iter().collect()
}

/// Unicode `White_Space`, as `char::is_whitespace` tests it.
pub open spec fn is_ws(c: char) -> bool {
    let u = c as u32;
    ||| u == 0x20
    ||| 0x09 <= u <= 0x0d
    ||| u == 0x85
    ||| u == 0xa0
    ||| u == 0x1680
    ||| 0x2000 <= u <= 0x200a
    ||| u == 0x2028
    ||| u == 0x2029
    ||| u == 0x202f
    ||| u == 0x205f
    ||| u == 0x3000
}

/// Whether a character is white space.
pub fn is_whitespace(c: char) -> (r: bool)
    ensures
        r == is_ws(c),
{
    let u = c as u32;
    u == 0x20 || (0x09 <= u && u <= 0x0d) || u == 0x85 || u == 0xa0 || u == 0x1680 || (0x2000
        <= u && u <= 0x200a) || u == 0x2028 || u == 0x2029 || u == 0x202f || u == 0x205f || u
        == 0x3000
}

/// `s` without its leading white space.
pub open spec fn trim_start(s: Seq<char>) -> Seq<char>
    decreases s.len(),
{
    if s.len() > 0 && is_ws(s[0]) {
        trim_start(s.drop_first())
    } else {
        s
    }
}

/// `s` without its trailing white space.
pub open spec fn trim_end(s: Seq<char>) -> Seq<char>
    decreases s.len(),
{
    if s.len() > 0 && is_ws(s.last()) {
        trim_end(s.drop_last())
    } else {
        s
    }
}

/// `s` without leading and trailing white space, as `str::trim` gives it.
pub open spec fn trim(s: Seq<char>) -> Seq<char> {
    trim_end(trim_start(s))
}

/// The characters of `s` from `lo` up to `hi`.
pub fn slice_chars(s: &Vec<char>, lo: usize, hi: usize) -> (r: Vec<char>)
    requires
        lo <= hi <= s.len(),
    ensures
        r@ == s@.subrange(lo as int, hi as int),
{
    let mut r: Vec<char> = Vec::new();
    let mut i = lo;
    while i < hi
        invariant
            lo <= i <= hi <= s.len(),
            r@ == s@.subrange(lo as int, i as int),
        decreases hi - i,
    {
        r.push(s[i]);
        i = i + 1;
    }
    r
}

proof fn lemma_trim_start_step(s: Seq<char>, i: int)
    requires
        0 <= i < s.len(),
        is_ws(s[i]),
    ensures
        trim_start(s.subrange(i, s.len() as int)) == trim_start(s.subrange(i + 1, s.len() as int)),
{
    assert(s.subrange(i, s.len() as int).drop_first() =~= s.subrange(i + 1, s.len() as int));
}

proof fn lemma_trim_end_step(s: Seq<char>, hi: int)
    requires
        0 < hi <= s.len(),
        is_ws(s[hi - 1]),
    ensures
        trim_end(s.subrange(0, hi)) == trim_end(s.subrange(0, hi - 1)),
{
    assert(s.subrange(0, hi).drop_last() =~= s.subrange(0, hi - 1));
}

/// `s` without leading and trailing white space.
#[verifier::rlimit(40)]
pub fn trim_chars(s: &Vec<char>) -> (r: Vec<char>)
    ensures
        r@ == trim(s@),
{
    let n = s.len();
    let mut lo: usize = 0;
    assert(s@.subrange(0, n as int) =~= s@);
    while lo < n && is_whitespace(s[lo])
        invariant
            lo <= n == s.len(),
            trim_start(s@) == trim_start(s@.subrange(lo as int, n as int)),
        decreases n - lo,
    {
        proof {
            lemma_trim_start_step(s@, lo as int);
        }
        lo = lo + 1;
    }
    let ghost t = s@.subrange(lo as int, n as int);
    assert(trim_start(s@) == t);
    let mut hi: usize = n;
    assert(t.subrange(0, t.len() as int) =~= t);
    while hi > lo && is_whitespace(s[hi - 1])
        invariant
            lo <= hi <= n == s.len(),
            t == s@.subrange(lo as int, n as int),
            trim_end(t) == trim_end(t.subrange(0, hi - lo)),
        decreases hi,
    {
        proof {
            lemma_trim_end_step(t, (hi - lo) as int);
        }
        hi = hi - 1;
    }
    assert(t.subrange(0, hi - lo) =~= s@.subrange(lo as int, hi as int));
    slice_chars(s, lo, hi)
}

/// What `trim_start` leaves is empty or starts with a non-space.
proof fn lemma_trim_start_shape(s: Seq<char>)
    ensures
        trim_start(s).len() == 0 || !is_ws(trim_start(s)[0]),
    decreases s.len(),
{
    if s.len() > 0 && is_ws(s[0]) {
        lemma_trim_start_shape(s.drop_first());
    }
}

/// What `trim_end` leaves is empty or ends with a non-space.
pub proof fn lemma_trim_end_shape(s: Seq<char>)
    ensures
        trim_end(s).len() == 0 || !is_ws(trim_end(s).last()),
    decreases s.len(),
{
    if s.len() > 0 && is_ws(s.last()) {
        lemma_trim_end_shape(s.drop_last());
    }
}

/// `trim_start` of a text with one more character at its end.
proof fn lemma_trim_start_push(s: Seq<char>)
    requires
        s.len() > 0,
    ensures
        trim_start(s) == (if trim_start(s.drop_last()).len() == 0 && is_ws(s.last()) {
            Seq::<char>::empty()
        } else {
            trim_start(s.drop_last()).push(s.last())
        }),
    decreases s.len(),
{
    if s.len() == 1 {
        assert(s.drop_last() =~= Seq::<char>::empty());
        if !is_ws(s[0]) {
            assert(Seq::<char>::empty().push(s.last()) =~= s);
        } else {
            assert(s.drop_first() =~= Seq::<char>::empty());
        }
    } else if is_ws(s[0]) {
        lemma_trim_start_push(s.drop_first());
        assert(s.drop_first().drop_last() =~= s.drop_last().drop_first());
        assert(s.drop_first().last() == s.last());
    } else {
        assert(s.drop_last().push(s.last()) =~= s);
    }
}

/// A text that ends in a non-space is not trimmed to nothing.
pub proof fn lemma_trim_nonempty(x: Seq<char>)
    requires
        x.len() > 0,
        !is_ws(x.last()),
    ensures
        trim(x).len() > 0,
{
    lemma_trim_start_push(x);
}

/// Trimming both ends does not depend on which end goes first.
proof fn lemma_trim_commute(s: Seq<char>)
    ensures
        trim_start(trim_end(s)) == trim_end(trim_start(s)),
    decreases s.len(),
{
    if s.len() > 0 {
        lemma_trim_start_push(s);
        let t = trim_start(s.drop_last());
        if is_ws(s.last()) {
            lemma_trim_commute(s.drop_last());
            if t.len() != 0 {
                assert(t.push(s.last()).drop_last() =~= t);
            }
        } else {
            assert(t.push(s.last()).last() == s.last());
        }
    }
}

/// Trimming a text whose start is already trimmed is trimming it.
pub proof fn lemma_trim_of_trim_start(s: Seq<char>)
    ensures
        trim(trim_start(s)) == trim(s),
{
    lemma_trim_start_shape(s);
}

/// Trimming a text whose end is already trimmed is trimming it.
pub proof fn lemma_trim_of_trim_end(s: Seq<char>)
    ensures
        trim(trim_end(s)) == trim(s),
{
    lemma_trim_commute(s);
    lemma_trim_commute(trim_end(s));
    lemma_trim_end_shape(s);
    lemma_trim_end_shape(trim_start(s));
    lemma_trim_commute(trim_start(s));
}

proof fn lemma_trim_start_join(b: Seq<char>, c: char, d: Seq<char>)
    requires
        !is_ws(c),
    ensures
        trim_start(b + seq![c] + d) == trim_start(b) + seq![c] + d,
    decreases b.len(),
{
    if b.len() > 0 && is_ws(b[0]) {
        assert((b + seq![c] + d).drop_first() =~= b.drop_first() + seq![c] + d);
        lemma_trim_start_join(b.drop_first(), c, d);
    } else if b.len() == 0 {
        assert(b + seq![c] + d =~= seq![c] + d);
    }
}

proof fn lemma_trim_end_join(b: Seq<char>, c: char, d: Seq<char>)
    requires
        !is_ws(c),
    ensures
        trim_end(b + seq![c] + d) == b + seq![c] + trim_end(d),
    decreases d.len(),
{
    if d.len() > 0 && is_ws(d.last()) {
        assert((b + seq![c] + d).drop_last() =~= b + seq![c] + d.drop_last());
        lemma_trim_end_join(b, c, d.drop_last());
    } else if d.len() == 0 {
        assert(b + seq![c] + d =~= b + seq![c]);
    }
}

/// Trimming a text with a non-space `c` inside trims only what lies before
/// `c` at its start and what lies after `c` at its end.
pub proof fn lemma_trim_join(b: Seq<char>, c: char, d: Seq<char>)
    requires
        !is_ws(c),
    ensures
        trim(b + seq![c] + d) == trim_start(b) + seq![c] + trim_end(d),
{
    lemma_trim_start_join(b, c, d);
    lemma_trim_end_join(trim_start(b), c, d);
}

/// Trimming the start brings in no character.
pub proof fn lemma_trim_start_lacks(s: Seq<char>, x: char)
    requires
        !s.contains(x),
    ensures
        !trim_start(s).contains(x),
    decreases s.len(),
{
    if s.len() > 0 && is_ws(s[0]) {
        assert forall|i: int| 0 <= i < s.len() - 1 implies s.drop_first()[i] != x by {
            assert(s.drop_first()[i] == s[i + 1]);
        }
        lemma_trim_start_lacks(s.drop_first(), x);
    }
}

/// Trimming the end brings in no character.
pub proof fn lemma_trim_end_lacks(s: Seq<char>, x: char)
    requires
        !s.contains(x),
    ensures
        !trim_end(s).contains(x),
    decreases s.len(),
{
    if s.len() > 0 && is_ws(s.last()) {
        assert forall|i: int| 0 <= i < s.len() - 1 implies s.drop_last()[i] != x by {
            assert(s.drop_last()[i] == s[i]);
        }
        lemma_trim_end_lacks(s.drop_last(), x);
    }
}

/// Whether `s` starts with `p`.
pub open spec fn has_prefix(s: Seq<char>, p: Seq<char>) -> bool {
    p.len() <= s.len() && s.subrange(0, p.len() as int) == p
}

/// `s` with the prefix `p` removed, as `str::strip_prefix` gives it.
pub open spec fn strip_prefix(s: Seq<char>, p: Seq<char>) -> Option<Seq<char>> {
    if has_prefix(s, p) {
        Some(s.skip(p.len() as int))
    } else {
        None
    }
}

/// Whether `p` occurs in `s` at position `i`.
pub open spec fn occurs_at(s: Seq<char>, p: Seq<char>, i: int) -> bool {
    0 <= i && i + p.len() <= s.len() && s.subrange(i, i + p.len()) == p
}

/// Whether `i` is the first position at which `p` occurs in `s`.
pub open spec fn first_at(s: Seq<char>, p: Seq<char>, i: int) -> bool {
    occurs_at(s, p, i) && forall|j: int| 0 <= j < i ==> !#[trigger] occurs_at(s, p, j)
}

/// The first position of `p` in `s`, as `str::find` gives it (counted in characters).
pub open spec fn find(s: Seq<char>, p: Seq<char>) -> Option<int> {
    if exists|i: int| first_at(s, p, i) {
        Some(choose|i: int| first_at(s, p, i))
    } else {
        None
    }
}

/// The parts of `s` before and after the first `p`, as `str::split_once` gives them.
pub open spec fn split_once(s: Seq<char>, p: Seq<char>) -> Option<(Seq<char>, Seq<char>)> {
    match find(s, p) {
        Some(i) => Some((s.take(i), s.skip(i + p.len()))),
        None => None,
    }
}

/// `split_once` by `p`, and failing that by `q` (`split_once(p).or_else(|| split_once(q))`).
pub open spec fn split_once_either(s: Seq<char>, p: Seq<char>, q: Seq<char>) -> Option<
    (Seq<char>, Seq<char>),
> {
    match split_once(s, p) {
        Some(r) => Some(r),
        None => split_once(s, q),
    }
}

/// `strip_prefix` by `p`, and failing that by `q`.
pub open spec fn strip_either(s: Seq<char>, p: Seq<char>, q: Seq<char>) -> Option<Seq<char>> {
    match strip_prefix(s, p) {
        Some(r) => Some(r),
        None => strip_prefix(s, q),
    }
}

proof fn lemma_first_unique(s: Seq<char>, p: Seq<char>, i: int, k: int)
    requires
        first_at(s, p, i),
        first_at(s, p, k),
    ensures
        i == k,
{
    if i < k {
        assert(occurs_at(s, p, i));
    } else if k < i {
        assert(occurs_at(s, p, k));
    }
}

/// A pattern whose first character does not occur in a text is not found in it.
pub proof fn lemma_find_absent(s: Seq<char>, p: Seq<char>)
    requires
        p.len() > 0,
        !s.contains(p[0]),
    ensures
        find(s, p) is None,
{
    assert forall|i: int| !#[trigger] first_at(s, p, i) by {
        if first_at(s, p, i) {
            assert(s.subrange(i, i + p.len())[0] == s[i]);
            assert(s.contains(s[i]));
        }
    }
}

/// A character that neither part contains, and that is not the separator,
/// is not in the joined text.
pub proof fn lemma_join_lacks(a: Seq<char>, c: char, b: Seq<char>, x: char)
    requires
        !a.contains(x),
        !b.contains(x),
        c != x,
    ensures
        !(a + seq![c] + b).contains(x),
{
    let s = a + seq![c] + b;
    assert forall|i: int| 0 <= i < s.len() implies s[i] != x by {
        if i < a.len() {
            assert(s[i] == a[i]);
            if a[i] == x {
                assert(a.contains(a[i]));
            }
        } else if i > a.len() {
            assert(s[i] == b[i - a.len() - 1]);
            if b[i - a.len() - 1] == x {
                assert(b.contains(b[i - a.len() - 1]));
            }
        }
    }
}

/// A text made of `a`, the character `c` and `b`, where `a` does not contain
/// `c`, splits at that `c` into `a` and `b`.
pub proof fn lemma_split_once_char(a: Seq<char>, c: char, b: Seq<char>)
    requires
        !a.contains(c),
    ensures
        split_once(a + seq![c] + b, seq![c]) == Some((a, b)),
{
    let s = a + seq![c] + b;
    let n = a.len() as int;
    assert(s.subrange(n, n + 1) =~= seq![c]);
    assert(occurs_at(s, seq![c], n));
    assert forall|j: int| 0 <= j < n implies !#[trigger] occurs_at(s, seq![c], j) by {
        if occurs_at(s, seq![c], j) {
            assert(s.subrange(j, j + 1)[0] == s[j]);
            assert(s[j] == a[j]);
            assert(a.contains(a[j]));
        }
    }
    assert(first_at(s, seq![c], n));
    let k = choose|k: int| first_at(s, seq![c], k);
    lemma_first_unique(s, seq![c], n, k);
    assert(s.take(n) =~= a);
    assert(s.skip(n + 1) =~= b);
}

/// Whether `p` occurs in `s` at position `i`.
pub fn matches_at(s: &Vec<char>, p: &Vec<char>, i: usize) -> (r: bool)
    ensures
        r == occurs_at(s@, p@, i as int),
{
    if p.len() > s.len() || i > s.len() - p.len() {
        return false;
    }
    let mut k: usize = 0;
    while k < p.len()
        invariant
            i + p.len() <= s.len(),
            k <= p.len(),
            forall|j: int| 0 <= j < k ==> s@[i + j] == p@[j],
        decreases p.len() - k,
    {
        if s[i + k] != p[k] {
            assert(s@.subrange(i as int, i + p.len())[k as int] != p@[k as int]);
            return false;
        }
        k = k + 1;
    }
    assert(s@.subrange(i as int, i + p.len()) =~= p@);
    true
}

/// The first position of `p` in `s`.
pub fn find_chars(s: &Vec<char>, p: &Vec<char>) -> (r: Option<usize>)
    ensures
        match r {
            Some(i) => find(s@, p@) == Some(i as int),
            None => find(s@, p@) is None,
        },
{
    if p.len() > s.len() {
        assert forall|i: int| !#[trigger] first_at(s@, p@, i) by {
        }
        return None;
    }
    let last = s.len() - p.len();
    let mut i: usize = 0;
    while i <= last
        invariant
            last + p.len() == s.len(),
            forall|j: int| 0 <= j < i ==> !#[trigger] occurs_at(s@, p@, j),
        decreases last + 1 - i,
    {
        if matches_at(s, p, i) {
            assert(first_at(s@, p@, i as int));
            assert(occurs_at(s@, p@, i as int));
            proof {
                let k = choose|k: int| first_at(s@, p@, k);
                lemma_first_unique(s@, p@, i as int, k);
            }
            return Some(i);
        }
        if i == last {
            assert forall|k: int| !#[trigger] first_at(s@, p@, k) by {
                if first_at(s@, p@, k) {
                    assert(occurs_at(s@, p@, k));
                }
            }
            return None;
        }
        i = i + 1;
    }
    None
}

/// The parts of `s` before and after the first `p`.
pub fn split_once_chars(s: &Vec<char>, p: &Vec<char>) -> (r: Option<(Vec<char>, Vec<char>)>)
    ensures
        match r {
            Some((a, b)) => split_once(s@, p@) == Some((a@, b@)),
            None => split_once(s@, p@) is None,
        },
{
    match find_chars(s, p) {
        Some(i) => {
            assert(first_at(s@, p@, i as int));
            assert(occurs_at(s@, p@, i as int));
            let pl = p.len();
            let n = s.len();
            let a = slice_chars(s, 0, i);
            let b = slice_chars(s, i + pl, n);
            assert(a@ =~= s@.take(i as int));
            assert(b@ =~= s@.skip(i + p.len()));
            Some((a, b))
        },
        None => None,
    }
}

/// The parts of `s` around the first `p`, or failing that around the first `q`.
pub fn split_once_either_chars(s: &Vec<char>, p: &Vec<char>, q: &Vec<char>) -> (r: Option<
    (Vec<char>, Vec<char>),
>)
    ensures
        match r {
            Some((a, b)) => split_once_either(s@, p@, q@) == Some((a@, b@)),
            None => split_once_either(s@, p@, q@) is None,
        },
{
    match split_once_chars(s, p) {
        Some(r) => Some(r),
        None => split_once_chars(s, q),
    }
}

/// Whether `s` starts with `p`.
pub fn starts_with_chars(s: &Vec<char>, p: &Vec<char>) -> (r: bool)
    ensures
        r == has_prefix(s@, p@),
{
    let r = matches_at(s, p, 0);
    proof {
        if has_prefix(s@, p@) {
            assert(occurs_at(s@, p@, 0));
        }
    }
    r
}

/// `s` with the prefix `p` removed, if it starts with it.
pub fn strip_prefix_chars(s: &Vec<char>, p: &Vec<char>) -> (r: Option<Vec<char>>)
    ensures
        match r {
            Some(t) => strip_prefix(s@, p@) == Some(t@),
            None => strip_prefix(s@, p@) is None,
        },
{
    if starts_with_chars(s, p) {
        let t = slice_chars(s, p.len(), s.len());
        assert(t@ =~= s@.skip(p.len() as int));
        Some(t)
    } else {
        None
    }
}

/// `s` with the prefix `p`, or failing that `q`, removed.
pub fn strip_either_chars(s: &Vec<char>, p: &Vec<char>, q: &Vec<char>) -> (r: Option<Vec<char>>)
    ensures
        match r {
            Some(t) => strip_either(s@, p@, q@) == Some(t@),
            None => strip_either(s@, p@, q@) is None,
        },
{
    match strip_prefix_chars(s, p) {
        Some(t) => Some(t),
        None => strip_prefix_chars(s, q),
    }
}

/// Equality of two character vectors.
pub fn chars_eq(a: &Vec<char>, b: &Vec<char>) -> (r: bool)
    ensures
        r == (a@ == b@),
{
    if a.len() != b.len() {
        return false;
    }
    let mut i: usize = 0;
    while i < a.len()
        invariant
            a.len() == b.len(),
            i <= a.len(),
            forall|j: int| 0 <= j < i ==> a@[j] == b@[j],
        decreases a.len() - i,
    {
        if a[i] != b[i] {
            return false;
        }
        i = i + 1;
    }
    assert(a@ =~= b@);
    true
}

/// The pieces of `s` between occurrences of `c`, as `str::split(c)` gives them.
pub open spec fn split_char(s: Seq<char>, c: char) -> Seq<Seq<char>>
    decreases s.len(),
{
    if s.len() == 0 {
        seq![Seq::<char>::empty()]
    } else {
        let r = split_char(s.drop_last(), c);
        if s.last() == c {
            r.push(Seq::<char>::empty())
        } else {
            r.update(r.len() - 1, r.last().push(s.last()))
        }
    }
}

/// `split_char` always yields at least one piece.
pub proof fn lemma_split_char_nonempty(s: Seq<char>, c: char)
    ensures
        split_char(s, c).len() >= 1,
    decreases s.len(),
{
    if s.len() > 0 {
        lemma_split_char_nonempty(s.drop_last(), c);
    }
}

/// A text without `c` is one piece.
pub proof fn lemma_split_char_whole(s: Seq<char>, c: char)
    requires
        !s.contains(c),
    ensures
        split_char(s, c) == seq![s],
    decreases s.len(),
{
    if s.len() > 0 {
        assert(s.drop_last().len() < s.len());
        assert forall|i: int| 0 <= i < s.len() - 1 implies s.drop_last()[i] != c by {
            assert(s.drop_last()[i] == s[i]);
        }
        lemma_split_char_whole(s.drop_last(), c);
        assert(s[s.len() - 1] == s.last());
        assert(s.drop_last().push(s.last()) =~= s);
    } else {
        assert(s =~= Seq::<char>::empty());
    }
}

/// Two texts without `c`, joined by `c`, are two pieces.
pub proof fn lemma_split_char_pair(x: Seq<char>, c: char, y: Seq<char>)
    requires
        !x.contains(c),
        !y.contains(c),
    ensures
        split_char(x + seq![c] + y, c) == seq![x, y],
    decreases y.len(),
{
    let s = x + seq![c] + y;
    if y.len() == 0 {
        assert(s.drop_last() =~= x);
        lemma_split_char_whole(x, c);
        assert(seq![x].push(Seq::<char>::empty()) =~= seq![x, y]);
    } else {
        let y0 = y.drop_last();
        assert forall|i: int| 0 <= i < y0.len() implies y0[i] != c by {
            assert(y0[i] == y[i]);
        }
        lemma_split_char_pair(x, c, y0);
        assert(s.drop_last() =~= x + seq![c] + y0);
        assert(s.last() == y[y.len() - 1]);
        assert(y0.push(y.last()) =~= y);
        assert(seq![x, y0].update(1, y0.push(s.last())) =~= seq![x, y]);
    }
}

/// The lines of `s`: the pieces between line feeds, without the empty piece
/// after a final line feed.  (`str::lines` also drops a carriage return before
/// each line feed; every line is trimmed before use, which removes it anyway.)
pub open spec fn lines(s: Seq<char>) -> Seq<Seq<char>> {
    let p = split_char(s, '\n');
    if p.last().len() == 0 {
        p.drop_last()
    } else {
        p
    }
}

/// The pieces of `s` between occurrences of `c`.
pub fn split_char_chars(s: &Vec<char>, c: char) -> (r: Vec<Vec<char>>)
    ensures
        views(r@) == split_char(s@, c),
{
    let mut done: Vec<Vec<char>> = Vec::new();
    let mut cur: Vec<char> = Vec::new();
    let mut i: usize = 0;
    assert(s@.take(0) =~= Seq::<char>::empty());
    assert(views(done@).push(cur@) =~= split_char(s@.take(0), c));
    while i < s.len()
        invariant
            i <= s.len(),
            views(done@).push(cur@) == split_char(s@.take(i as int), c),
        decreases s.len() - i,
    {
        let ghost old_done = done@;
        let ghost old_cur = cur@;
        assert(s@.take(i + 1).drop_last() =~= s@.take(i as int));
        assert(s@.take(i + 1).last() == s@[i as int]);
        if s[i] == c {
            let piece = cur;
            done.push(piece);
            cur = Vec::new();
            assert(views(done@) =~= views(old_done).push(old_cur));
            assert(views(done@).push(cur@) =~= split_char(s@.take(i + 1), c));
        } else {
            cur.push(s[i]);
            assert(views(done@).push(cur@) =~= views(old_done).push(old_cur).update(
                views(old_done).len() as int,
                old_cur.push(s@[i as int]),
            ));
        }
        i = i + 1;
    }
    assert(s@.take(s.len() as int) =~= s@);
    let ghost before = done@;
    done.push(cur);
    assert(views(done@) =~= views(before).push(done@.last()@));
    done
}

/// The lines of `s`.
pub fn lines_chars(s: &Vec<char>) -> (r: Vec<Vec<char>>)
    ensures
        views(r@) == lines(s@),
{
    let mut p = split_char_chars(s, '\n');
    proof {
        lemma_split_char_nonempty(s@, '\n');
    }
    let n = p.len();
    if p[n - 1].len() == 0 {
        let ghost before = p@;
        p.pop();
        assert(views(p@) =~= views(before).drop_last());
    }
    p
}

// ============================================================
// Decimal numbers
// ============================================================

/// The character of a decimal digit.
pub open spec fn digit_char(d: nat) -> char {
    ((d + 48) as u8) as char
}

/// The decimal digits of a natural number, most significant first, with no
/// leading zeros (`0` is `"0"`).
pub open spec fn dec_digits(n: nat) -> Seq<char>
    decreases n,
{
    if n < 10 {
        seq![digit_char(n)]
    } else {
        dec_digits(n / 10).push(digit_char(n % 10))
    }
}

/// The decimal text of an integer, with a leading `-` when it is negative
/// (what `Display` writes for integers).
pub open spec fn int_text(i: int) -> Seq<char> {
    if i < 0 {
        seq!['-'] + dec_digits((-i) as nat)
    } else {
        dec_digits(i as nat)
    }
}

fn push_digits(n: u64, out: &mut Vec<char>)
    ensures
        final(out)@ == old(out)@ + dec_digits(n as nat),
    decreases n,
{
    if n >= 10 {
        push_digits(n / 10, out);
    }
    let d: u8 = (n % 10) as u8;
    out.push((48u8 + d) as char);
}

/// The decimal text of an unsigned integer.
pub fn u64_text(n: u64) -> (s: String)
    ensures
        s@ == int_text(n as int),
{
    let mut v: Vec<char> = Vec::new();
    push_digits(n, &mut v);
    assert(v@ =~= dec_digits(n as nat));
    string_of(&v)
}

/// The decimal text of a signed integer.
pub fn i64_text(i: i64) -> (s: String)
    ensures
        s@ == int_text(i as int),
{
    let mut v: Vec<char> = Vec::new();
    if i < 0 {
        v.push('-');
        let m: u64 = (0i128 - (i as i128)) as u64;
        push_digits(m, &mut v);
        assert(v@ =~= seq!['-'] + dec_digits((-i) as nat));
    } else {
        push_digits(i as u64, &mut v);
        assert(v@ =~= dec_digits(i as nat));
    }
    string_of(&v)
}

// ============================================================
// Case mapping
// ============================================================

/// Whether every character of a text is ASCII.
pub open spec fn is_ascii_text(s: Seq<char>) -> bool {
    forall|i: int| 0 <= i < s.len() ==> (#[trigger] s[i] as u32) < 128
}

/// The lower-case form of an ASCII character; any other character is kept.
pub open spec fn ascii_lower_char(c: char) -> char {
    if 65 <= (c as u32) <= 90 {
        ((c as u32) + 32) as char
    } else {
        c
    }
}

/// The upper-case form of an ASCII character; any other character is kept.
pub open spec fn ascii_upper_char(c: char) -> char {
    if 97 <= (c as u32) <= 122 {
        ((c as u32) - 32) as char
    } else {
        c
    }
}

/// A text with its ASCII letters in lower case.
pub open spec fn ascii_lower(s: Seq<char>) -> Seq<char> {
    s.map_values(|c: char| ascii_lower_char(c))
}

/// A text with its ASCII letters in upper case.
pub open spec fn ascii_upper(s: Seq<char>) -> Seq<char> {
    s.map_values(|c: char| ascii_upper_char(c))
}

/// What `str::to_lowercase` gives for a text.
pub uninterp spec fn lowercase(s: Seq<char>) -> Seq<char>;

/// What `str::to_uppercase` gives for a text.
pub uninterp spec fn uppercase(s: Seq<char>) -> Seq<char>;

/// `str::to_lowercase`.  Claimed of std: the result depends on the text only,
/// and on an ASCII text it maps `A`..`Z` to `a`..`z` and keeps every other
/// character (the Unicode lower-case mapping of ASCII, as `to_ascii_lowercase`).
#[verifier::external_body]
pub(crate) fn to_lower(s: &str) -> (r: String)
    ensures
        r@ == lowercase(s@),
        is_ascii_text(s@) ==> r@ == ascii_lower(s@),
{
    s.to_lowercase()
}

/// `str::to_uppercase`.  Claimed of std: the result depends on the text only,
/// and on an ASCII text it maps `a`..`z` to `A`..`Z` and keeps every other
/// character (the Unicode upper-case mapping of ASCII, as `to_ascii_uppercase`).
#[verifier::external_body]
pub(crate) fn to_upper(s: &str) -> (r: String)
    ensures
        r@ == uppercase(s@),
        is_ascii_text(s@) ==> r@ == ascii_upper(s@),
{
    s.to_uppercase()
}

} // verus!
