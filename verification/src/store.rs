//! What the library exchanges with the SQLite store: file hashes for
//! incremental imports, node and edge rows, and the store's error type.
//!
//! The store itself (the connection and its queries) is driven by the
//! application; rows come in here as plain values and leave as nodes and edges.

use vstd::prelude::*;
use crate::models::{
    Node, NodeView, NodeLabel, label_of_str, Edge, EdgeView, EdgeType, edge_type_of_str,
    Properties, PropertiesError, json_object_of, opt_view,
};
use crate::text::{digit_char, string_of};

verus! {

broadcast use vstd::seq_lib::group_seq_properties;

// ============================================================
// Errors
// ============================================================

/// Declares `rusqlite::Error` to the verifier.
#[verifier::external_type_specification]
#[verifier::external_body]
pub struct ExSqliteError(rusqlite::Error);

/// Errors of the store.
#[derive(Debug)]
pub enum StoreError {
    /// An error of SQLite.
    Sqlite(rusqlite::Error),
    /// The record was not found.
    NotFound,
    /// Anything else.
    Other(String),
}

// ============================================================
// File hashes
// ============================================================

/// The SHA-256 digest of some bytes.
pub uninterp spec fn sha256_of(data: Seq<u8>) -> Seq<u8>;

/// `sha2::Sha256::digest`.  Claimed of sha2: the digest depends on the bytes
/// only and is 32 bytes long.
#[verifier::external_body]
fn sha256_digest(data: &[u8]) -> (d: Vec<u8>)
    ensures
        d@ == sha256_of(data@),
        d@.len() == 32,
{
    <sha2::Sha256 as sha2::Digest>::digest(data).to_vec()
}

/// The lower-case hexadecimal digit of a value below 16.
pub open spec fn hex_char(d: nat) -> char {
    if d < 10 {
        digit_char(d)
    } else {
        ((d + 87) as u8) as char
    }
}

/// Lower-case hexadecimal text of bytes, two digits per byte, high nibble first.
pub open spec fn hex_lower(b: Seq<u8>) -> Seq<char>
    decreases b.len(),
{
    if b.len() == 0 {
        Seq::empty()
    } else {
        hex_lower(b.drop_last()) + seq![hex_char((b.last() / 16) as nat), hex_char((b.last() % 16) as nat)]
    }
}

/// The lower-case hexadecimal digits, in order of value.
pub open spec fn hex_digits() -> Seq<char> {
    seq!['0', '1', '2', '3', '4', '5', '6', '7', '8', '9', 'a', 'b', 'c', 'd', 'e', 'f']
}

proof fn lemma_hex_char(d: nat)
    requires
        d < 16,
    ensures
        hex_char(d) == hex_digits()[d as int],
{
    if d == 0 { assert(hex_char(d) == '0'); }
    else if d == 1 { assert(hex_char(d) == '1'); }
    else if d == 2 { assert(hex_char(d) == '2'); }
    else if d == 3 { assert(hex_char(d) == '3'); }
    else if d == 4 { assert(hex_char(d) == '4'); }
    else if d == 5 { assert(hex_char(d) == '5'); }
    else if d == 6 { assert(hex_char(d) == '6'); }
    else if d == 7 { assert(hex_char(d) == '7'); }
    else if d == 8 { assert(hex_char(d) == '8'); }
    else if d == 9 { assert(hex_char(d) == '9'); }
    else if d == 10 { assert(hex_char(d) == 'a'); }
    else if d == 11 { assert(hex_char(d) == 'b'); }
    else if d == 12 { assert(hex_char(d) == 'c'); }
    else if d == 13 { assert(hex_char(d) == 'd'); }
    else if d == 14 { assert(hex_char(d) == 'e'); }
    else { assert(hex_char(d) == 'f'); }
}

/// Hexadecimal text has two digits per byte, in the bytes' order: the
/// digit of the byte's high nibble, then that of its low nibble.
pub proof fn lemma_hex_text(b: Seq<u8>)
    ensures
        hex_lower(b).len() == 2 * b.len(),
        forall|i: int|
            0 <= i < b.len() ==> hex_lower(b)[2 * i] == hex_digits()[(b[i] / 16) as int] && hex_lower(b)[2
                * i + 1] == hex_digits()[(b[i] % 16) as int],
    decreases b.len(),
{
    if b.len() > 0 {
        let d = b.drop_last();
        lemma_hex_text(d);
        lemma_hex_char((b.last() / 16) as nat);
        lemma_hex_char((b.last() % 16) as nat);
        assert forall|i: int| 0 <= i < b.len() implies hex_lower(b)[2 * i] == hex_digits()[(b[i] / 16) as int]
            && hex_lower(b)[2 * i + 1] == hex_digits()[(b[i] % 16) as int] by {
            if i < b.len() - 1 {
                assert(d[i] == b[i]);
            }
        }
    }
}

fn hex_digit(d: u8) -> (c: char)
    requires
        d < 16,
    ensures
        c == hex_char(d as nat),
{
    if d < 10 {
        (48u8 + d) as char
    } else {
        (87u8 + d) as char
    }
}

/// Lower-case hexadecimal text of bytes (what `{:x}` writes for a digest).
pub fn hex_text(bytes: &[u8]) -> (s: String)
    ensures
        s@ == hex_lower(bytes@),
{
    let mut v: Vec<char> = Vec::new();
    let mut i: usize = 0;
    while i < bytes.len()
        invariant
            i <= bytes.len(),
            v@ == hex_lower(bytes@.take(i as int)),
        decreases bytes.len() - i,
    {
        assert(bytes@.take(i + 1).drop_last() =~= bytes@.take(i as int));
        let b = bytes[i];
        v.push(hex_digit(b / 16));
        v.push(hex_digit(b % 16));
        i = i + 1;
    }
    assert(bytes@.take(bytes.len() as int) =~= bytes@);
    string_of(&v)
}

/// The hash and metadata of a chapter file, as the store keeps them.
pub struct FileHash {
    /// The project.
    pub project: String,
    /// The path relative to the project directory.
    pub rel_path: String,
    /// Lower-case hexadecimal SHA-256 of the content.
    pub sha256: String,
    /// Modification time, in nanoseconds since the epoch.
    pub mtime_ns: i64,
    /// Size in bytes.
    pub size: i64,
}

impl FileHash {
    /// The record of a file from its content and metadata.
    pub fn from_contents(project: &str, rel_path: &str, contents: &[u8], mtime_ns: i64, size: i64) -> (r: FileHash)
        ensures
            r.project@ == project@,
            r.rel_path@ == rel_path@,
            r.sha256@ == hex_lower(sha256_of(contents@)),
            r.mtime_ns == mtime_ns,
            r.size == size,
    {
        let digest = sha256_digest(contents);
        FileHash {
            project: project.to_owned(),
            rel_path: rel_path.to_owned(),
            sha256: hex_text(digest.as_slice()),
            mtime_ns,
            size,
        }
    }
}

// ============================================================
// Rows
// ============================================================

/// The columns of a row of the `nodes` table.
pub struct NodeRow {
    pub id: i64,
    pub project: String,
    pub label: String,
    pub name: String,
    pub qualified_name: String,
    pub file_path: Option<String>,
    pub start_line: Option<i32>,
    pub end_line: Option<i32>,
    /// The properties as JSON text.
    pub properties: String,
}

/// The columns of a row of the `edges` table.
pub struct EdgeRow {
    pub id: i64,
    pub project: String,
    pub source_id: i64,
    pub target_id: i64,
    /// The edge type's name.
    pub edge_type: String,
    /// The properties as JSON text.
    pub properties: String,
}

/// Why a row cannot be read back.
#[derive(Debug)]
pub enum RowError {
    /// The properties column is not a JSON object of scalars.
    Properties(PropertiesError),
    /// The label column names no label.
    UnknownLabel(String),
    /// The type column names no edge type.
    UnknownEdgeType(String),
}

/// A node read back from a row: the properties are read first, then the label.
pub fn node_from_row(row: NodeRow) -> (r: Result<Node, RowError>)
    ensures
        match json_object_of(row.properties@) {
            None => r matches Err(RowError::Properties(_)),
            Some(m) => match label_of_str(row.label@) {
                None => r matches Err(RowError::UnknownLabel(s)) && s@ == row.label@,
                Some(l) => r matches Ok(n) && n@ == (NodeView {
                    id: row.id,
                    project: row.project@,
                    label: l,
                    name: row.name@,
                    qualified_name: row.qualified_name@,
                    file_path: opt_view(row.file_path),
                    start_line: row.start_line,
                    end_line: row.end_line,
                    properties: m,
                }),
            },
        },
{
    let properties = match Properties::from_json(row.properties.as_str()) {
        Ok(p) => p,
        Err(e) => {
            return Err(RowError::Properties(e));
        },
    };
    let label = match NodeLabel::from_str(row.label.as_str()) {
        Some(l) => l,
        None => {
            return Err(RowError::UnknownLabel(row.label));
        },
    };
    Ok(
        Node {
            id: row.id,
            project: row.project,
            label,
            name: row.name,
            qualified_name: row.qualified_name,
            file_path: row.file_path,
            start_line: row.start_line,
            end_line: row.end_line,
            properties,
        },
    )
}

/// An edge read back from a row: the properties are read first, then the type.
pub fn edge_from_row(row: EdgeRow) -> (r: Result<Edge, RowError>)
    ensures
        match json_object_of(row.properties@) {
            None => r matches Err(RowError::Properties(_)),
            Some(m) => match edge_type_of_str(row.edge_type@) {
                None => r matches Err(RowError::UnknownEdgeType(s)) && s@ == row.edge_type@,
                Some(t) => r matches Ok(e) && e@ == (EdgeView {
                    id: row.id,
                    project: row.project@,
                    source_id: row.source_id,
                    target_id: row.target_id,
                    edge_type: t,
                    properties: m,
                }),
            },
        },
{
    let properties = match Properties::from_json(row.properties.as_str()) {
        Ok(p) => p,
        Err(e) => {
            return Err(RowError::Properties(e));
        },
    };
    let edge_type = match EdgeType::from_str(row.edge_type.as_str()) {
        Some(t) => t,
        None => {
            return Err(RowError::UnknownEdgeType(row.edge_type));
        },
    };
    Ok(
        Edge {
            id: row.id,
            project: row.project,
            source_id: row.source_id,
            target_id: row.target_id,
            edge_type,
            properties,
        },
    )
}

// ============================================================
// Quantized vectors
// ============================================================

/// A byte of a quantized vector read as a signed 8-bit value.
pub open spec fn signed(b: u8) -> int {
    if b < 128 {
        b as int
    } else {
        b as int - 256
    }
}

/// The sum of the products of the first `n` signed values of `a` and `b`.
pub open spec fn dot_upto(a: Seq<u8>, b: Seq<u8>, n: int) -> int
    decreases n,
{
    if n <= 0 {
        0
    } else {
        dot_upto(a, b, n - 1) + signed(a[n - 1]) * signed(b[n - 1])
    }
}

/// A byte read as a signed value lies in `-128..128` and is the byte itself
/// modulo 256.
pub proof fn lemma_signed_byte(b: u8)
    ensures
        -128 <= signed(b) < 128,
        (signed(b) - b as int) % 256 == 0,
{
}

/// The dot product does not depend on the order of the two vectors, and the
/// dot product of a vector with itself (its squared norm) is never negative.
pub proof fn lemma_dot_laws(a: Seq<u8>, b: Seq<u8>, n: int)
    ensures
        dot_upto(a, b, n) == dot_upto(b, a, n),
        dot_upto(a, a, n) >= 0,
    decreases n,
{
    if n > 0 {
        lemma_dot_laws(a, b, n - 1);
        let x = signed(a[n - 1]);
        assert(x * x >= 0) by (nonlinear_arith);
        assert(signed(a[n - 1]) * signed(b[n - 1]) == signed(b[n - 1]) * signed(a[n - 1])) by (nonlinear_arith);
    }
}

proof fn lemma_product_bound(x: int, y: int)
    requires
        -128 <= x < 128,
        -128 <= y < 128,
    ensures
        -16384 < x * y <= 16384,
{
    assert(-16384 < x * y <= 16384) by (nonlinear_arith)
        requires
            -128 <= x < 128,
            -128 <= y < 128,
    ;
}

proof fn lemma_dot_bound(a: Seq<u8>, b: Seq<u8>, n: int)
    requires
        0 <= n <= a.len(),
        n <= b.len(),
    ensures
        -16384 * n <= dot_upto(a, b, n) <= 16384 * n,
    decreases n,
{
    if n > 0 {
        lemma_dot_bound(a, b, n - 1);
        lemma_product_bound(signed(a[n - 1]), signed(b[n - 1]));
    }
}

fn signed_of(b: u8) -> (r: i32)
    ensures
        r == signed(b),
{
    if b < 128 {
        b as i32
    } else {
        b as i32 - 256
    }
}

/// The three sums a cosine of two quantized vectors is made of: the dot
/// product and the two squared norms, or `None` when the vectors differ in
/// length or are empty (their similarity is then 0).
pub fn cosine_terms(a: &[u8], b: &[u8]) -> (r: Option<(i32, i32, i32)>)
    requires
        a.len() <= 131071,
    ensures
        match r {
            None => a.len() != b.len() || a.len() == 0,
            Some((dot, ma, mb)) => {
                &&& a.len() == b.len() && a.len() > 0
                &&& dot == dot_upto(a@, b@, a.len() as int)
                &&& ma == dot_upto(a@, a@, a.len() as int)
                &&& mb == dot_upto(b@, b@, b.len() as int)
            },
        },
{
    if a.len() != b.len() || a.len() == 0 {
        return None;
    }
    let mut dot: i32 = 0;
    let mut ma: i32 = 0;
    let mut mb: i32 = 0;
    let mut i: usize = 0;
    while i < a.len()
        invariant
            i <= a.len(),
            a.len() == b.len(),
            a.len() <= 131071,
            dot == dot_upto(a@, b@, i as int),
            ma == dot_upto(a@, a@, i as int),
            mb == dot_upto(b@, b@, i as int),
        decreases a.len() - i,
    {
        let va = signed_of(a[i]);
        let vb = signed_of(b[i]);
        proof {
            lemma_dot_bound(a@, b@, i + 1);
            lemma_dot_bound(a@, a@, i + 1);
            lemma_dot_bound(b@, b@, i + 1);
            lemma_product_bound(va as int, vb as int);
            lemma_product_bound(va as int, va as int);
            lemma_product_bound(vb as int, vb as int);
            assert(16384 * (i + 1) <= 16384 * 131071) by (nonlinear_arith)
                requires
                    i + 1 <= 131071,
            ;
        }
        dot = dot + va * vb;
        ma = ma + va * va;
        mb = mb + vb * vb;
        i = i + 1;
    }
    Some((dot, ma, mb))
}

} // verus!
