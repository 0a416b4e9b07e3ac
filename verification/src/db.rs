//! The agent database (collect.sqlite3), read-only: table-name resolution,
//! column lists, SQL quoting and SysTrack string-ID resolution.
//!
//! Schema fact (verified against 11.6 endpoint snapshots): inventory and
//! execution tables store integer string-IDs, not names. `SASTR (STRINGID,
//! STRVALUE)` holds system-scope strings; `SASTRUSER` holds user-scope
//! strings (account names, per-user scan strings). Columns like
//! `SASFW.PACKAGE/PUB/DISPLAYVER`, `SAAPP.APP_ID/PATH_ID/CMDLINE_ID` and
//! `SASFWUSER.ACCOUNT_ID` all join `= STRINGID`.
//!
//! The queries themselves run `sqlite3 -readonly -json` outside this crate;
//! their rows come back here as `Row` values.

use vstd::prelude::*;
use crate::text::{
    chars_of, eq_ignore_case, lower, matches_at, push_char, push_str, range_eq_ignore_case, seq_eq,
    string_of, to_upper, upper,
};

verus! {

/// Which string table a column's IDs live in.
#[derive(Clone, Copy, Debug, PartialEq, Eq, Structural)]
pub enum StrScope {
    /// System-scope strings: `SASTR`.
    System,
    /// User-scope strings (account names etc.): `SASTRUSER`.
    User,
}

/// Every character ASCII-uppercased.
pub open spec fn upper_text(s: Seq<char>) -> Seq<char> {
    s.map_values(|c: char| upper(c))
}

/// `s` ends with `p`.
pub open spec fn ends_with(s: Seq<char>, p: Seq<char>) -> bool {
    s.len() >= p.len() && s.skip(s.len() - p.len()) == p
}

/// The string-ID heuristic: `ACCOUNT_ID` is user scope; `*_ID` columns and
/// the bare names PACKAGE, PUB, DISPLAYVER are system scope, except IDs
/// known not to be string references (STRINGID, RECID, PROCESS_ID,
/// PARENT_PROCESS_ID, THREAD_ID, SESSION_ID). Case is ignored.
pub open spec fn string_id_column_spec(column: Seq<char>) -> Option<StrScope> {
    let up = upper_text(column);
    if up == "ACCOUNT_ID"@ {
        Some(StrScope::User)
    } else if up == "STRINGID"@ || up == "RECID"@ || up == "PROCESS_ID"@ || up
        == "PARENT_PROCESS_ID"@ || up == "THREAD_ID"@ || up == "SESSION_ID"@ {
        None
    } else if ends_with(up, "_ID"@) || up == "PACKAGE"@ || up == "PUB"@ || up == "DISPLAYVER"@ {
        Some(StrScope::System)
    } else {
        None
    }
}

/// Characters, ASCII-uppercased.
pub fn upper_chars(s: &[char]) -> (r: Vec<char>)
    ensures
        r@ == upper_text(s@),
{
    let mut r: Vec<char> = Vec::new();
    let mut i: usize = 0;
    while i < s.len()
        invariant
            i <= s@.len(),
            r@ == upper_text(s@.take(i as int)),
        decreases s.len() - i,
    {
        r.push(to_upper(s[i]));
        assert(upper_text(s@.take(i + 1)) =~= upper_text(s@.take(i as int)).push(upper(s@[i as int])));
        i += 1;
    }
    assert(s@.take(s@.len() as int) =~= s@);
    r
}

fn is(up: &[char], lit: &str) -> (r: bool)
    ensures
        r == (up@ == lit@),
{
    seq_eq(up, &chars_of(lit))
}

/// Does this column hold SASTR/SASTRUSER string-IDs, and in which scope?
///
/// Heuristic, by design: a false positive only adds an annotation when the
/// ID happens to exist in a string table — the raw value is always kept
/// alongside — so erring open is cheap.
pub fn string_id_column(column: &str) -> (r: Option<StrScope>)
    ensures
        r == string_id_column_spec(column@),
{
    let up = upper_chars(&chars_of(column));
    if is(&up, "ACCOUNT_ID") {
        return Some(StrScope::User);
    }
    if is(&up, "STRINGID") || is(&up, "RECID") || is(&up, "PROCESS_ID") || is(&up, "PARENT_PROCESS_ID")
        || is(&up, "THREAD_ID") || is(&up, "SESSION_ID") {
        return None;
    }
    let suffix = chars_of("_ID");
    let n = up.len();
    let ends = if n >= suffix.len() {
        let e = crate::text::match_at(&up, n - suffix.len(), &suffix);
        assert(up@.skip(n - suffix@.len()) =~= up@.subrange(n - suffix@.len(), n as int));
        e
    } else {
        false
    };
    if ends || is(&up, "PACKAGE") || is(&up, "PUB") || is(&up, "DISPLAYVER") {
        return Some(StrScope::System);
    }
    None
}

/// `s` with every `c` doubled.
pub open spec fn double_char(s: Seq<char>, c: char) -> Seq<char>
    decreases s.len(),
{
    if s.len() == 0 {
        Seq::<char>::empty()
    } else {
        double_char(s.drop_last(), c) + if s.last() == c {
            seq![c, c]
        } else {
            seq![s.last()]
        }
    }
}

fn double(s: &str, c: char) -> (r: String)
    ensures
        r@ == double_char(s@, c),
{
    let v = chars_of(s);
    let mut r = String::new();
    let mut i: usize = 0;
    while i < v.len()
        invariant
            i <= v@.len(),
            r@ == double_char(v@.take(i as int), c),
        decreases v.len() - i,
    {
        let ghost before = r@;
        push_char(&mut r, v[i]);
        if v[i] == c {
            push_char(&mut r, c);
        }
        proof {
            let t = v@.take(i + 1);
            assert(t.drop_last() =~= v@.take(i as int));
            assert(t.last() == v@[i as int]);
            if v@[i as int] == c {
                assert(r@ =~= before + seq![c, c]);
            } else {
                assert(r@ =~= before + seq![v@[i as int]]);
            }
        }
        i += 1;
    }
    assert(v@.take(v@.len() as int) =~= v@);
    r
}

/// SQL string-literal escaping: double every single quote.
pub fn escape_str(s: &str) -> (r: String)
    ensures
        r@ == double_char(s@, '\''),
{
    double(s, '\'')
}

/// SQL identifier escaping for `"..."` quoting: double every double quote.
pub fn escape_ident(s: &str) -> (r: String)
    ensures
        r@ == double_char(s@, '"'),
{
    double(s, '"')
}

/// A column of a query result.
#[derive(Debug)]
pub struct Column {
    pub name: String,
    pub data_type: String,
}

/// Rows of a query, rendered as text.
#[derive(Debug)]
pub struct QueryResult {
    pub columns: Vec<Column>,
    pub rows: Vec<Vec<String>>,
    pub affected_rows: usize,
}

impl QueryResult {
    /// An empty result.
    pub fn new() -> (r: Self)
        ensures
            r.columns@.len() == 0,
            r.rows@.len() == 0,
            r.affected_rows == 0,
    {
        QueryResult { columns: Vec::new(), rows: Vec::new(), affected_rows: 0 }
    }
}

/// `str::to_lowercase`: the full Unicode lowercase mapping.
pub uninterp spec fn unicode_lower(s: Seq<char>) -> Seq<char>;

/// `str::to_lowercase`; the contract names the result and says no more of it.
#[verifier::external_body]
fn to_lowercase(s: &str) -> (r: String)
    ensures
        r@ == unicode_lower(s@),
{
    s.to_lowercase()
}

/// A query the read-only console runs: one that, trimmed and lowercased,
/// starts with `select`, `pragma` or `explain`.
pub open spec fn read_only_query_spec(q: Seq<char>) -> bool {
    let l = unicode_lower(crate::text::trim(q));
    crate::cli::starts_with(l, "select"@) || crate::cli::starts_with(l, "pragma"@)
        || crate::cli::starts_with(l, "explain"@)
}

fn has_prefix(l: &Vec<char>, p: &str) -> (r: bool)
    ensures
        r == crate::cli::starts_with(l@, p@),
{
    let pc = chars_of(p);
    let r = crate::text::match_at(l, 0, &pc);
    proof {
        if pc@.len() <= l@.len() {
            assert(l@.take(pc@.len() as int) =~= l@.subrange(0, pc@.len() as int));
        }
    }
    r
}

/// Whether the read-only console runs `query` (see `read_only_query_spec`).
pub fn read_only_query(query: &str) -> (r: bool)
    ensures
        r == read_only_query_spec(query@),
{
    let t = crate::text::trim_chars(&chars_of(query));
    let ts = string_of(&t);
    let low = to_lowercase(ts.as_str());
    let l = chars_of(low.as_str());
    has_prefix(&l, "select") || has_prefix(&l, "pragma") || has_prefix(&l, "explain")
}

/// Why the read-only console refuses a query.
pub const READ_ONLY_REFUSAL: &'static str = "Only SELECT, PRAGMA, and EXPLAIN queries are allowed in read-only mode";

/// A value of a query result row, as SQLite types it. A real comes
/// rendered as text by whoever read it; a blob is known by its length.
#[derive(Debug)]
pub enum SqlValue {
    Null,
    Integer(i64),
    Real(String),
    Text(Vec<u8>),
    Blob(usize),
}

/// How a value is shown in a query result.
pub open spec fn value_text_spec(v: SqlValue) -> Seq<char> {
    match v {
        SqlValue::Null => "NULL"@,
        SqlValue::Integer(i) => crate::num::decimal_int(i as int),
        SqlValue::Real(t) => t@,
        SqlValue::Text(b) => crate::web::lossy_text(b@),
        SqlValue::Blob(n) => "<BLOB: "@ + crate::num::decimal(n as nat) + " bytes>"@,
    }
}

/// A value as shown in a query result.
pub fn value_text(v: &SqlValue) -> (r: String)
    ensures
        r@ == value_text_spec(*v),
        match v {
            SqlValue::Text(b) => vstd::utf8::valid_utf8(b@) ==> r@ == vstd::utf8::decode_utf8(b@),
            _ => true,
        },
{
    match v {
        SqlValue::Null => String::from_str("NULL"),
        SqlValue::Integer(i) => {
            let mut s = String::new();
            crate::num::push_decimal_i64(&mut s, *i);
            s
        },
        SqlValue::Real(t) => t.clone(),
        SqlValue::Text(b) => crate::web::utf8_lossy(b.as_slice()),
        SqlValue::Blob(n) => {
            let mut s = String::from_str("<BLOB: ");
            crate::num::push_decimal(&mut s, *n as u64);
            push_str(&mut s, " bytes>");
            s
        },
    }
}

/// A result column's name, or `Column_<i>` when SQLite gives none.
pub fn column_label(name: Option<&str>, i: usize) -> (r: String)
    ensures
        r@ == match name {
            Some(n) => n@,
            None => "Column_"@ + crate::num::decimal(i as nat),
        },
{
    match name {
        Some(n) => String::from_str(n),
        None => {
            let mut s = String::from_str("Column_");
            crate::num::push_decimal(&mut s, i as u64);
            s
        },
    }
}

/// A query result from its column names and rows: every value rendered by
/// `value_text`, the row count as the affected rows.
pub fn query_result(names: &Vec<Option<String>>, rows: &Vec<Vec<SqlValue>>) -> (r: QueryResult)
    ensures
        r.columns@.len() == names@.len(),
        forall|i: int|
            0 <= i < names@.len() ==> (#[trigger] r.columns@[i]).name@ == match names@[i] {
                Some(n) => n@,
                None => "Column_"@ + crate::num::decimal(i as nat),
            } && r.columns@[i].data_type@ == Seq::<char>::empty(),
        r.rows@.len() == rows@.len(),
        forall|k: int|
            0 <= k < rows@.len() ==> (#[trigger] r.rows@[k])@.len() == rows@[k]@.len() && forall|j: int|
                0 <= j < rows@[k]@.len() ==> (#[trigger] r.rows@[k]@[j])@ == value_text_spec(rows@[k]@[j]),
        r.affected_rows == rows@.len(),
{
    let mut columns: Vec<Column> = Vec::new();
    let mut i: usize = 0;
    while i < names.len()
        invariant
            i <= names@.len(),
            columns@.len() == i,
            forall|c: int|
                0 <= c < i ==> (#[trigger] columns@[c]).name@ == match names@[c] {
                    Some(n) => n@,
                    None => "Column_"@ + crate::num::decimal(c as nat),
                } && columns@[c].data_type@ == Seq::<char>::empty(),
        decreases names.len() - i,
    {
        let label = match &names[i] {
            Some(n) => column_label(Some(n.as_str()), i),
            None => column_label(None, i),
        };
        columns.push(Column { name: label, data_type: String::new() });
        i += 1;
    }
    let mut out: Vec<Vec<String>> = Vec::new();
    let mut k: usize = 0;
    while k < rows.len()
        invariant
            k <= rows@.len(),
            out@.len() == k,
            forall|a: int|
                0 <= a < k ==> (#[trigger] out@[a])@.len() == rows@[a]@.len() && forall|j: int|
                    0 <= j < rows@[a]@.len() ==> (#[trigger] out@[a]@[j])@ == value_text_spec(rows@[a]@[j]),
        decreases rows.len() - k,
    {
        let row = &rows[k];
        let mut texts: Vec<String> = Vec::new();
        let mut j: usize = 0;
        while j < row.len()
            invariant
                j <= row@.len(),
                texts@.len() == j,
                forall|b: int| 0 <= b < j ==> (#[trigger] texts@[b])@ == value_text_spec(row@[b]),
            decreases row.len() - j,
        {
            texts.push(value_text(&row[j]));
            j += 1;
        }
        out.push(texts);
        k += 1;
    }
    let n = out.len();
    QueryResult { columns, rows: out, affected_rows: n }
}

/// The pragma that lists a table's columns.
pub fn table_schema_sql(table_name: &str) -> (r: String)
    ensures
        r@ == "PRAGMA table_info("@ + table_name@ + ")"@,
{
    let mut s = String::from_str("PRAGMA table_info(");
    push_str(&mut s, table_name);
    push_str(&mut s, ")");
    s
}

// ---------------------------------------------------------------------------
// rows

/// A value of a `sqlite3 -json` row.
#[derive(Debug)]
pub enum Cell {
    Null,
    /// An integer that fits `i64`.
    Int(i64),
    Text(String),
    /// Any other value (a float, a huge integer), as JSON text.
    Other(String),
}

/// One row: its `(column, value)` pairs in the order the JSON object holds
/// them.
#[derive(Debug)]
pub struct Row {
    pub cells: Vec<(String, Cell)>,
}

/// The contents of a `Cell`.
pub enum CellView {
    Null,
    Int(i64),
    Text(Seq<char>),
    Other(Seq<char>),
}

impl View for Cell {
    type V = CellView;

    open spec fn view(&self) -> CellView {
        match self {
            Cell::Null => CellView::Null,
            Cell::Int(i) => CellView::Int(*i),
            Cell::Text(s) => CellView::Text(s@),
            Cell::Other(s) => CellView::Other(s@),
        }
    }
}

/// The contents of a `Row`.
pub open spec fn row_view(r: Row) -> Seq<(Seq<char>, CellView)> {
    r.cells@.map_values(|c: (String, Cell)| (c.0@, c.1@))
}

/// The value of the first cell named `key` (`Value::get`).
pub open spec fn field(cells: Seq<(Seq<char>, CellView)>, key: Seq<char>) -> Option<CellView>
    decreases cells.len(),
{
    if cells.len() == 0 {
        None
    } else if cells[0].0 == key {
        Some(cells[0].1)
    } else {
        field(cells.drop_first(), key)
    }
}

/// A row's text field `key`, if it is text (`get(key)?.as_str()`).
pub open spec fn text_field(cells: Seq<(Seq<char>, CellView)>, key: Seq<char>) -> Option<Seq<char>> {
    match field(cells, key) {
        Some(CellView::Text(s)) => Some(s),
        _ => None,
    }
}

/// The text field `key` of each row that has one, in order.
pub open spec fn text_fields(rows: Seq<Row>, key: Seq<char>) -> Seq<Seq<char>>
    decreases rows.len(),
{
    if rows.len() == 0 {
        Seq::<Seq<char>>::empty()
    } else {
        let rest = text_fields(rows.drop_last(), key);
        match text_field(row_view(rows.last()), key) {
            Some(t) => rest.push(t),
            None => rest,
        }
    }
}

/// The text field `key` of one row.
pub fn get_text<'a>(row: &'a Row, key: &str) -> (r: Option<&'a String>)
    ensures
        match text_field(row_view(*row), key@) {
            Some(t) => r matches Some(s) && s@ == t,
            None => r is None,
        },
{
    let k = chars_of(key);
    let ghost cv = row_view(*row);
    let mut i: usize = 0;
    assert(cv.skip(0) =~= cv);
    while i < row.cells.len()
        invariant
            cv == row_view(*row),
            cv.len() == row.cells@.len(),
            k@ == key@,
            i <= cv.len(),
            field(cv, key@) == field(cv.skip(i as int), key@),
        decreases row.cells.len() - i,
    {
        assert(cv.skip(i as int)[0] == cv[i as int]);
        assert(cv.skip(i as int).drop_first() =~= cv.skip(i + 1));
        if seq_eq(&chars_of(row.cells[i].0.as_str()), &k) {
            return match &row.cells[i].1 {
                Cell::Text(s) => Some(s),
                _ => None,
            };
        }
        i += 1;
    }
    None
}

/// The `name` column of each row: `SELECT name FROM ...` results.
pub fn table_names(rows: &Vec<Row>) -> (r: Vec<String>)
    ensures
        r@.map_values(|s: String| s@) == text_fields(rows@, "name"@),
{
    let mut out: Vec<String> = Vec::new();
    let mut i: usize = 0;
    assert(rows@.take(0) =~= Seq::<Row>::empty());
    assert(out@.map_values(|s: String| s@) =~= Seq::<Seq<char>>::empty());
    while i < rows.len()
        invariant
            i <= rows@.len(),
            out@.map_values(|s: String| s@) == text_fields(rows@.take(i as int), "name"@),
        decreases rows.len() - i,
    {
        let ghost before = out@.map_values(|s: String| s@);
        assert(rows@.take(i + 1).drop_last() =~= rows@.take(i as int));
        assert(rows@.take(i + 1).last() == rows@[i as int]);
        match get_text(&rows[i], "name") {
            Some(n) => {
                out.push(n.clone());
                assert(out@.map_values(|s: String| s@) =~= before.push(n@));
            },
            None => {},
        }
        i += 1;
    }
    assert(rows@.take(rows@.len() as int) =~= rows@);
    out
}

// ---------------------------------------------------------------------------
// table names

/// `s` without any `c`.
pub open spec fn remove_char(s: Seq<char>, c: char) -> Seq<char> {
    s.filter(|x: char| x != c)
}

/// `name.to_ascii_uppercase().replace('_', "")`.
pub open spec fn clean_name(s: Seq<char>) -> Seq<char> {
    remove_char(upper_text(s), '_')
}

fn clean_chars(s: &[char]) -> (r: Vec<char>)
    ensures
        r@ == clean_name(s@),
{
    let up = upper_chars(s);
    let mut r: Vec<char> = Vec::new();
    let mut i: usize = 0;
    while i < up.len()
        invariant
            i <= up@.len(),
            up@ == upper_text(s@),
            r@ == remove_char(up@.take(i as int), '_'),
        decreases up.len() - i,
    {
        proof {
            reveal_with_fuel(Seq::filter, 1);
            assert(up@.take(i + 1).drop_last() =~= up@.take(i as int));
        }
        if up[i] != '_' {
            r.push(up[i]);
        }
        i += 1;
    }
    assert(up@.take(up@.len() as int) =~= up@);
    r
}

/// First index in `names` satisfying `m`, or -1.
pub open spec fn first_where(names: Seq<Seq<char>>, m: spec_fn(Seq<char>) -> bool) -> int
    decreases names.len(),
{
    if names.len() == 0 {
        -1
    } else if m(names[0]) {
        0
    } else {
        let r = first_where(names.drop_first(), m);
        if r < 0 {
            -1
        } else {
            r + 1
        }
    }
}

/// Canonical table name: exact match first, then ignoring ASCII case, then
/// also ignoring underscores (`SAPROCESS_TREE` finds `SAPROCESSTREE`).
pub open spec fn resolve_table_spec(names: Seq<Seq<char>>, name: Seq<char>) -> Option<Seq<char>> {
    let e = first_where(names, |n: Seq<char>| n == name);
    let c = first_where(names, |n: Seq<char>| eq_ignore_case(n, name));
    let u = first_where(names, |n: Seq<char>| clean_name(n) == clean_name(name));
    if e >= 0 {
        Some(names[e])
    } else if c >= 0 {
        Some(names[c])
    } else if u >= 0 {
        Some(names[u])
    } else {
        None
    }
}

/// `first_where` is the first index whose name satisfies `m`.
pub proof fn lemma_first_where(names: Seq<Seq<char>>, m: spec_fn(Seq<char>) -> bool)
    ensures
        -1 <= first_where(names, m) < names.len(),
        first_where(names, m) >= 0 ==> m(names[first_where(names, m)]),
        forall|j: int|
            0 <= j < names.len() && (first_where(names, m) < 0 || j < first_where(names, m))
                ==> !m(#[trigger] names[j]),
    decreases names.len(),
{
    if names.len() > 0 && !m(names[0]) {
        lemma_first_where(names.drop_first(), m);
        assert forall|j: int|
            0 <= j < names.len() && (first_where(names, m) < 0 || j < first_where(names, m))
                implies !m(#[trigger] names[j]) by {
            if j > 0 {
                assert(names[j] == names.drop_first()[j - 1]);
            }
        }
    }
}

proof fn lemma_first_where_step(names: Seq<Seq<char>>, m: spec_fn(Seq<char>) -> bool, i: int)
    requires
        0 <= i < names.len(),
    ensures
        first_where(names.skip(i), m) == (if m(names[i]) {
            0
        } else if first_where(names.skip(i + 1), m) < 0 {
            -1
        } else {
            first_where(names.skip(i + 1), m) + 1
        }),
{
    assert(names.skip(i)[0] == names[i]);
    assert(names.skip(i).drop_first() =~= names.skip(i + 1));
}

proof fn lemma_first_where_range(names: Seq<Seq<char>>, m: spec_fn(Seq<char>) -> bool)
    ensures
        -1 <= first_where(names, m) < names.len(),
        first_where(names, m) >= 0 ==> m(names[first_where(names, m)]),
        forall|j: int|
            0 <= j < names.len() && (first_where(names, m) < 0 || j < first_where(names, m))
                ==> !m(#[trigger] names[j]),
    decreases names.len(),
{
    if names.len() > 0 && !m(names[0]) {
        lemma_first_where_range(names.drop_first(), m);
        assert forall|j: int|
            0 <= j < names.len() && (first_where(names, m) < 0 || j < first_where(names, m))
                implies !m(#[trigger] names[j]) by {
            if j > 0 {
                assert(names[j] == names.drop_first()[j - 1]);
            }
        }
    }
}

/// Which of the three matching rules (0 exact, 1 case, 2 underscores) hits
/// first in `names`.
fn find_table(names: &Vec<String>, name: &[char], rule: u8) -> (r: Option<usize>)
    requires
        rule <= 2,
    ensures
        ({
            let nv = names@.map_values(|s: String| s@);
            let m = if rule == 0 {
                |n: Seq<char>| n == name@
            } else if rule == 1 {
                |n: Seq<char>| eq_ignore_case(n, name@)
            } else {
                |n: Seq<char>| clean_name(n) == clean_name(name@)
            };
            match r {
                Some(i) => i < names@.len() && i == first_where(nv, m),
                None => first_where(nv, m) == -1,
            }
        }),
{
    let ghost nv = names@.map_values(|s: String| s@);
    let ghost m = if rule == 0 {
        |n: Seq<char>| n == name@
    } else if rule == 1 {
        |n: Seq<char>| eq_ignore_case(n, name@)
    } else {
        |n: Seq<char>| clean_name(n) == clean_name(name@)
    };
    let target_clean = clean_chars(name);
    let mut i: usize = 0;
    assert(nv.skip(0) =~= nv);
    while i < names.len()
        invariant
            nv == names@.map_values(|s: String| s@),
            target_clean@ == clean_name(name@),
            rule <= 2,
            m == (if rule == 0 {
                |n: Seq<char>| n == name@
            } else if rule == 1 {
                |n: Seq<char>| eq_ignore_case(n, name@)
            } else {
                |n: Seq<char>| clean_name(n) == clean_name(name@)
            }),
            i <= names@.len(),
            first_where(nv, m) == (if first_where(nv.skip(i as int), m) < 0 {
                -1
            } else {
                i + first_where(nv.skip(i as int), m)
            }),
        decreases names.len() - i,
    {
        proof {
            lemma_first_where_step(nv, m, i as int);
        }
        let cand = chars_of(names[i].as_str());
        let hit = if rule == 0 {
            seq_eq(&cand, name)
        } else if rule == 1 {
            let h = range_eq_ignore_case(&cand, 0, cand.len(), name);
            assert(cand@.subrange(0, cand@.len() as int) =~= cand@);
            h
        } else {
            seq_eq(&clean_chars(&cand), &target_clean)
        };
        if hit {
            return Some(i);
        }
        i += 1;
    }
    None
}

/// Resolve the canonical table name from the database's table list,
/// matching exactly, case-insensitively, or ignoring underscores; the error
/// is `unknown table '<name>'`.
pub fn resolve_table_name(names: &Vec<String>, name: &str) -> (r: Result<String, String>)
    ensures
        match resolve_table_spec(names@.map_values(|s: String| s@), name@) {
            Some(t) => r matches Ok(s) && s@ == t,
            None => r matches Err(e) && e@ == "unknown table '"@ + name@ + "'"@,
        },
        r matches Ok(s) ==> names@.map_values(|s: String| s@).contains(s@),
        r is Err <==> forall|j: int|
            0 <= j < names@.len() ==> !(#[trigger] names@[j]@ == name@ || eq_ignore_case(
                names@[j]@,
                name@,
            ) || clean_name(names@[j]@) == clean_name(name@)),
{
    let ghost nv = names@.map_values(|s: String| s@);
    let v = chars_of(name);
    proof {
        lemma_first_where_range(nv, |n: Seq<char>| n == name@);
        lemma_first_where_range(nv, |n: Seq<char>| eq_ignore_case(n, name@));
        lemma_first_where_range(nv, |n: Seq<char>| clean_name(n) == clean_name(name@));
    }
    if let Some(i) = find_table(names, &v, 0) {
        assert(nv[i as int] == names@[i as int]@);
        return Ok(names[i].clone());
    }
    if let Some(i) = find_table(names, &v, 1) {
        assert(nv[i as int] == names@[i as int]@);
        return Ok(names[i].clone());
    }
    if let Some(i) = find_table(names, &v, 2) {
        assert(nv[i as int] == names@[i as int]@);
        return Ok(names[i].clone());
    }
    assert forall|j: int| 0 <= j < names@.len() implies !(#[trigger] names@[j]@ == name@
        || eq_ignore_case(names@[j]@, name@) || clean_name(names@[j]@) == clean_name(name@)) by {
        assert(nv[j] == names@[j]@);
    }
    let mut e = String::from_str("unknown table '");
    push_str(&mut e, name);
    push_str(&mut e, "'");
    Err(e)
}

// ---------------------------------------------------------------------------
// column lists

/// A process-tree table (`SAPROCESSTREE`, any case, underscores ignored).
pub open spec fn is_process_tree(table: Seq<char>) -> bool {
    matches_at(clean_name(table), 0, "SAPROCESSTREE"@)
}

/// Whether `table` is a process-tree table.
pub fn process_tree_table(table: &str) -> (r: bool)
    ensures
        r == is_process_tree(table@),
{
    let clean = clean_chars(&chars_of(table));
    crate::text::match_at(&clean, 0, &chars_of("SAPROCESSTREE"))
}

/// Index of the first column equal to `key` ignoring ASCII case, or -1.
pub open spec fn col_index(cols: Seq<Seq<char>>, key: Seq<char>) -> int {
    first_where(cols, |n: Seq<char>| eq_ignore_case(n, key))
}

/// The virtual columns correlated from SAAPP: APP_NAME, PARENTPID and
/// PARENT_APP_NAME right after PROCESS_ID, CHILD_APPS right after
/// CHILD_PIDS (process-tree tables only).
pub open spec fn with_tree_columns(table: Seq<char>, cols: Seq<Seq<char>>) -> Seq<Seq<char>> {
    if !is_process_tree(table) {
        cols
    } else {
        let p = col_index(cols, "PROCESS_ID"@);
        let c1 = if p >= 0 {
            cols.insert(p + 1, "APP_NAME"@).insert(p + 2, "PARENTPID"@).insert(
                p + 3,
                "PARENT_APP_NAME"@,
            )
        } else {
            cols
        };
        let q = col_index(c1, "CHILD_PIDS"@);
        if q >= 0 {
            c1.insert(q + 1, "CHILD_APPS"@)
        } else {
            c1
        }
    }
}

fn col_position(cols: &Vec<String>, key: &str) -> (r: Option<usize>)
    ensures
        match r {
            Some(i) => i < cols@.len() && i == col_index(cols@.map_values(|s: String| s@), key@),
            None => col_index(cols@.map_values(|s: String| s@), key@) == -1,
        },
{
    let ghost nv = cols@.map_values(|s: String| s@);
    let ghost m = |n: Seq<char>| eq_ignore_case(n, key@);
    let k = chars_of(key);
    let mut i: usize = 0;
    assert(nv.skip(0) =~= nv);
    while i < cols.len()
        invariant
            nv == cols@.map_values(|s: String| s@),
            k@ == key@,
            m == |n: Seq<char>| eq_ignore_case(n, key@),
            i <= cols@.len(),
            first_where(nv, m) == (if first_where(nv.skip(i as int), m) < 0 {
                -1
            } else {
                i + first_where(nv.skip(i as int), m)
            }),
        decreases cols.len() - i,
    {
        proof {
            lemma_first_where_step(nv, m, i as int);
        }
        let cand = chars_of(cols[i].as_str());
        let hit = range_eq_ignore_case(&cand, 0, cand.len(), &k);
        assert(cand@.subrange(0, cand@.len() as int) =~= cand@);
        if hit {
            return Some(i);
        }
        i += 1;
    }
    None
}

/// All column names of `table` (its `pragma_table_info` rows, in field
/// order), plus the virtual columns of process-tree tables.
pub fn table_column_names(table: &str, pragma_rows: &Vec<Row>) -> (r: Vec<String>)
    ensures
        r@.map_values(|s: String| s@) == with_tree_columns(table@, text_fields(pragma_rows@, "name"@)),
{
    let mut cols = table_names(pragma_rows);
    let ghost c0 = cols@.map_values(|s: String| s@);
    let clean = clean_chars(&chars_of(table));
    let tree = crate::text::match_at(&clean, 0, &chars_of("SAPROCESSTREE"));
    if !tree {
        return cols;
    }
    proof {
        lemma_first_where_range(c0, |n: Seq<char>| eq_ignore_case(n, "PROCESS_ID"@));
    }
    if let Some(pos) = col_position(&cols, "PROCESS_ID") {
        let l0 = cols.len();
        assert(pos < l0);
        cols.insert(pos + 1, String::from_str("APP_NAME"));
        let l1 = cols.len();
        assert(pos + 2 <= l1);
        cols.insert(pos + 2, String::from_str("PARENTPID"));
        let l2 = cols.len();
        assert(pos + 3 <= l2);
        cols.insert(pos + 3, String::from_str("PARENT_APP_NAME"));
        assert(cols@.map_values(|s: String| s@) =~= c0.insert(pos + 1, "APP_NAME"@).insert(
            pos + 2,
            "PARENTPID"@,
        ).insert(pos + 3, "PARENT_APP_NAME"@));
    }
    let ghost c1 = cols@.map_values(|s: String| s@);
    proof {
        lemma_first_where_range(c1, |n: Seq<char>| eq_ignore_case(n, "CHILD_PIDS"@));
    }
    if let Some(pos) = col_position(&cols, "CHILD_PIDS") {
        let l0 = cols.len();
        assert(pos < l0);
        cols.insert(pos + 1, String::from_str("CHILD_APPS"));
        assert(cols@.map_values(|s: String| s@) =~= c1.insert(pos + 1, "CHILD_APPS"@));
    }
    cols
}

} // verus!
