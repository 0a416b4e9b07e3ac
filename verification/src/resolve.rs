//! String-ID resolution for the agent database: which IDs of a row set
//! reference the string tables, and what they resolve to.
//!
//! Inventory tables store integer string-IDs, not names: `SASTR` holds
//! system-scope strings, `SASTRUSER` user-scope ones. Fetching the string
//! tables is I/O; deciding what to fetch and what the answers mean is here.

use vstd::prelude::*;
use std::collections::{BTreeMap, BTreeSet};
use crate::db::{Cell, CellView, Row, StrScope, row_view, string_id_column, string_id_column_spec};
use crate::num::decimal_int;

verus! {

broadcast use vstd::laws_cmp::group_laws_cmp, vstd::std_specs::btree::group_btree_axioms;

/// The cells of a row set, row by row.
pub open spec fn rows_cells(rows: Seq<Row>) -> Seq<Seq<(Seq<char>, CellView)>> {
    rows.map_values(|r: Row| row_view(r))
}

/// The IDs of scope `scope` in a row's cells.
pub open spec fn cell_ids(cells: Seq<(Seq<char>, CellView)>, scope: StrScope) -> Set<i64>
    decreases cells.len(),
{
    if cells.len() == 0 {
        Set::empty()
    } else {
        let rest = cell_ids(cells.drop_last(), scope);
        let c = cells.last();
        match (string_id_column_spec(c.0), c.1) {
            (Some(s), CellView::Int(id)) => if s == scope {
                rest.insert(id)
            } else {
                rest
            },
            _ => rest,
        }
    }
}

/// The IDs of scope `scope` in a row set: the integer values of its
/// string-ID columns of that scope.
pub open spec fn scope_ids(rows: Seq<Seq<(Seq<char>, CellView)>>, scope: StrScope) -> Set<i64>
    decreases rows.len(),
{
    if rows.len() == 0 {
        Set::empty()
    } else {
        scope_ids(rows.drop_last(), scope).union(cell_ids(rows.last(), scope))
    }
}

/// A string table's contents.
pub open spec fn table_view(t: BTreeMap<i64, String>) -> Map<i64, Seq<char>> {
    t@.map_values(|s: String| s@)
}

/// What an ID of a column of `scope` resolves to: system-scope columns
/// prefer SASTR and fall back to SASTRUSER (per-user scan strings live
/// there); user-scope columns prefer SASTRUSER.
pub open spec fn lookup(
    scope: StrScope,
    id: i64,
    sastr: Map<i64, Seq<char>>,
    sastruser: Map<i64, Seq<char>>,
) -> Option<Seq<char>> {
    let (primary, fallback) = match scope {
        StrScope::System => (sastr, sastruser),
        StrScope::User => (sastruser, sastr),
    };
    if primary.contains_key(id) {
        Some(primary[id])
    } else if fallback.contains_key(id) {
        Some(fallback[id])
    } else {
        None
    }
}

/// The resolutions a row's cells add, keyed by (column, ID).
pub open spec fn cell_resolutions(
    m: Map<(Seq<char>, i64), Seq<char>>,
    cells: Seq<(Seq<char>, CellView)>,
    sastr: Map<i64, Seq<char>>,
    sastruser: Map<i64, Seq<char>>,
) -> Map<(Seq<char>, i64), Seq<char>>
    decreases cells.len(),
{
    if cells.len() == 0 {
        m
    } else {
        let before = cell_resolutions(m, cells.drop_last(), sastr, sastruser);
        let c = cells.last();
        match (string_id_column_spec(c.0), c.1) {
            (Some(scope), CellView::Int(id)) => match lookup(scope, id, sastr, sastruser) {
                Some(s) => before.insert((c.0, id), s),
                None => before,
            },
            _ => before,
        }
    }
}

/// The resolutions of a row set, keyed by (column, ID).
pub open spec fn resolutions(
    rows: Seq<Seq<(Seq<char>, CellView)>>,
    sastr: Map<i64, Seq<char>>,
    sastruser: Map<i64, Seq<char>>,
) -> Map<(Seq<char>, i64), Seq<char>>
    decreases rows.len(),
{
    if rows.len() == 0 {
        Map::empty()
    } else {
        cell_resolutions(resolutions(rows.drop_last(), sastr, sastruser), rows.last(), sastr, sastruser)
    }
}

/// Resolved strings: `(column, ID, value)` entries; a later entry for the
/// same column and ID replaces an earlier one.
#[derive(Debug)]
pub struct Resolved {
    pub entries: Vec<(String, i64, String)>,
}

/// The map that a list of entries stands for.
pub open spec fn entries_map(es: Seq<(String, i64, String)>) -> Map<(Seq<char>, i64), Seq<char>>
    decreases es.len(),
{
    if es.len() == 0 {
        Map::empty()
    } else {
        entries_map(es.drop_last()).insert((es.last().0@, es.last().1), es.last().2@)
    }
}

impl View for Resolved {
    type V = Map<(Seq<char>, i64), Seq<char>>;

    open spec fn view(&self) -> Map<(Seq<char>, i64), Seq<char>> {
        entries_map(self.entries@)
    }
}

impl Resolved {
    /// Nothing resolved.
    pub fn new() -> (r: Self)
        ensures
            r@ == Map::<(Seq<char>, i64), Seq<char>>::empty(),
    {
        Resolved { entries: Vec::new() }
    }

    /// Record that `id` of `column` resolves to `value`.
    pub fn insert(&mut self, column: String, id: i64, value: String)
        ensures
            final(self)@ == old(self)@.insert((column@, id), value@),
    {
        let ghost es = self.entries@;
        self.entries.push((column, id, value));
        assert(self.entries@.drop_last() =~= es);
    }

    /// What `id` of `column` resolved to.
    pub fn get(&self, column: &str, id: i64) -> (r: Option<&String>)
        ensures
            match r {
                Some(s) => self@.contains_key((column@, id)) && self@[(column@, id)] == s@,
                None => !self@.contains_key((column@, id)),
            },
    {
        let col = crate::text::chars_of(column);
        let mut k = self.entries.len();
        assert(self.entries@.take(k as int) =~= self.entries@);
        while k > 0
            invariant
                col@ == column@,
                k <= self.entries@.len(),
                forall|j: int|
                    k <= j < self.entries@.len() ==> !(self.entries@[j].0@ == column@
                        && self.entries@[j].1 == id),
                lookup_entries(self.entries@, column@, id) == lookup_entries(
                    self.entries@.take(k as int),
                    column@,
                    id,
                ),
            decreases k,
        {
            let e = &self.entries[k - 1];
            assert(self.entries@.take(k as int).drop_last() =~= self.entries@.take(k - 1));
            if e.1 == id && crate::text::seq_eq(&crate::text::chars_of(e.0.as_str()), &col) {
                proof {
                    lemma_entries_lookup(self.entries@, column@, id);
                }
                return Some(&e.2);
            }
            k -= 1;
        }
        proof {
            lemma_entries_lookup(self.entries@, column@, id);
        }
        None
    }

    /// Whether anything of `column` resolved.
    pub fn has_column(&self, column: &str) -> (r: bool)
        ensures
            r == exists|id: i64| self@.contains_key((column@, id)),
    {
        let col = crate::text::chars_of(column);
        let mut i: usize = 0;
        while i < self.entries.len()
            invariant
                col@ == column@,
                i <= self.entries@.len(),
                forall|j: int| 0 <= j < i ==> self.entries@[j].0@ != column@,
            decreases self.entries.len() - i,
        {
            if crate::text::seq_eq(&crate::text::chars_of(self.entries[i].0.as_str()), &col) {
                proof {
                    lemma_entries_keys(self.entries@, i as int);
                    assert(self@.contains_key((column@, self.entries@[i as int].1)));
                }
                return true;
            }
            i += 1;
        }
        proof {
            assert forall|id: i64| !self@.contains_key((column@, id)) by {
                lemma_entries_no_key(self.entries@, column@, id);
            }
        }
        false
    }
}

/// The value of the last entry for (column, ID), if any.
pub open spec fn lookup_entries(es: Seq<(String, i64, String)>, column: Seq<char>, id: i64) -> Option<
    Seq<char>,
>
    decreases es.len(),
{
    if es.len() == 0 {
        None
    } else if es.last().0@ == column && es.last().1 == id {
        Some(es.last().2@)
    } else {
        lookup_entries(es.drop_last(), column, id)
    }
}

proof fn lemma_entries_lookup(es: Seq<(String, i64, String)>, c: Seq<char>, id: i64)
    ensures
        match lookup_entries(es, c, id) {
            Some(v) => entries_map(es).contains_key((c, id)) && entries_map(es)[(c, id)] == v,
            None => !entries_map(es).contains_key((c, id)),
        },
    decreases es.len(),
{
    if es.len() > 0 {
        lemma_entries_lookup(es.drop_last(), c, id);
    }
}

proof fn lemma_entries_keys(es: Seq<(String, i64, String)>, i: int)
    requires
        0 <= i < es.len(),
    ensures
        entries_map(es).contains_key((es[i].0@, es[i].1)),
    decreases es.len(),
{
    if i < es.len() - 1 {
        lemma_entries_keys(es.drop_last(), i);
    }
}

proof fn lemma_entries_no_key(es: Seq<(String, i64, String)>, c: Seq<char>, id: i64)
    requires
        forall|j: int| 0 <= j < es.len() ==> es[j].0@ != c,
    ensures
        !entries_map(es).contains_key((c, id)),
    decreases es.len(),
{
    if es.len() > 0 {
        lemma_entries_no_key(es.drop_last(), c, id);
    }
}

/// Collect the integer values of every candidate string-ID column in
/// `rows`, split by scope (system, user). Non-integer values (already
/// resolved text, NULLs) are skipped.
pub fn candidate_ids(rows: &Vec<Row>) -> (r: (BTreeSet<i64>, BTreeSet<i64>))
    ensures
        r.0@ == scope_ids(rows_cells(rows@), StrScope::System),
        r.1@ == scope_ids(rows_cells(rows@), StrScope::User),
{
    let mut system: BTreeSet<i64> = BTreeSet::new();
    let mut user: BTreeSet<i64> = BTreeSet::new();
    let ghost rc = rows_cells(rows@);
    let mut i: usize = 0;
    while i < rows.len()
        invariant
            rc == rows_cells(rows@),
            i <= rows@.len(),
            system@ == scope_ids(rc.take(i as int), StrScope::System),
            user@ == scope_ids(rc.take(i as int), StrScope::User),
        decreases rows.len() - i,
    {
        let row = &rows[i];
        let ghost cv = row_view(*row);
        let ghost sys0 = system@;
        let ghost usr0 = user@;
        let mut k: usize = 0;
        while k < row.cells.len()
            invariant
                cv == row_view(*row),
                cv.len() == row.cells@.len(),
                k <= row.cells@.len(),
                system@ == sys0.union(cell_ids(cv.take(k as int), StrScope::System)),
                user@ == usr0.union(cell_ids(cv.take(k as int), StrScope::User)),
            decreases row.cells.len() - k,
        {
            let (col, val) = &row.cells[k];
            assert(cv.take(k + 1).drop_last() =~= cv.take(k as int));
            assert(cv.take(k + 1).last() == cv[k as int]);
            assert(cv[k as int] == (col@, val@));
            match (string_id_column(col.as_str()), val) {
                (Some(StrScope::System), Cell::Int(id)) => {
                    system.insert(*id);
                },
                (Some(StrScope::User), Cell::Int(id)) => {
                    user.insert(*id);
                },
                _ => {},
            }
            k += 1;
            assert(system@ =~= sys0.union(cell_ids(cv.take(k as int), StrScope::System)));
            assert(user@ =~= usr0.union(cell_ids(cv.take(k as int), StrScope::User)));
        }
        assert(cv.take(k as int) =~= cv);
        assert(rc.take(i + 1).drop_last() =~= rc.take(i as int));
        assert(rc.take(i + 1).last() == cv);
        i += 1;
    }
    assert(rc.take(i as int) =~= rc);
    (system, user)
}

/// What `id` of a column of `scope` resolves to, from the two string
/// tables.
fn lookup_exec<'a>(
    scope: StrScope,
    id: i64,
    sastr: &'a BTreeMap<i64, String>,
    sastruser: &'a BTreeMap<i64, String>,
) -> (r: Option<&'a String>)
    ensures
        match lookup(scope, id, table_view(*sastr), table_view(*sastruser)) {
            Some(s) => r matches Some(t) && t@ == s,
            None => r is None,
        },
{
    let (primary, fallback) = match scope {
        StrScope::System => (sastr, sastruser),
        StrScope::User => (sastruser, sastr),
    };
    match primary.get(&id) {
        Some(s) => Some(s),
        None => fallback.get(&id),
    }
}

/// Build the resolutions from the two string-table lookups; columns where
/// nothing resolved have no entries.
pub fn pick_resolutions(
    rows: &Vec<Row>,
    sastr: &BTreeMap<i64, String>,
    sastruser: &BTreeMap<i64, String>,
) -> (r: Resolved)
    ensures
        r@ == resolutions(rows_cells(rows@), table_view(*sastr), table_view(*sastruser)),
{
    let ghost rc = rows_cells(rows@);
    let ghost t1 = table_view(*sastr);
    let ghost t2 = table_view(*sastruser);
    let mut out = Resolved::new();
    let mut i: usize = 0;
    while i < rows.len()
        invariant
            rc == rows_cells(rows@),
            t1 == table_view(*sastr),
            t2 == table_view(*sastruser),
            i <= rows@.len(),
            out@ == resolutions(rc.take(i as int), t1, t2),
        decreases rows.len() - i,
    {
        let row = &rows[i];
        let ghost cv = row_view(*row);
        let ghost m0 = out@;
        let mut k: usize = 0;
        while k < row.cells.len()
            invariant
                cv == row_view(*row),
                cv.len() == row.cells@.len(),
                t1 == table_view(*sastr),
                t2 == table_view(*sastruser),
                k <= row.cells@.len(),
                out@ == cell_resolutions(m0, cv.take(k as int), t1, t2),
            decreases row.cells.len() - k,
        {
            let (col, val) = &row.cells[k];
            assert(cv.take(k + 1).drop_last() =~= cv.take(k as int));
            assert(cv.take(k + 1).last() == cv[k as int]);
            assert(cv[k as int] == (col@, val@));
            match string_id_column(col.as_str()) {
                Some(scope) => match val {
                    Cell::Int(id) => match lookup_exec(scope, *id, sastr, sastruser) {
                        Some(s) => {
                            out.insert(col.clone(), *id, s.clone());
                        },
                        None => {},
                    },
                    _ => {},
                },
                None => {},
            }
            k += 1;
        }
        assert(cv.take(k as int) =~= cv);
        assert(rc.take(i + 1).drop_last() =~= rc.take(i as int));
        assert(rc.take(i + 1).last() == cv);
        i += 1;
    }
    assert(rc.take(i as int) =~= rc);
    out
}

/// Every resolution is what the column's scope table says of the ID,
/// the scope's own table first: a column that is no string-ID column never
/// resolves, and an ID resolves to the same text in every row.
pub proof fn lemma_resolution_is_lookup(
    rows: Seq<Seq<(Seq<char>, CellView)>>,
    sastr: Map<i64, Seq<char>>,
    sastruser: Map<i64, Seq<char>>,
    column: Seq<char>,
    id: i64,
)
    requires
        resolutions(rows, sastr, sastruser).contains_key((column, id)),
    ensures
        string_id_column_spec(column) matches Some(scope) && lookup(scope, id, sastr, sastruser)
            == Some(resolutions(rows, sastr, sastruser)[(column, id)]),
    decreases rows.len(),
{
    let prev = resolutions(rows.drop_last(), sastr, sastruser);
    lemma_cells_resolution(prev, rows.last(), sastr, sastruser, column, id);
    if !(string_id_column_spec(column) matches Some(scope) && lookup(scope, id, sastr, sastruser)
        == Some(resolutions(rows, sastr, sastruser)[(column, id)])) {
        lemma_resolution_is_lookup(rows.drop_last(), sastr, sastruser, column, id);
    }
}

/// One row's cells either set (column, ID) to its lookup, or leave it.
proof fn lemma_cells_resolution(
    m: Map<(Seq<char>, i64), Seq<char>>,
    cells: Seq<(Seq<char>, CellView)>,
    sastr: Map<i64, Seq<char>>,
    sastruser: Map<i64, Seq<char>>,
    column: Seq<char>,
    id: i64,
)
    ensures
        ({
            let after = cell_resolutions(m, cells, sastr, sastruser);
            ||| (after.contains_key((column, id)) == m.contains_key((column, id)) && (m.contains_key(
                (column, id),
            ) ==> after[(column, id)] == m[(column, id)]))
            ||| (after.contains_key((column, id)) && (string_id_column_spec(column) matches Some(
                scope,
            ) && lookup(scope, id, sastr, sastruser) == Some(after[(column, id)])))
        }),
    decreases cells.len(),
{
    if cells.len() > 0 {
        lemma_cells_resolution(m, cells.drop_last(), sastr, sastruser, column, id);
    }
}

// ---------------------------------------------------------------------------
// process ids, resolved against SAAPP

/// The SQL that fetches one string table's entries for a list of IDs.
pub fn string_lookup_sql(table: &str, ids: &[i64]) -> (r: String)
    ensures
        r@ == "SELECT STRINGID, STRVALUE FROM "@ + table@ + " WHERE STRINGID IN ("@
            + crate::process_tree::id_list(ids@) + ");"@,
{
    let mut s = String::from_str("SELECT STRINGID, STRVALUE FROM ");
    crate::text::push_str(&mut s, table);
    crate::text::push_str(&mut s, " WHERE STRINGID IN (");
    let l = crate::process_tree::ids_text(ids);
    crate::text::push_str(&mut s, l.as_str());
    crate::text::push_str(&mut s, ");");
    s
}

/// A column that holds process ids (its ASCII-uppercased name).
pub open spec fn pid_column(up: Seq<char>) -> bool {
    up == "PROCESS_ID"@ || up == "PARENTPID"@ || up == "PARENT_PROCESS_ID"@ || up == "IDXPID"@
        || up == "IDXPID2"@ || up == "CHILD_PIDS"@
}

/// A separator of a pid list: comma, semicolon, or whitespace.
pub open spec fn pid_sep(c: char) -> bool {
    c == ',' || c == ';' || crate::text::is_ws(c)
}

/// The pieces of `s` between separators.
pub open spec fn pieces(s: Seq<char>) -> Seq<Seq<char>>
    decreases s.len(),
{
    if s.len() == 0 {
        seq![s]
    } else if pid_sep(s.last()) {
        pieces(s.drop_last()).push(Seq::empty())
    } else {
        let ps = pieces(s.drop_last());
        ps.update(ps.len() - 1, ps.last().push(s.last()))
    }
}

proof fn lemma_pieces_nonempty(s: Seq<char>)
    ensures
        pieces(s).len() >= 1,
    decreases s.len(),
{
    if s.len() > 0 {
        lemma_pieces_nonempty(s.drop_last());
    }
}

/// The process ids a cell mentions: a positive integer, or the positive
/// ids of a separated list.
pub open spec fn cell_pids(v: CellView) -> Set<i64> {
    match v {
        CellView::Int(id) => if id > 0 {
            set![id]
        } else {
            Set::empty()
        },
        CellView::Text(t) => crate::process_tree::positive_ids(pieces(t)),
        _ => Set::empty(),
    }
}

/// The process ids in a row's pid columns.
pub open spec fn row_process_pids(cells: Seq<(Seq<char>, CellView)>) -> Set<i64>
    decreases cells.len(),
{
    if cells.len() == 0 {
        Set::empty()
    } else {
        let rest = row_process_pids(cells.drop_last());
        if pid_column(crate::db::upper_text(cells.last().0)) {
            rest.union(cell_pids(cells.last().1))
        } else {
            rest
        }
    }
}

/// The process ids of a row set.
pub open spec fn process_pids_spec(rows: Seq<Seq<(Seq<char>, CellView)>>) -> Set<i64>
    decreases rows.len(),
{
    if rows.len() == 0 {
        Set::empty()
    } else {
        process_pids_spec(rows.drop_last()).union(row_process_pids(rows.last()))
    }
}

/// The pieces of `s`, as index ranges.
fn piece_ranges(s: &Vec<char>) -> (r: Vec<(usize, usize)>)
    ensures
        crate::process_tree::ranges_text(s@, r@) == pieces(s@),
        forall|k: int| 0 <= k < r@.len() ==> (#[trigger] r@[k]).0 <= r@[k].1 <= s@.len(),
{
    let mut out: Vec<(usize, usize)> = Vec::new();
    out.push((0, 0));
    let mut i: usize = 0;
    assert(crate::process_tree::ranges_text(s@, out@) =~= pieces(s@.take(0)));
    while i < s.len()
        invariant
            i <= s@.len(),
            out@.len() >= 1,
            out@.last().1 == i,
            crate::process_tree::ranges_text(s@, out@) == pieces(s@.take(i as int)),
            forall|k: int| 0 <= k < out@.len() ==> (#[trigger] out@[k]).0 <= out@[k].1 <= i,
        decreases s.len() - i,
    {
        let c = s[i];
        let ghost before = out@;
        let sep = c == ',' || c == ';' || crate::text::char_is_ws(c);
        assert(s@.take(i + 1).drop_last() =~= s@.take(i as int));
        assert(s@.take(i + 1).last() == c);
        if sep {
            out.push((i + 1, i + 1));
            proof {
                let rt = crate::process_tree::ranges_text(s@, before);
                assert(s@.subrange(i + 1, i + 1) =~= Seq::<char>::empty());
                assert(crate::process_tree::ranges_text(s@, out@) =~= rt.push(Seq::empty()));
            }
        } else {
            let last = out.len() - 1;
            let (a, _) = out[last];
            out.set(last, (a, i + 1));
            proof {
                let rt = crate::process_tree::ranges_text(s@, before);
                assert(before[before.len() - 1].0 <= before[before.len() - 1].1);
                assert(rt.last() == s@.subrange(a as int, i as int));
                assert(s@.subrange(a as int, i + 1) =~= s@.subrange(a as int, i as int).push(c));
                assert(crate::process_tree::ranges_text(s@, out@) =~= rt.update(
                    rt.len() - 1,
                    rt.last().push(c),
                ));
            }
        }
        i += 1;
    }
    assert(s@.take(i as int) =~= s@);
    out
}

/// Add the positive ids of the pieces of `s` to `set`.
fn add_piece_ids(set: &mut BTreeSet<i64>, s: &Vec<char>)
    ensures
        final(set)@ == old(set)@.union(crate::process_tree::positive_ids(pieces(s@))),
{
    let rs = piece_ranges(s);
    let ghost parts = pieces(s@);
    let ghost start = set@;
    let mut k: usize = 0;
    while k < rs.len()
        invariant
            parts == pieces(s@),
            crate::process_tree::ranges_text(s@, rs@) == parts,
            forall|j: int| 0 <= j < rs@.len() ==> (#[trigger] rs@[j]).0 <= rs@[j].1 <= s@.len(),
            k <= rs@.len(),
            set@ == start.union(crate::process_tree::positive_ids(parts.take(k as int))),
        decreases rs.len() - k,
    {
        let (a, b) = rs[k];
        assert(crate::process_tree::ranges_text(s@, rs@)[k as int] == s@.subrange(a as int, b as int));
        let (x, y) = crate::text::trim_bounds(s, a, b);
        assert(parts.take(k + 1).drop_last() =~= parts.take(k as int));
        assert(parts.take(k + 1).last() == parts[k as int]);
        match crate::num::parse_i64_range(s, x, y) {
            Some(id) => {
                if id > 0 {
                    set.insert(id);
                }
            },
            None => {},
        }
        k += 1;
        assert(set@ =~= start.union(crate::process_tree::positive_ids(parts.take(k as int))));
    }
    assert(parts.take(k as int) =~= parts);
}

/// Whether `up` names a pid column.
fn is_pid_column(up: &Vec<char>) -> (r: bool)
    ensures
        r == pid_column(up@),
{
    crate::text::seq_eq(up, &crate::text::chars_of("PROCESS_ID"))
        || crate::text::seq_eq(up, &crate::text::chars_of("PARENTPID"))
        || crate::text::seq_eq(up, &crate::text::chars_of("PARENT_PROCESS_ID"))
        || crate::text::seq_eq(up, &crate::text::chars_of("IDXPID"))
        || crate::text::seq_eq(up, &crate::text::chars_of("IDXPID2"))
        || crate::text::seq_eq(up, &crate::text::chars_of("CHILD_PIDS"))
}

/// The process ids that the rows' pid columns mention, to look up in SAAPP.
pub fn process_pids(rows: &Vec<Row>) -> (r: BTreeSet<i64>)
    ensures
        r@ == process_pids_spec(rows_cells(rows@)),
{
    let mut pids: BTreeSet<i64> = BTreeSet::new();
    let ghost rc = rows_cells(rows@);
    let mut i: usize = 0;
    while i < rows.len()
        invariant
            rc == rows_cells(rows@),
            i <= rows@.len(),
            pids@ == process_pids_spec(rc.take(i as int)),
        decreases rows.len() - i,
    {
        let row = &rows[i];
        let ghost cv = row_view(*row);
        let ghost p0 = pids@;
        let mut k: usize = 0;
        while k < row.cells.len()
            invariant
                cv == row_view(*row),
                cv.len() == row.cells@.len(),
                k <= row.cells@.len(),
                pids@ == p0.union(row_process_pids(cv.take(k as int))),
            decreases row.cells.len() - k,
        {
            let (col, val) = &row.cells[k];
            assert(cv.take(k + 1).drop_last() =~= cv.take(k as int));
            assert(cv.take(k + 1).last() == cv[k as int]);
            assert(cv[k as int] == (col@, val@));
            let ghost before = pids@;
            let up = crate::db::upper_chars(&crate::text::chars_of(col.as_str()));
            if is_pid_column(&up) {
                match val {
                    Cell::Int(id) => {
                        if *id > 0 {
                            pids.insert(*id);
                        }
                    },
                    Cell::Text(t) => {
                        add_piece_ids(&mut pids, &crate::text::chars_of(t.as_str()));
                    },
                    _ => {},
                }
            }
            k += 1;
            assert(pids@ =~= p0.union(row_process_pids(cv.take(k as int))));
        }
        assert(cv.take(k as int) =~= cv);
        assert(rc.take(i + 1).drop_last() =~= rc.take(i as int));
        assert(rc.take(i + 1).last() == cv);
        i += 1;
    }
    assert(rc.take(i as int) =~= rc);
    pids
}

/// The SQL that fetches application names for a chunk of pids.
pub fn process_names_sql(ids: &[i64]) -> (r: String)
    ensures
        r@ == "SELECT a.PROCESS_ID, s.STRVALUE as APP_NAME FROM SAAPP a LEFT JOIN SASTR s ON a.APP_ID = s.STRINGID WHERE a.PROCESS_ID IN ("@
            + crate::process_tree::id_list(ids@) + ") GROUP BY a.PROCESS_ID;"@,
{
    let mut s = String::from_str(
        "SELECT a.PROCESS_ID, s.STRVALUE as APP_NAME FROM SAAPP a LEFT JOIN SASTR s ON a.APP_ID = s.STRINGID WHERE a.PROCESS_ID IN (",
    );
    let l = crate::process_tree::ids_text(ids);
    crate::text::push_str(&mut s, l.as_str());
    crate::text::push_str(&mut s, ") GROUP BY a.PROCESS_ID;");
    s
}

/// What a pid cell resolves to: the application name for a process id,
/// "name [PID n]" for a parent pid.
pub open spec fn pid_resolution(up: Seq<char>, id: i64, names: Map<i64, Seq<char>>) -> Option<
    Seq<char>,
> {
    if !names.contains_key(id) {
        None
    } else if up == "PROCESS_ID"@ || up == "IDXPID"@ || up == "IDXPID2"@ {
        Some(names[id])
    } else if up == "PARENTPID"@ || up == "PARENT_PROCESS_ID"@ {
        Some(names[id] + " [PID "@ + decimal_int(id as int) + "]"@)
    } else {
        None
    }
}

/// The process-name resolutions a row's cells add.
pub open spec fn pid_cell_resolutions(
    m: Map<(Seq<char>, i64), Seq<char>>,
    cells: Seq<(Seq<char>, CellView)>,
    names: Map<i64, Seq<char>>,
) -> Map<(Seq<char>, i64), Seq<char>>
    decreases cells.len(),
{
    if cells.len() == 0 {
        m
    } else {
        let before = pid_cell_resolutions(m, cells.drop_last(), names);
        let c = cells.last();
        match c.1 {
            CellView::Int(id) => match pid_resolution(crate::db::upper_text(c.0), id, names) {
                Some(s) => before.insert((c.0, id), s),
                None => before,
            },
            _ => before,
        }
    }
}

/// The process-name resolutions of a row set.
pub open spec fn pid_resolutions(
    m: Map<(Seq<char>, i64), Seq<char>>,
    rows: Seq<Seq<(Seq<char>, CellView)>>,
    names: Map<i64, Seq<char>>,
) -> Map<(Seq<char>, i64), Seq<char>>
    decreases rows.len(),
{
    if rows.len() == 0 {
        m
    } else {
        pid_cell_resolutions(pid_resolutions(m, rows.drop_last(), names), rows.last(), names)
    }
}

/// Add the application names of the rows' process ids (`names`, from
/// SAAPP) to the resolutions.
pub fn add_process_names(rows: &Vec<Row>, names: &BTreeMap<i64, String>, out: &mut Resolved)
    ensures
        final(out)@ == pid_resolutions(old(out)@, rows_cells(rows@), table_view(*names)),
{
    let ghost rc = rows_cells(rows@);
    let ghost nv = table_view(*names);
    let ghost m0 = out@;
    let mut i: usize = 0;
    while i < rows.len()
        invariant
            rc == rows_cells(rows@),
            nv == table_view(*names),
            i <= rows@.len(),
            out@ == pid_resolutions(m0, rc.take(i as int), nv),
        decreases rows.len() - i,
    {
        let row = &rows[i];
        let ghost cv = row_view(*row);
        let ghost r0 = out@;
        let mut k: usize = 0;
        while k < row.cells.len()
            invariant
                cv == row_view(*row),
                cv.len() == row.cells@.len(),
                nv == table_view(*names),
                k <= row.cells@.len(),
                out@ == pid_cell_resolutions(r0, cv.take(k as int), nv),
            decreases row.cells.len() - k,
        {
            let (col, val) = &row.cells[k];
            assert(cv.take(k + 1).drop_last() =~= cv.take(k as int));
            assert(cv.take(k + 1).last() == cv[k as int]);
            assert(cv[k as int] == (col@, val@));
            match val {
                Cell::Int(id) => {
                    let up = crate::db::upper_chars(&crate::text::chars_of(col.as_str()));
                    let own = crate::text::seq_eq(&up, &crate::text::chars_of("PROCESS_ID"))
                        || crate::text::seq_eq(&up, &crate::text::chars_of("IDXPID"))
                        || crate::text::seq_eq(&up, &crate::text::chars_of("IDXPID2"));
                    let parent = crate::text::seq_eq(&up, &crate::text::chars_of("PARENTPID"))
                        || crate::text::seq_eq(&up, &crate::text::chars_of("PARENT_PROCESS_ID"));
                    match names.get(id) {
                        Some(name) => {
                            if own {
                                out.insert(col.clone(), *id, name.clone());
                            } else if parent {
                                let mut t = name.clone();
                                crate::text::push_str(&mut t, " [PID ");
                                crate::num::push_decimal_i64(&mut t, *id);
                                crate::text::push_str(&mut t, "]");
                                out.insert(col.clone(), *id, t);
                            }
                        },
                        None => {},
                    }
                },
                _ => {},
            }
            k += 1;
        }
        assert(cv.take(k as int) =~= cv);
        assert(rc.take(i + 1).drop_last() =~= rc.take(i as int));
        assert(rc.take(i + 1).last() == cv);
        i += 1;
    }
    assert(rc.take(i as int) =~= rc);
}


/// Take in one row of a lookup answer: the text in `text_col` under the
/// integer in `id_col`, when the row has both (a later row replaces an
/// earlier one with the same integer).
pub fn absorb_id_text(map: &mut BTreeMap<i64, String>, row: &Row, id_col: &str, text_col: &str)
    ensures
        table_view(*final(map)) == match (
            crate::process_tree::int_of(crate::db::field(row_view(*row), id_col@)),
            crate::process_tree::text_of(crate::db::field(row_view(*row), text_col@)),
        ) {
            (Some(id), Some(t)) => table_view(*old(map)).insert(id, t),
            _ => table_view(*old(map)),
        },
{
    let id = match crate::process_tree::get_field(row, id_col) {
        Some(Cell::Int(i)) => *i,
        _ => {
            return;
        },
    };
    match crate::process_tree::get_field(row, text_col) {
        Some(Cell::Text(t)) => {
            let ghost before = table_view(*map);
            map.insert(id, t.clone());
            assert(table_view(*map) =~= before.insert(id, t@));
        },
        _ => {},
    }
}

} // verus!
