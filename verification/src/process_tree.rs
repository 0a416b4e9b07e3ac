//! Process-tree rows (`SAPROCESSTREE`) enriched with application names and
//! parents correlated from `SAAPP`.
//!
//! The rows name processes by pid; `tree_pids` says which pids to look up,
//! `pid_lookup_sql` how, `absorb_pid_row` what an answer means, and
//! `enrich_process_tree_rows` adds the correlated columns.

use vstd::prelude::*;
use std::collections::{BTreeMap, BTreeSet};
use crate::db::{Cell, CellView, Row, double_char, escape_str, field, is_process_tree, process_tree_table, row_view};
use crate::num::{decimal_int, parse_i64_range, parse_i64_spec, push_decimal_i64};
use crate::text::{chars_of, eq_ignore_case, find_char, joined, join_strings, push_str,
    range_eq_ignore_case, seq_eq, string_of, string_of_range, trim, trim_bounds, views};
use crate::web::split_on;

verus! {

broadcast use vstd::laws_cmp::group_laws_cmp, vstd::std_specs::btree::group_btree_axioms;

// ---------------------------------------------------------------------------
// reading cells

/// `obj.get(a).or_else(|| obj.get(b))`.
pub open spec fn field_or(cells: Seq<(Seq<char>, CellView)>, a: Seq<char>, b: Seq<char>) -> Option<
    CellView,
> {
    match field(cells, a) {
        Some(v) => Some(v),
        None => field(cells, b),
    }
}

/// `as_i64` of a value.
pub open spec fn int_of(v: Option<CellView>) -> Option<i64> {
    match v {
        Some(CellView::Int(i)) => Some(i),
        _ => None,
    }
}

/// `as_str` of a value.
pub open spec fn text_of(v: Option<CellView>) -> Option<Seq<char>> {
    match v {
        Some(CellView::Text(t)) => Some(t),
        _ => None,
    }
}

/// The first cell named `a`, else the first named `b`.
fn get_field_or<'a>(row: &'a Row, a: &str, b: &str) -> (r: Option<&'a Cell>)
    ensures
        match field_or(row_view(*row), a@, b@) {
            Some(v) => r matches Some(c) && c@ == v,
            None => r is None,
        },
{
    match get_field(row, a) {
        Some(c) => Some(c),
        None => get_field(row, b),
    }
}

/// The first cell named `key`.
pub fn get_field<'a>(row: &'a Row, key: &str) -> (r: Option<&'a Cell>)
    ensures
        match field(row_view(*row), key@) {
            Some(v) => r matches Some(c) && c@ == v,
            None => r is None,
        },
{
    let k = chars_of(key);
    let ghost cv = row_view(*row);
    let mut i: usize = 0;
    assert(cv.skip(0) =~= cv);
    while i < row.cells.len()
        invariant
            cv == row_view(*row),
            cv.len() == row.cells@.len(),
            k@ == key@,
            i <= cv.len(),
            field(cv, key@) == field(cv.skip(i as int), key@),
        decreases row.cells.len() - i,
    {
        assert(cv.skip(i as int)[0] == cv[i as int]);
        assert(cv.skip(i as int).drop_first() =~= cv.skip(i + 1));
        if seq_eq(&chars_of(row.cells[i].0.as_str()), &k) {
            return Some(&row.cells[i].1);
        }
        i += 1;
    }
    None
}

// ---------------------------------------------------------------------------
// splitting on commas

/// The ranges of `s` between occurrences of `c`: `split_on(s, c)` as index
/// pairs.
fn split_ranges(s: &Vec<char>, c: char) -> (r: Vec<(usize, usize)>)
    ensures
        ranges_text(s@, r@) == split_on(s@, c),
        forall|k: int| 0 <= k < r@.len() ==> (#[trigger] r@[k]).0 <= r@[k].1 <= s@.len(),
{
    let n = s.len();
    let mut out: Vec<(usize, usize)> = Vec::new();
    let mut start: usize = 0;
    assert(s@.skip(0) =~= s@);
    loop
        invariant
            n == s@.len(),
            start <= n,
            split_on(s@, c) == ranges_text(s@, out@) + split_on(s@.skip(start as int), c),
            forall|k: int| 0 <= k < out@.len() ==> (#[trigger] out@[k]).0 <= out@[k].1 <= n,
        decreases n - start,
    {
        let ghost rest = s@.skip(start as int);
        assert(s@.subrange(start as int, n as int) =~= rest);
        proof {
            crate::text::lemma_index_of(rest, c);
        }
        match find_char(s, start, n, c) {
            Some(e) => {
                assert(rest.take(e - start) =~= s@.subrange(start as int, e as int));
                assert(rest.skip(e - start + 1) =~= s@.skip(e + 1));
                let ghost before = out@;
                out.push((start, e));
                proof {
                    lemma_ranges_text_push(s@, before, (start, e));
                    assert(split_on(s@, c) =~= ranges_text(s@, out@) + split_on(s@.skip(e + 1), c));
                }
                start = e + 1;
            },
            None => {
                let ghost before = out@;
                out.push((start, n));
                proof {
                    lemma_ranges_text_push(s@, before, (start, n));
                    assert(split_on(s@, c) =~= ranges_text(s@, out@));
                }
                return out;
            },
        }
    }
}

/// The texts of a list of ranges.
pub open spec fn ranges_text(s: Seq<char>, rs: Seq<(usize, usize)>) -> Seq<Seq<char>> {
    rs.map_values(|r: (usize, usize)| s.subrange(r.0 as int, r.1 as int))
}

proof fn lemma_ranges_text_push(s: Seq<char>, rs: Seq<(usize, usize)>, r: (usize, usize))
    ensures
        ranges_text(s, rs.push(r)) == ranges_text(s, rs).push(s.subrange(r.0 as int, r.1 as int)),
{
    assert(ranges_text(s, rs.push(r)) =~= ranges_text(s, rs).push(s.subrange(r.0 as int, r.1 as int)));
}

proof fn lemma_ranges_text_index(s: Seq<char>, rs: Seq<(usize, usize)>)
    ensures
        forall|k: int|
            0 <= k < rs.len() ==> #[trigger] ranges_text(s, rs)[k] == s.subrange(
                rs[k].0 as int,
                rs[k].1 as int,
            ),
{
}

// ---------------------------------------------------------------------------
// which pids to look up

/// The positive integers among comma-separated parts (each trimmed).
pub open spec fn positive_ids(parts: Seq<Seq<char>>) -> Set<i64>
    decreases parts.len(),
{
    if parts.len() == 0 {
        Set::empty()
    } else {
        let rest = positive_ids(parts.drop_last());
        match parse_i64_spec(trim(parts.last())) {
            Some(id) => if id > 0 {
                rest.insert(id as i64)
            } else {
                rest
            },
            None => rest,
        }
    }
}

/// The pids a row mentions: its positive `PROCESS_ID`, and the positive
/// ids of its `CHILD_PIDS` list.
pub open spec fn row_pids(cells: Seq<(Seq<char>, CellView)>) -> Set<i64> {
    let own = match int_of(field_or(cells, "PROCESS_ID"@, "process_Id"@)) {
        Some(p) => if p > 0 {
            set![p]
        } else {
            Set::empty()
        },
        None => Set::empty(),
    };
    let children = match text_of(field_or(cells, "CHILD_PIDS"@, "child_Pids"@)) {
        Some(t) => positive_ids(split_on(t, ',')),
        None => Set::empty(),
    };
    own.union(children)
}

/// The pids of a row set.
pub open spec fn rows_pids(rows: Seq<Row>) -> Set<i64>
    decreases rows.len(),
{
    if rows.len() == 0 {
        Set::empty()
    } else {
        rows_pids(rows.drop_last()).union(row_pids(row_view(rows.last())))
    }
}

/// The pids to look up for a table's rows: none unless it is a
/// process-tree table.
pub open spec fn tree_pids_spec(table: Seq<char>, rows: Seq<Row>) -> Set<i64> {
    if !is_process_tree(table) {
        Set::empty()
    } else {
        rows_pids(rows)
    }
}

/// Add the positive ids of `s`'s comma-separated parts to `set`.
fn add_positive_ids(set: &mut BTreeSet<i64>, s: &Vec<char>)
    ensures
        final(set)@ == old(set)@.union(positive_ids(split_on(s@, ','))),
{
    let rs = split_ranges(s, ',');
    let ghost parts = split_on(s@, ',');
    let ghost start = set@;
    let mut k: usize = 0;
    while k < rs.len()
        invariant
            parts == split_on(s@, ','),
            ranges_text(s@, rs@) == parts,
            forall|j: int| 0 <= j < rs@.len() ==> (#[trigger] rs@[j]).0 <= rs@[j].1 <= s@.len(),
            k <= rs@.len(),
            set@ == start.union(positive_ids(parts.take(k as int))),
        decreases rs.len() - k,
    {
        let (a, b) = rs[k];
        proof {
            lemma_ranges_text_index(s@, rs@);
        }
        assert(s@.subrange(a as int, b as int) == parts[k as int]);
        let (x, y) = trim_bounds(s, a, b);
        assert(parts.take(k + 1).drop_last() =~= parts.take(k as int));
        assert(parts.take(k + 1).last() == parts[k as int]);
        match parse_i64_range(s, x, y) {
            Some(id) => {
                if id > 0 {
                    set.insert(id);
                }
            },
            None => {},
        }
        k += 1;
        assert(set@ =~= start.union(positive_ids(parts.take(k as int))));
    }
    assert(parts.take(k as int) =~= parts);
}

/// The pids whose application names a process-tree table's rows need.
pub fn tree_pids(table: &str, rows: &Vec<Row>) -> (r: BTreeSet<i64>)
    ensures
        r@ == tree_pids_spec(table@, rows@),
{
    let mut pids: BTreeSet<i64> = BTreeSet::new();
    if !process_tree_table(table) {
        return pids;
    }
    let mut i: usize = 0;
    while i < rows.len()
        invariant
            i <= rows@.len(),
            pids@ == rows_pids(rows@.take(i as int)),
        decreases rows.len() - i,
    {
        let row = &rows[i];
        let ghost before = pids@;
        let ghost cv = row_view(*row);
        match get_field_or(row, "PROCESS_ID", "process_Id") {
            Some(Cell::Int(p)) => {
                if *p > 0 {
                    pids.insert(*p);
                }
            },
            _ => {},
        }
        match get_field_or(row, "CHILD_PIDS", "child_Pids") {
            Some(Cell::Text(t)) => {
                add_positive_ids(&mut pids, &chars_of(t.as_str()));
            },
            _ => {},
        }
        assert(rows@.take(i + 1).drop_last() =~= rows@.take(i as int));
        assert(rows@.take(i + 1).last() == *row);
        i += 1;
        assert(pids@ =~= before.union(row_pids(cv)));
    }
    assert(rows@.take(i as int) =~= rows@);
    pids
}

/// The lookup of a chunk of pids: each one's application name, parent pid
/// and the parent's application name.
pub open spec fn pid_lookup_sql_spec(list: Seq<char>) -> Seq<char> {
    "SELECT a.PROCESS_ID, a.PARENTPID, s.STRVALUE as APP_NAME, sp.STRVALUE as PARENT_APP_NAME FROM SAAPP a LEFT JOIN SASTR s ON a.APP_ID = s.STRINGID LEFT JOIN SAAPP ap ON a.PARENTPID = ap.PROCESS_ID LEFT JOIN SASTR sp ON ap.APP_ID = sp.STRINGID WHERE a.PROCESS_ID IN ("@
        + list + ") OR a.PARENTPID IN ("@ + list + ") GROUP BY a.PROCESS_ID;"@
}

/// The ids of a chunk, comma-separated.
pub open spec fn id_list(ids: Seq<i64>) -> Seq<char> {
    joined(ids.map_values(|i: i64| decimal_int(i as int)), ","@)
}

/// The SQL that looks up one chunk of pids.
pub fn pid_lookup_sql(ids: &[i64]) -> (r: String)
    ensures
        r@ == pid_lookup_sql_spec(id_list(ids@)),
{
    let list = ids_text(ids);
    let mut s = String::from_str(
        "SELECT a.PROCESS_ID, a.PARENTPID, s.STRVALUE as APP_NAME, sp.STRVALUE as PARENT_APP_NAME FROM SAAPP a LEFT JOIN SASTR s ON a.APP_ID = s.STRINGID LEFT JOIN SAAPP ap ON a.PARENTPID = ap.PROCESS_ID LEFT JOIN SASTR sp ON ap.APP_ID = sp.STRINGID WHERE a.PROCESS_ID IN (",
    );
    push_str(&mut s, list.as_str());
    push_str(&mut s, ") OR a.PARENTPID IN (");
    push_str(&mut s, list.as_str());
    push_str(&mut s, ") GROUP BY a.PROCESS_ID;");
    s
}

/// `ids` comma-separated.
pub fn ids_text(ids: &[i64]) -> (r: String)
    ensures
        r@ == id_list(ids@),
{
    let mut parts: Vec<String> = Vec::new();
    let mut i: usize = 0;
    while i < ids.len()
        invariant
            i <= ids@.len(),
            views(parts@) == ids@.take(i as int).map_values(|x: i64| decimal_int(x as int)),
        decreases ids.len() - i,
    {
        let mut t = String::new();
        push_decimal_i64(&mut t, ids[i]);
        let ghost prev = views(parts@);
        let ghost tv = t@;
        parts.push(t);
        assert(views(parts@) =~= prev.push(tv));
        assert(ids@.take(i + 1) =~= ids@.take(i as int).push(ids@[i as int]));
        i += 1;
        assert(views(parts@) =~= ids@.take(i as int).map_values(|x: i64| decimal_int(x as int)));
    }
    assert(ids@.take(i as int) =~= ids@);
    join_strings(&parts, ",")
}

// ---------------------------------------------------------------------------
// what the lookups said

/// Application names and parents by pid.
#[derive(Debug)]
pub struct PidNames {
    pub app: BTreeMap<i64, String>,
    pub parent: BTreeMap<i64, i64>,
    pub parent_app: BTreeMap<i64, String>,
}

impl PidNames {
    /// Nothing known.
    pub fn new() -> (r: Self)
        ensures
            r.app@ == Map::<i64, String>::empty(),
            r.parent@ == Map::<i64, i64>::empty(),
            r.parent_app@ == Map::<i64, String>::empty(),
    {
        PidNames { app: BTreeMap::new(), parent: BTreeMap::new(), parent_app: BTreeMap::new() }
    }

    /// Take in one row of a lookup answer: for a row with a `PROCESS_ID`,
    /// its `APP_NAME`, `PARENTPID` and `PARENT_APP_NAME` where present.
    pub fn absorb(&mut self, item: &Row)
        ensures
            ({
                let cells = row_view(*item);
                let name = text_of(field(cells, "APP_NAME"@));
                let parent = int_of(field(cells, "PARENTPID"@));
                let parent_name = text_of(field(cells, "PARENT_APP_NAME"@));
                let after = *final(self);
                match int_of(field(cells, "PROCESS_ID"@)) {
                    Some(p) => {
                        &&& after.app@.dom() == (if name is Some {
                            old(self).app@.dom().insert(p)
                        } else {
                            old(self).app@.dom()
                        })
                        &&& forall|q: i64|
                            #![trigger after.app@[q]]
                            after.app@.contains_key(q) ==> after.app@[q]@ == (if q == p
                                && name is Some {
                                name->0
                            } else {
                                old(self).app@[q]@
                            })
                        &&& after.parent@ == (match parent {
                            Some(pp) => old(self).parent@.insert(p, pp),
                            None => old(self).parent@,
                        })
                        &&& after.parent_app@.dom() == (if parent_name is Some {
                            old(self).parent_app@.dom().insert(p)
                        } else {
                            old(self).parent_app@.dom()
                        })
                        &&& forall|q: i64|
                            #![trigger after.parent_app@[q]]
                            after.parent_app@.contains_key(q) ==> after.parent_app@[q]@ == (if q
                                == p && parent_name is Some {
                                parent_name->0
                            } else {
                                old(self).parent_app@[q]@
                            })
                    },
                    None => after.app@ == old(self).app@ && after.parent@ == old(self).parent@
                        && after.parent_app@ == old(self).parent_app@,
                }
            }),
    {
        let pid = get_field(item, "PROCESS_ID");
        let parent = get_field(item, "PARENTPID");
        let name = get_field(item, "APP_NAME");
        let parent_name = get_field(item, "PARENT_APP_NAME");
        match pid {
            Some(Cell::Int(p)) => {
                match name {
                    Some(Cell::Text(n)) => {
                        self.app.insert(*p, n.clone());
                    },
                    _ => {},
                }
                match parent {
                    Some(Cell::Int(pp)) => {
                        self.parent.insert(*p, *pp);
                    },
                    _ => {},
                }
                match parent_name {
                    Some(Cell::Text(n)) => {
                        self.parent_app.insert(*p, n.clone());
                    },
                    _ => {},
                }
            },
            _ => {},
        }
    }
}

// ---------------------------------------------------------------------------
// the correlated columns

/// "PID 123" for a pid without a known application.
pub open spec fn pid_text(pid: i64) -> Seq<char> {
    "PID "@ + decimal_int(pid as int)
}

/// A pid's application name.
pub open spec fn app_name(app: Map<i64, String>, pid: i64) -> Seq<char> {
    if app.contains_key(pid) {
        app[pid]@
    } else {
        pid_text(pid)
    }
}

/// A pid's parent application name, "Unknown" without a known parent.
pub open spec fn parent_app_name(n: PidNames, pid: i64) -> Seq<char> {
    if n.parent@.contains_key(pid) {
        let pp = n.parent@[pid];
        if n.parent_app@.contains_key(pid) {
            n.parent_app@[pid]@
        } else {
            app_name(n.app@, pp)
        }
    } else {
        "Unknown"@
    }
}

/// One part of a `CHILD_PIDS` list, labelled: "name [pid]" for a pid with a
/// known application, else the trimmed part; empty parts are dropped.
pub open spec fn child_label(app: Map<i64, String>, part: Seq<char>) -> Option<Seq<char>> {
    let t = trim(part);
    if t.len() == 0 {
        None
    } else {
        match parse_i64_spec(t) {
            Some(id) => if app.contains_key(id as i64) {
                Some(app[id as i64]@ + " ["@ + decimal_int(id) + "]"@)
            } else {
                Some(t)
            },
            None => Some(t),
        }
    }
}

/// The labels of a list's parts.
pub open spec fn child_labels(app: Map<i64, String>, parts: Seq<Seq<char>>) -> Seq<Seq<char>>
    decreases parts.len(),
{
    if parts.len() == 0 {
        Seq::empty()
    } else {
        let rest = child_labels(app, parts.drop_last());
        match child_label(app, parts.last()) {
            Some(l) => rest.push(l),
            None => rest,
        }
    }
}

/// The `CHILD_APPS` text for a `CHILD_PIDS` value.
pub open spec fn child_apps(app: Map<i64, String>, v: CellView) -> Seq<char> {
    match v {
        CellView::Text(t) => joined(child_labels(app, split_on(t, ',')), ", "@),
        _ => Seq::empty(),
    }
}

/// The cells inserted after a cell of a row whose pid is `pid`.
pub open spec fn extra_cells(n: PidNames, pid: i64, cell: (Seq<char>, CellView)) -> Seq<
    (Seq<char>, CellView),
> {
    if eq_ignore_case(cell.0, "PROCESS_ID"@) {
        seq![
            ("APP_NAME"@, CellView::Text(app_name(n.app@, pid))),
            ("PARENTPID"@, if n.parent@.contains_key(pid) {
                CellView::Int(n.parent@[pid])
            } else {
                CellView::Null
            }),
            ("PARENT_APP_NAME"@, CellView::Text(parent_app_name(n, pid))),
        ]
    } else if eq_ignore_case(cell.0, "CHILD_PIDS"@) {
        seq![("CHILD_APPS"@, CellView::Text(child_apps(n.app@, cell.1)))]
    } else {
        Seq::empty()
    }
}

/// A row's cells with the correlated columns after `PROCESS_ID` and
/// `CHILD_PIDS`.
pub open spec fn enriched_cells(n: PidNames, pid: i64, cells: Seq<(Seq<char>, CellView)>) -> Seq<
    (Seq<char>, CellView),
>
    decreases cells.len(),
{
    if cells.len() == 0 {
        cells
    } else {
        enriched_cells(n, pid, cells.drop_last()) + seq![cells.last()] + extra_cells(
            n,
            pid,
            cells.last(),
        )
    }
}

/// The pid a row is about (0 when it has none).
pub open spec fn row_pid(cells: Seq<(Seq<char>, CellView)>) -> i64 {
    match int_of(field_or(cells, "PROCESS_ID"@, "process_Id"@)) {
        Some(p) => p,
        None => 0,
    }
}

/// A row, enriched.
pub open spec fn enriched_row(n: PidNames, cells: Seq<(Seq<char>, CellView)>) -> Seq<
    (Seq<char>, CellView),
> {
    enriched_cells(n, row_pid(cells), cells)
}

fn app_name_exec(app: &BTreeMap<i64, String>, pid: i64) -> (r: String)
    ensures
        r@ == app_name(app@, pid),
{
    match app.get(&pid) {
        Some(s) => s.clone(),
        None => {
            let mut t = String::from_str("PID ");
            push_decimal_i64(&mut t, pid);
            t
        },
    }
}

fn parent_app_exec(n: &PidNames, pid: i64) -> (r: String)
    ensures
        r@ == parent_app_name(*n, pid),
{
    match n.parent.get(&pid) {
        Some(pp) => match n.parent_app.get(&pid) {
            Some(s) => s.clone(),
            None => app_name_exec(&n.app, *pp),
        },
        None => String::from_str("Unknown"),
    }
}

fn child_apps_exec(app: &BTreeMap<i64, String>, t: &str) -> (r: String)
    ensures
        r@ == child_apps(app@, CellView::Text(t@)),
{
    let s = chars_of(t);
    let rs = split_ranges(&s, ',');
    let ghost parts = split_on(s@, ',');
    let mut labels: Vec<String> = Vec::new();
    let mut k: usize = 0;
    while k < rs.len()
        invariant
            parts == split_on(s@, ','),
            ranges_text(s@, rs@) == parts,
            forall|j: int| 0 <= j < rs@.len() ==> (#[trigger] rs@[j]).0 <= rs@[j].1 <= s@.len(),
            k <= rs@.len(),
            views(labels@) == child_labels(app@, parts.take(k as int)),
        decreases rs.len() - k,
    {
        let (a, b) = rs[k];
        proof {
            lemma_ranges_text_index(s@, rs@);
        }
        assert(s@.subrange(a as int, b as int) == parts[k as int]);
        let (x, y) = trim_bounds(&s, a, b);
        assert(parts.take(k + 1).drop_last() =~= parts.take(k as int));
        assert(parts.take(k + 1).last() == parts[k as int]);
        let ghost before = views(labels@);
        if x < y {
            let label = match parse_i64_range(&s, x, y) {
                Some(id) => match app.get(&id) {
                    Some(name) => {
                        let mut l = name.clone();
                        push_str(&mut l, " [");
                        push_decimal_i64(&mut l, id);
                        push_str(&mut l, "]");
                        l
                    },
                    None => string_of_range(&s, x, y),
                },
                None => string_of_range(&s, x, y),
            };
            labels.push(label);
            assert(views(labels@) =~= before.push(views(labels@).last()));
        }
        k += 1;
        assert(views(labels@) =~= child_labels(app@, parts.take(k as int)));
    }
    assert(parts.take(k as int) =~= parts);
    join_strings(&labels, ", ")
}

fn text_cell(name: &str, value: String) -> (r: (String, Cell))
    ensures
        r.0@ == name@,
        r.1@ == CellView::Text(value@),
{
    (String::from_str(name), Cell::Text(value))
}

/// The row with the correlated columns.
fn enrich_row(row: Row, n: &PidNames) -> (r: Row)
    ensures
        row_view(r) == enriched_row(*n, row_view(row)),
{
    let pid: i64 = match get_field_or(&row, "PROCESS_ID", "process_Id") {
        Some(Cell::Int(p)) => *p,
        _ => 0,
    };
    let ghost cv = row_view(row);
    let total = row.cells.len();
    let mut rest = row.cells;
    let mut out: Vec<(String, Cell)> = Vec::new();
    let mut i: usize = 0;
    while rest.len() > 0
        invariant
            total == cv.len(),
            i + rest@.len() == cv.len(),
            rest@.map_values(|c: (String, Cell)| (c.0@, c.1@)) == cv.skip(i as int),
            out@.map_values(|c: (String, Cell)| (c.0@, c.1@)) == enriched_cells(
                *n,
                pid,
                cv.take(i as int),
            ),
        decreases rest.len(),
    {
        assert(cv.skip(i as int)[0] == (rest@[0].0@, rest@[0].1@));
        let (k, v) = rest.remove(0);
        assert(cv.skip(i as int).drop_first() =~= cv.skip(i + 1));
        assert(cv.take(i + 1).drop_last() =~= cv.take(i as int));
        assert(cv.take(i + 1).last() == (k@, v@));
        let ghost before = out@.map_values(|c: (String, Cell)| (c.0@, c.1@));
        let kc = chars_of(k.as_str());
        assert(kc@.subrange(0, kc@.len() as int) =~= kc@);
        let is_pid = range_eq_ignore_case(&kc, 0, kc.len(), &chars_of("PROCESS_ID"));
        let is_children = range_eq_ignore_case(&kc, 0, kc.len(), &chars_of("CHILD_PIDS"));
        let children = if is_children {
            match &v {
                Cell::Text(t) => child_apps_exec(&n.app, t.as_str()),
                _ => String::new(),
            }
        } else {
            String::new()
        };
        let ghost vv = v@;
        out.push((k, v));
        if is_pid {
            out.push(text_cell("APP_NAME", app_name_exec(&n.app, pid)));
            let parent_cell = match n.parent.get(&pid) {
                Some(pp) => Cell::Int(*pp),
                None => Cell::Null,
            };
            out.push((String::from_str("PARENTPID"), parent_cell));
            out.push(text_cell("PARENT_APP_NAME", parent_app_exec(n, pid)));
        } else if is_children {
            out.push(text_cell("CHILD_APPS", children));
        }
        i += 1;
        assert(out@.map_values(|c: (String, Cell)| (c.0@, c.1@)) =~= enriched_cells(
            *n,
            pid,
            cv.take(i as int),
        ));
    }
    assert(cv.take(i as int) =~= cv);
    Row { cells: out }
}

/// Enrich rows of `SAPROCESSTREE` tables with the application names and
/// parent pids correlated from `SAAPP` (`names`, from the lookups of
/// `tree_pids`). Other tables, and row sets with no pid, are left as they
/// are.
pub fn enrich_process_tree_rows(table_name: &str, rows: &mut Vec<Row>, names: &PidNames)
    ensures
        ({
            let before = old(rows)@.map_values(|r: Row| row_view(r));
            let after = final(rows)@.map_values(|r: Row| row_view(r));
            if tree_pids_spec(table_name@, old(rows)@).is_empty() {
                after == before
            } else {
                after == before.map_values(|c: Seq<(Seq<char>, CellView)>| enriched_row(*names, c))
            }
        }),
{
    let pids = tree_pids(table_name, rows);
    if pids.is_empty() {
        return;
    }
    let ghost before = rows@.map_values(|r: Row| row_view(r));
    let total = rows.len();
    let mut out: Vec<Row> = Vec::new();
    let mut i: usize = 0;
    while rows.len() > 0
        invariant
            total == before.len(),
            i + rows@.len() == before.len(),
            rows@.map_values(|r: Row| row_view(r)) == before.skip(i as int),
            out@.map_values(|r: Row| row_view(r)) == before.take(i as int).map_values(
                |c: Seq<(Seq<char>, CellView)>| enriched_row(*names, c),
            ),
        decreases rows.len(),
    {
        assert(before.skip(i as int)[0] == row_view(rows@[0]));
        let row = rows.remove(0);
        let ghost rv = row_view(row);
        assert(rv == before[i as int]);
        assert(before.skip(i as int).drop_first() =~= before.skip(i + 1));
        let ghost prev = out@.map_values(|r: Row| row_view(r));
        let e = enrich_row(row, names);
        let ghost ev = row_view(e);
        out.push(e);
        assert(out@.map_values(|r: Row| row_view(r)) =~= prev.push(ev));
        assert(before.take(i + 1) =~= before.take(i as int).push(rv));
        i += 1;
        assert(out@.map_values(|r: Row| row_view(r)) =~= before.take(i as int).map_values(
            |c: Seq<(Seq<char>, CellView)>| enriched_row(*names, c),
        ));
    }
    assert(before.take(i as int) =~= before);
    *rows = out;
}


// ---------------------------------------------------------------------------
// a process's ancestry and children

/// How many ancestors a tree query follows at most.
pub const ANCESTRY_DEPTH: usize = 20;

/// The columns and joins shared by the target query.
pub open spec fn target_head() -> Seq<char> {
    "SELECT a.PROCESS_ID, a.PARENTPID, a.START_TIME, a.END_TIME, a.EXIT_CODE, s.STRVALUE as APP_NAME, p.STRVALUE as PATH_NAME, c.STRVALUE as CMDLINE FROM SAAPP a LEFT JOIN SASTR s ON a.APP_ID = s.STRINGID LEFT JOIN SASTR p ON a.PATH_ID = p.STRINGID LEFT JOIN SASTR c ON a.CMDLINE_ID = c.STRINGID WHERE "@
}

/// The query for the processes a trimmed, non-empty pattern names: by pid
/// (as itself or as a parent) when it parses as an `i64`, else by a
/// substring of the application name, path or command line.
pub open spec fn target_sql_spec(clean: Seq<char>) -> Seq<char> {
    match parse_i64_spec(clean) {
        Some(pid) => target_head() + "a.PROCESS_ID = "@ + decimal_int(pid) + " OR a.PARENTPID = "@
            + decimal_int(pid) + " ORDER BY a.START_TIME DESC LIMIT 15;"@,
        None => {
            let q = double_char(clean, '\'');
            target_head() + "s.STRVALUE LIKE '%"@ + q + "%' OR p.STRVALUE LIKE '%"@ + q
                + "%' OR c.STRVALUE LIKE '%"@ + q + "%' ORDER BY a.START_TIME DESC LIMIT 15;"@
        },
    }
}

/// The query for the processes that `pattern` names; an empty (or
/// all-blank) pattern is refused.
pub fn target_sql(pattern: &str) -> (r: Result<String, String>)
    ensures
        trim(pattern@).len() == 0 <==> r is Err,
        r matches Ok(s) ==> s@ == target_sql_spec(trim(pattern@)),
        r matches Err(e) ==> e@ == "pattern or pid cannot be empty"@,
{
    let clean = crate::text::trim_chars(&chars_of(pattern));
    if clean.len() == 0 {
        return Err(String::from_str("pattern or pid cannot be empty"));
    }
    assert(clean@.subrange(0, clean@.len() as int) =~= clean@);
    let mut s = String::from_str(
        "SELECT a.PROCESS_ID, a.PARENTPID, a.START_TIME, a.END_TIME, a.EXIT_CODE, s.STRVALUE as APP_NAME, p.STRVALUE as PATH_NAME, c.STRVALUE as CMDLINE FROM SAAPP a LEFT JOIN SASTR s ON a.APP_ID = s.STRINGID LEFT JOIN SASTR p ON a.PATH_ID = p.STRINGID LEFT JOIN SASTR c ON a.CMDLINE_ID = c.STRINGID WHERE ",
    );
    match parse_i64_range(&clean, 0, clean.len()) {
        Some(pid) => {
            push_str(&mut s, "a.PROCESS_ID = ");
            push_decimal_i64(&mut s, pid);
            push_str(&mut s, " OR a.PARENTPID = ");
            push_decimal_i64(&mut s, pid);
            push_str(&mut s, " ORDER BY a.START_TIME DESC LIMIT 15;");
        },
        None => {
            let text = string_of(&clean);
            let q = escape_str(text.as_str());
            push_str(&mut s, "s.STRVALUE LIKE '%");
            push_str(&mut s, q.as_str());
            push_str(&mut s, "%' OR p.STRVALUE LIKE '%");
            push_str(&mut s, q.as_str());
            push_str(&mut s, "%' OR c.STRVALUE LIKE '%");
            push_str(&mut s, q.as_str());
            push_str(&mut s, "%' ORDER BY a.START_TIME DESC LIMIT 15;");
        },
    }
    assert(s@ =~= target_sql_spec(clean@));
    Ok(s)
}

/// The query for one ancestor: the newest `SAAPP` row of `parent` that
/// started no later than its child (`start`, when the child has one).
pub open spec fn ancestor_sql_spec(parent: i64, start: Seq<char>) -> Seq<char> {
    let time_filter = if start.len() > 0 {
        " AND START_TIME <= '"@ + double_char(start, '\'') + "'"@
    } else {
        Seq::empty()
    };
    "SELECT a.PROCESS_ID, a.PARENTPID, a.START_TIME, a.END_TIME, s.STRVALUE as APP_NAME, p.STRVALUE as PATH_NAME, c.STRVALUE as CMDLINE FROM SAAPP a LEFT JOIN SASTR s ON a.APP_ID = s.STRINGID LEFT JOIN SASTR p ON a.PATH_ID = p.STRINGID LEFT JOIN SASTR c ON a.CMDLINE_ID = c.STRINGID WHERE a.PROCESS_ID = "@
        + decimal_int(parent as int) + time_filter + " ORDER BY a.START_TIME DESC LIMIT 1;"@
}

/// The query for one ancestor (see `ancestor_sql_spec`).
pub fn ancestor_sql(parent: i64, start: &str) -> (r: String)
    ensures
        r@ == ancestor_sql_spec(parent, start@),
{
    let mut s = String::from_str(
        "SELECT a.PROCESS_ID, a.PARENTPID, a.START_TIME, a.END_TIME, s.STRVALUE as APP_NAME, p.STRVALUE as PATH_NAME, c.STRVALUE as CMDLINE FROM SAAPP a LEFT JOIN SASTR s ON a.APP_ID = s.STRINGID LEFT JOIN SASTR p ON a.PATH_ID = p.STRINGID LEFT JOIN SASTR c ON a.CMDLINE_ID = c.STRINGID WHERE a.PROCESS_ID = ",
    );
    push_decimal_i64(&mut s, parent);
    if chars_of(start).len() > 0 {
        push_str(&mut s, " AND START_TIME <= '");
        let q = escape_str(start);
        push_str(&mut s, q.as_str());
        push_str(&mut s, "'");
    }
    push_str(&mut s, " ORDER BY a.START_TIME DESC LIMIT 1;");
    assert(s@ =~= ancestor_sql_spec(parent, start@));
    s
}

/// The query for a process's newest tree metrics.
pub fn metrics_sql(pid: i64) -> (r: String)
    ensures
        r@ == "SELECT CHILD_PIDS, TOTAL_TIME, ACTIV_TIME, KERN_USED, USER_USED, MEM_USED, IOREADS, IOWRITES FROM SAPROCESSTREE WHERE PROCESS_ID = "@
            + decimal_int(pid as int) + " ORDER BY START_TIME DESC LIMIT 1;"@,
{
    let mut s = String::from_str(
        "SELECT CHILD_PIDS, TOTAL_TIME, ACTIV_TIME, KERN_USED, USER_USED, MEM_USED, IOREADS, IOWRITES FROM SAPROCESSTREE WHERE PROCESS_ID = ",
    );
    push_decimal_i64(&mut s, pid);
    push_str(&mut s, " ORDER BY START_TIME DESC LIMIT 1;");
    s
}

/// The query for the names and paths of a list of child pids.
pub fn children_sql(ids: &[i64]) -> (r: String)
    ensures
        r@ == "SELECT a.PROCESS_ID, s.STRVALUE as APP_NAME, p.STRVALUE as PATH_NAME FROM SAAPP a LEFT JOIN SASTR s ON a.APP_ID = s.STRINGID LEFT JOIN SASTR p ON a.PATH_ID = p.STRINGID WHERE a.PROCESS_ID IN ("@
            + id_list(ids@) + ") GROUP BY a.PROCESS_ID;"@,
{
    let mut s = String::from_str(
        "SELECT a.PROCESS_ID, s.STRVALUE as APP_NAME, p.STRVALUE as PATH_NAME FROM SAAPP a LEFT JOIN SASTR s ON a.APP_ID = s.STRINGID LEFT JOIN SASTR p ON a.PATH_ID = p.STRINGID WHERE a.PROCESS_ID IN (",
    );
    let l = ids_text(ids);
    push_str(&mut s, l.as_str());
    push_str(&mut s, ") GROUP BY a.PROCESS_ID;");
    s
}

/// The integers among comma-separated parts (each trimmed), in order.
pub open spec fn listed_ids(parts: Seq<Seq<char>>) -> Seq<i64>
    decreases parts.len(),
{
    if parts.len() == 0 {
        Seq::empty()
    } else {
        let rest = listed_ids(parts.drop_last());
        match parse_i64_spec(trim(parts.last())) {
            Some(id) => rest.push(id as i64),
            None => rest,
        }
    }
}

/// The pids of a `CHILD_PIDS` list: each comma-separated part that parses
/// as an integer once trimmed, in order.
pub fn listed_pids(list: &str) -> (r: Vec<i64>)
    ensures
        r@ == listed_ids(split_on(list@, ',')),
{
    let s = chars_of(list);
    let rs = split_ranges(&s, ',');
    let ghost parts = split_on(s@, ',');
    let mut out: Vec<i64> = Vec::new();
    let mut k: usize = 0;
    while k < rs.len()
        invariant
            parts == split_on(s@, ','),
            ranges_text(s@, rs@) == parts,
            forall|j: int| 0 <= j < rs@.len() ==> (#[trigger] rs@[j]).0 <= rs@[j].1 <= s@.len(),
            k <= rs@.len(),
            out@ == listed_ids(parts.take(k as int)),
        decreases rs.len() - k,
    {
        let (a, b) = rs[k];
        proof {
            lemma_ranges_text_index(s@, rs@);
        }
        assert(s@.subrange(a as int, b as int) == parts[k as int]);
        let (x, y) = trim_bounds(&s, a, b);
        assert(parts.take(k + 1).drop_last() =~= parts.take(k as int));
        assert(parts.take(k + 1).last() == parts[k as int]);
        match parse_i64_range(&s, x, y) {
            Some(id) => {
                out.push(id);
            },
            None => {},
        }
        k += 1;
    }
    assert(parts.take(k as int) =~= parts);
    out
}

/// The walk up a target's ancestry: the next parent to look up, the start
/// time its row must not be later than, and how many steps were taken.
pub struct AncestryWalk {
    pub parent: i64,
    pub start: String,
    pub depth: usize,
}

impl AncestryWalk {
    /// The walk from a target row: its `PARENTPID` (0 when absent) and
    /// `START_TIME` (empty when absent).
    pub fn new(target: &Row) -> (r: Self)
        ensures
            r.parent == match int_of(field(row_view(*target), "PARENTPID"@)) {
                Some(p) => p,
                None => 0,
            },
            r.start@ == match text_of(field(row_view(*target), "START_TIME"@)) {
                Some(t) => t,
                None => Seq::empty(),
            },
            r.depth == 0,
    {
        let parent = match get_field(target, "PARENTPID") {
            Some(Cell::Int(p)) => *p,
            _ => 0,
        };
        let start = match get_field(target, "START_TIME") {
            Some(Cell::Text(t)) => t.clone(),
            _ => String::new(),
        };
        AncestryWalk { parent, start, depth: 0 }
    }

    /// The query for the next ancestor, or `None` once there is no parent
    /// or `ANCESTRY_DEPTH` steps were taken.
    pub fn next_sql(&self) -> (r: Option<String>)
        ensures
            r is Some <==> self.parent > 0 && self.depth < ANCESTRY_DEPTH,
            r matches Some(s) ==> s@ == ancestor_sql_spec(self.parent, self.start@),
    {
        if self.parent > 0 && self.depth < ANCESTRY_DEPTH {
            Some(ancestor_sql(self.parent, self.start.as_str()))
        } else {
            None
        }
    }

    /// One step up, to the ancestor row that the last query found.
    pub fn step(&mut self, found: &Row)
        requires
            old(self).depth < ANCESTRY_DEPTH,
        ensures
            final(self).depth == old(self).depth + 1,
            final(self).parent == AncestryWalk::parent_of(*found),
            final(self).start@ == match text_of(field(row_view(*found), "START_TIME"@)) {
                Some(t) => t,
                None => Seq::empty(),
            },
    {
        let next = AncestryWalk::new(found);
        self.parent = next.parent;
        self.start = next.start;
        self.depth = self.depth + 1;
    }

    /// The parent a row names (`PARENTPID`, 0 when absent).
    pub open spec fn parent_of(row: Row) -> i64 {
        match int_of(field(row_view(row), "PARENTPID"@)) {
            Some(p) => p,
            None => 0,
        }
    }
}

} // verus!
