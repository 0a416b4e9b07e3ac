//! The SQL behind a paginated, sorted, filtered table view of the agent
//! database. Names that reach the SQL are either the database's own column
//! names or escaped; the filter only ever appears inside a quoted literal.

use vstd::prelude::*;
use crate::db::{double_char, escape_ident, escape_str, string_id_column, string_id_column_spec};
use crate::num::{decimal, decimal_int, push_decimal, push_decimal_i64};
use crate::db::Row;
use crate::resolve::Resolved;
use crate::text::{chars_of, eq_ignore_case, joined, join_strings, push_str, range_eq_ignore_case,
    seq_eq, string_of, trim, trim_chars, views};

verus! {

/// How a table view is ordered and filtered.
#[derive(Debug)]
pub struct TablePlan {
    /// `rowid`, or the escaped sort column.
    pub sort: String,
    /// `ASC` or `DESC`.
    pub dir: String,
    /// Empty, or ` WHERE ...`.
    pub where_clause: String,
    /// What the rows are ordered by.
    pub order_by: String,
}

/// Whether `s` names one of `cols`, ASCII case ignored.
pub open spec fn names_column(cols: Seq<Seq<char>>, s: Seq<char>) -> bool {
    exists|i: int| 0 <= i < cols.len() && eq_ignore_case(#[trigger] cols[i], s)
}

/// The sort column: `rowid` unless `sort` names a column.
pub open spec fn sort_spec(cols: Seq<Seq<char>>, sort: Seq<char>) -> Seq<char> {
    if sort.len() == 0 || eq_ignore_case(sort, "rowid"@) {
        "rowid"@
    } else if names_column(cols, sort) {
        double_char(sort, '"')
    } else {
        "rowid"@
    }
}

/// The direction: ascending only when asked for (`asc`, any case).
pub open spec fn dir_spec(dir: Seq<char>) -> Seq<char> {
    if eq_ignore_case(dir, "asc"@) {
        "ASC"@
    } else {
        "DESC"@
    }
}

/// The conditions a column contributes to a filter: its text contains the
/// filter, or (string-ID columns) it holds one of the matching string IDs.
pub open spec fn column_conditions(col: Seq<char>, filter: Seq<char>, ids: Seq<i64>) -> Seq<
    Seq<char>,
> {
    let like = "CAST(\""@ + double_char(col, '"') + "\" AS TEXT) LIKE '%"@ + double_char(
        filter,
        '\'',
    ) + "%'"@;
    if string_id_column_spec(col) is Some && ids.len() > 0 {
        seq![
            like,
            "\""@ + double_char(col, '"') + "\" IN ("@ + joined(
                ids.map_values(|i: i64| decimal_int(i as int)),
                ","@,
            ) + ")"@,
        ]
    } else {
        seq![like]
    }
}

/// The conditions of all columns, in column order.
pub open spec fn all_conditions(cols: Seq<Seq<char>>, filter: Seq<char>, ids: Seq<i64>) -> Seq<
    Seq<char>,
>
    decreases cols.len(),
{
    if cols.len() == 0 {
        Seq::empty()
    } else {
        all_conditions(cols.drop_last(), filter, ids) + column_conditions(cols.last(), filter, ids)
    }
}

/// The `WHERE` clause of a filter (trimmed): none for an empty filter or a
/// table without columns.
pub open spec fn where_spec(cols: Seq<Seq<char>>, filter: Seq<char>, ids: Seq<i64>) -> Seq<char> {
    let f = trim(filter);
    if f.len() > 0 && cols.len() > 0 {
        " WHERE "@ + joined(all_conditions(cols, f, ids), " OR "@)
    } else {
        Seq::empty()
    }
}

/// The `ORDER BY` target.
pub open spec fn order_spec(sort: Seq<char>, dir: Seq<char>) -> Seq<char> {
    if eq_ignore_case(sort, "rowid"@) {
        "rowid "@ + dir
    } else {
        "\""@ + sort + "\" "@ + dir
    }
}

fn names_column_exec(cols: &Vec<String>, s: &Vec<char>) -> (r: bool)
    ensures
        r == names_column(views(cols@), s@),
{
    let mut i: usize = 0;
    while i < cols.len()
        invariant
            i <= cols@.len(),
            forall|j: int| 0 <= j < i ==> !eq_ignore_case(#[trigger] views(cols@)[j], s@),
        decreases cols.len() - i,
    {
        let c = chars_of(cols[i].as_str());
        assert(c@.subrange(0, c@.len() as int) =~= c@);
        assert(views(cols@)[i as int] == c@);
        if range_eq_ignore_case(&c, 0, c.len(), s) {
            return true;
        }
        i += 1;
    }
    false
}

fn ids_list(ids: &Vec<i64>) -> (r: String)
    ensures
        r@ == joined(ids@.map_values(|i: i64| decimal_int(i as int)), ","@),
{
    let mut parts: Vec<String> = Vec::new();
    let mut i: usize = 0;
    while i < ids.len()
        invariant
            i <= ids@.len(),
            views(parts@) == ids@.take(i as int).map_values(|x: i64| decimal_int(x as int)),
        decreases ids.len() - i,
    {
        let mut t = String::new();
        push_decimal_i64(&mut t, ids[i]);
        let ghost prev = views(parts@);
        let ghost tv = t@;
        parts.push(t);
        assert(views(parts@) =~= prev.push(tv));
        assert(ids@.take(i + 1) =~= ids@.take(i as int).push(ids@[i as int]));
        i += 1;
    }
    assert(ids@.take(i as int) =~= ids@);
    join_strings(&parts, ",")
}

fn push_conditions(out: &mut Vec<String>, col: &str, filter: &str, ids: &Vec<i64>)
    ensures
        views(final(out)@) == views(old(out)@) + column_conditions(col@, filter@, ids@),
{
    let ec = escape_ident(col);
    let mut like = String::from_str("CAST(\"");
    push_str(&mut like, ec.as_str());
    push_str(&mut like, "\" AS TEXT) LIKE '%");
    let ef = escape_str(filter);
    push_str(&mut like, ef.as_str());
    push_str(&mut like, "%'");
    let ghost v0 = views(out@);
    let ghost lv = like@;
    out.push(like);
    assert(views(out@) =~= v0.push(lv));
    if string_id_column(col).is_some() && ids.len() > 0 {
        let mut inc = String::from_str("\"");
        push_str(&mut inc, ec.as_str());
        push_str(&mut inc, "\" IN (");
        let l = ids_list(ids);
        push_str(&mut inc, l.as_str());
        push_str(&mut inc, ")");
        let ghost v1 = views(out@);
        let ghost iv = inc@;
        out.push(inc);
        assert(views(out@) =~= v1.push(iv));
    }
    assert(views(out@) =~= v0 + column_conditions(col@, filter@, ids@));
}

/// Plan a table view: the sort column and direction the request is
/// allowed, and the filter's `WHERE` clause over the table's columns `cols`.
/// `ids` are the string IDs whose strings match the filter.
pub fn plan_table_query(cols: &Vec<String>, sort: &str, dir: &str, filter: &str, ids: &Vec<i64>) -> (r:
    TablePlan)
    ensures
        r.sort@ == sort_spec(views(cols@), sort@),
        r.dir@ == dir_spec(dir@),
        r.where_clause@ == where_spec(views(cols@), filter@, ids@),
        r.order_by@ == order_spec(r.sort@, r.dir@),
{
    proof {
        reveal_strlit("rowid");
        reveal_strlit("asc");
    }
    let sc = chars_of(sort);
    assert(sc@.subrange(0, sc@.len() as int) =~= sc@);
    let rowid = chars_of("rowid");
    let sort_clean = if sc.len() == 0 || range_eq_ignore_case(&sc, 0, sc.len(), &rowid) {
        String::from_str("rowid")
    } else if names_column_exec(cols, &sc) {
        escape_ident(sort)
    } else {
        String::from_str("rowid")
    };
    let dc = chars_of(dir);
    assert(dc@.subrange(0, dc@.len() as int) =~= dc@);
    let dir_clean = if range_eq_ignore_case(&dc, 0, dc.len(), &chars_of("asc")) {
        String::from_str("ASC")
    } else {
        String::from_str("DESC")
    };
    let f = string_of(&trim_chars(&chars_of(filter)));
    let mut where_clause = String::new();
    if f.unicode_len() > 0 && cols.len() > 0 {
        let mut conds: Vec<String> = Vec::new();
        let mut i: usize = 0;
        while i < cols.len()
            invariant
                i <= cols@.len(),
                f@ == trim(filter@),
                views(conds@) == all_conditions(views(cols@).take(i as int), f@, ids@),
            decreases cols.len() - i,
        {
            push_conditions(&mut conds, cols[i].as_str(), f.as_str(), ids);
            i += 1;
            assert(views(cols@).take(i as int).drop_last() =~= views(cols@).take(i - 1));
        }
        assert(views(cols@).take(i as int) =~= views(cols@));
        push_str(&mut where_clause, " WHERE ");
        let all = join_strings(&conds, " OR ");
        push_str(&mut where_clause, all.as_str());
    }
    let so = chars_of(sort_clean.as_str());
    assert(so@.subrange(0, so@.len() as int) =~= so@);
    let mut order_by = String::new();
    if range_eq_ignore_case(&so, 0, so.len(), &rowid) {
        push_str(&mut order_by, "rowid ");
        push_str(&mut order_by, dir_clean.as_str());
    } else {
        push_str(&mut order_by, "\"");
        push_str(&mut order_by, sort_clean.as_str());
        push_str(&mut order_by, "\" ");
        push_str(&mut order_by, dir_clean.as_str());
    }
    TablePlan { sort: sort_clean, dir: dir_clean, where_clause, order_by }
}

/// The page query of a table view.
pub open spec fn page_sql_spec(
    table: Seq<char>,
    where_clause: Seq<char>,
    order_by: Seq<char>,
    limit: nat,
    offset: nat,
) -> Seq<char> {
    "SELECT * FROM \""@ + double_char(table, '"') + "\""@ + where_clause + " ORDER BY "@ + order_by
        + " LIMIT "@ + decimal(limit) + " OFFSET "@ + decimal(offset) + ";"@
}

/// `SELECT * FROM "<table>"<where> ORDER BY <order> LIMIT n OFFSET m;`
pub fn page_sql(table: &str, plan: &TablePlan, limit: usize, offset: usize) -> (r: String)
    ensures
        r@ == page_sql_spec(table@, plan.where_clause@, plan.order_by@, limit as nat, offset as nat),
{
    let mut s = String::from_str("SELECT * FROM \"");
    let t = escape_ident(table);
    push_str(&mut s, t.as_str());
    push_str(&mut s, "\"");
    push_str(&mut s, plan.where_clause.as_str());
    push_str(&mut s, " ORDER BY ");
    push_str(&mut s, plan.order_by.as_str());
    push_str(&mut s, " LIMIT ");
    push_decimal(&mut s, limit as u64);
    push_str(&mut s, " OFFSET ");
    push_decimal(&mut s, offset as u64);
    push_str(&mut s, ";");
    assert(s@ =~= page_sql_spec(table@, plan.where_clause@, plan.order_by@, limit as nat, offset as nat));
    s
}

/// The count query of a table view (all rows, or those the filter keeps).
pub fn count_sql(table: &str, where_clause: &str) -> (r: String)
    ensures
        r@ == "SELECT count(*) AS n FROM \""@ + double_char(table@, '"') + "\""@ + where_clause@
            + ";"@,
{
    let mut s = String::from_str("SELECT count(*) AS n FROM \"");
    let t = escape_ident(table);
    push_str(&mut s, t.as_str());
    push_str(&mut s, "\"");
    push_str(&mut s, where_clause);
    push_str(&mut s, ";");
    s
}


/// The count query of one table, as a part of `counts_sql`.
pub open spec fn count_part(name: Seq<char>) -> Seq<char> {
    "SELECT '"@ + double_char(name, '\'') + "' AS name, count(*) AS n FROM \""@ + double_char(name, '"')
        + "\""@
}

/// `{name, n}` for every table in one query: the tables' count queries
/// joined by ` UNION ALL `.
pub fn counts_sql(names: &Vec<String>) -> (r: String)
    ensures
        r@ == joined(views(names@).map_values(|n: Seq<char>| count_part(n)), " UNION ALL "@) + ";"@,
{
    let mut parts: Vec<String> = Vec::new();
    let mut i: usize = 0;
    while i < names.len()
        invariant
            i <= names@.len(),
            views(parts@) == views(names@.take(i as int)).map_values(|n: Seq<char>| count_part(n)),
        decreases names.len() - i,
    {
        let n = names[i].as_str();
        let mut p = String::from_str("SELECT '");
        let a = escape_str(n);
        push_str(&mut p, a.as_str());
        push_str(&mut p, "' AS name, count(*) AS n FROM \"");
        let b = escape_ident(n);
        push_str(&mut p, b.as_str());
        push_str(&mut p, "\"");
        assert(p@ =~= count_part(names@[i as int]@));
        let ghost before = parts@;
        parts.push(p);
        proof {
            assert(views(parts@) =~= views(before).push(count_part(names@[i as int]@)));
            assert(names@.take(i + 1) =~= names@.take(i as int).push(names@[i as int]));
            assert(views(parts@) =~= views(names@.take(i + 1)).map_values(|n: Seq<char>| count_part(n)));
        }
        i += 1;
    }
    assert(names@.take(i as int) =~= names@);
    let mut r = join_strings(&parts, " UNION ALL ");
    push_str(&mut r, ";");
    r
}

/// The newest `limit` rows of a table, and the same without the order for
/// tables without a rowid.
pub fn table_rows_sql(table: &str, limit: usize) -> (r: (String, String))
    ensures
        r.0@ == "SELECT * FROM \""@ + double_char(table@, '"') + "\" ORDER BY rowid DESC LIMIT "@
            + decimal(limit as nat) + ";"@,
        r.1@ == "SELECT * FROM \""@ + double_char(table@, '"') + "\" LIMIT "@ + decimal(limit as nat)
            + ";"@,
{
    let q = escape_ident(table);
    let mut a = String::from_str("SELECT * FROM \"");
    push_str(&mut a, q.as_str());
    push_str(&mut a, "\" ORDER BY rowid DESC LIMIT ");
    push_decimal(&mut a, limit as u64);
    push_str(&mut a, ";");
    let mut b = String::from_str("SELECT * FROM \"");
    push_str(&mut b, q.as_str());
    push_str(&mut b, "\" LIMIT ");
    push_decimal(&mut b, limit as u64);
    push_str(&mut b, ";");
    (a, b)
}

/// The page query without an order, for tables without a rowid.
pub fn unordered_page_sql(table: &str, where_clause: &str, limit: usize, offset: usize) -> (r: String)
    ensures
        r@ == "SELECT * FROM \""@ + double_char(table@, '"') + "\""@ + where_clause@ + " LIMIT "@
            + decimal(limit as nat) + " OFFSET "@ + decimal(offset as nat) + ";"@,
{
    let mut s = String::from_str("SELECT * FROM \"");
    let t = escape_ident(table);
    push_str(&mut s, t.as_str());
    push_str(&mut s, "\"");
    push_str(&mut s, where_clause);
    push_str(&mut s, " LIMIT ");
    push_decimal(&mut s, limit as u64);
    push_str(&mut s, " OFFSET ");
    push_decimal(&mut s, offset as u64);
    push_str(&mut s, ";");
    s
}

/// The system string table's part of a string search.
pub open spec fn system_strings_part(p: Seq<char>) -> Seq<char> {
    "SELECT 'SASTR' AS scope, STRINGID, STRVALUE FROM SASTR WHERE STRVALUE LIKE '%"@ + p + "%'"@
}

/// A substring search over both string tables, and over the system table
/// alone (the user table is missing on some platforms). `%` and `_` in the
/// pattern act as LIKE wildcards; quotes are escaped.
pub fn strings_search_sql(pattern: &str, limit: usize) -> (r: (String, String))
    ensures
        r.0@ == system_strings_part(double_char(pattern@, '\'')) + " UNION ALL SELECT 'SASTRUSER' AS scope, STRINGID, STRVALUE FROM SASTRUSER WHERE STRVALUE LIKE '%"@
            + double_char(pattern@, '\'') + "%' LIMIT "@ + decimal(limit as nat) + ";"@,
        r.1@ == system_strings_part(double_char(pattern@, '\'')) + " LIMIT "@ + decimal(limit as nat)
            + ";"@,
{
    let p = escape_str(pattern);
    let mut a = String::from_str("SELECT 'SASTR' AS scope, STRINGID, STRVALUE FROM SASTR WHERE STRVALUE LIKE '%");
    push_str(&mut a, p.as_str());
    push_str(&mut a, "%'");
    let mut b = a.clone();
    push_str(&mut a, " UNION ALL SELECT 'SASTRUSER' AS scope, STRINGID, STRVALUE FROM SASTRUSER WHERE STRVALUE LIKE '%");
    push_str(&mut a, p.as_str());
    push_str(&mut a, "%' LIMIT ");
    push_decimal(&mut a, limit as u64);
    push_str(&mut a, ";");
    push_str(&mut b, " LIMIT ");
    push_decimal(&mut b, limit as u64);
    push_str(&mut b, ";");
    (a, b)
}

/// One page of a table view: the canonical table name, its row count and
/// the count the filter leaves, the page asked for, the sort and
/// direction that were applied, the rows, their string resolutions and
/// the table's column descriptions.
#[derive(Debug)]
pub struct TableQueryResult {
    pub name: String,
    pub total_rows: usize,
    pub filtered_rows: usize,
    pub limit: usize,
    pub offset: usize,
    pub sort: String,
    pub dir: String,
    pub rows: Vec<Row>,
    pub resolved: Resolved,
    pub descriptions: Vec<(String, String)>,
}

/// Assemble a table page from what its queries returned. Without a filter
/// the filtered count is the total; the sort echoed back is `rowid` when
/// the plan fell back to it, else the sort asked for; the direction is the
/// plan's, in lowercase.
pub fn table_query_result(
    name: String,
    total_rows: usize,
    filtered_count: usize,
    limit: usize,
    offset: usize,
    requested_sort: &str,
    plan: &TablePlan,
    rows: Vec<Row>,
    resolved: Resolved,
    descriptions: Vec<(String, String)>,
) -> (r: TableQueryResult)
    ensures
        r.name@ == name@,
        r.total_rows == total_rows,
        r.filtered_rows == (if plan.where_clause@.len() == 0 {
            total_rows
        } else {
            filtered_count
        }),
        r.limit == limit,
        r.offset == offset,
        r.sort@ == (if plan.sort@ == "rowid"@ {
            "rowid"@
        } else {
            requested_sort@
        }),
        r.dir@ == (if plan.dir@ == "ASC"@ {
            "asc"@
        } else {
            "desc"@
        }),
        r.rows@ == rows@,
        r.resolved == resolved,
        r.descriptions@ == descriptions@,
{
    let filtered_rows = if chars_of(plan.where_clause.as_str()).len() == 0 {
        total_rows
    } else {
        filtered_count
    };
    let sort = if seq_eq(&chars_of(plan.sort.as_str()), &chars_of("rowid")) {
        String::from_str("rowid")
    } else {
        String::from_str(requested_sort)
    };
    let dir = if seq_eq(&chars_of(plan.dir.as_str()), &chars_of("ASC")) {
        String::from_str("asc")
    } else {
        String::from_str("desc")
    };
    TableQueryResult {
        name,
        total_rows,
        filtered_rows,
        limit,
        offset,
        sort,
        dir,
        rows,
        resolved,
        descriptions,
    }
}

} // verus!
