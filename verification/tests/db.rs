use std::collections::{BTreeMap, BTreeSet};

use agent_manip::db::{
    escape_ident, escape_str, resolve_table_name, string_id_column, table_column_names,
    table_names, Cell, QueryResult, Row, StrScope,
};
use agent_manip::process_tree::{
    enrich_process_tree_rows, ids_text, pid_lookup_sql, tree_pids, PidNames,
};
use agent_manip::resolve::{candidate_ids, pick_resolutions};
use agent_manip::table_query::{count_sql, page_sql, plan_table_query};

fn row(cells: Vec<(&str, Cell)>) -> Row {
    Row {
        cells: cells
            .into_iter()
            .map(|(k, v)| (k.to_string(), v))
            .collect(),
    }
}

fn text(s: &str) -> Cell {
    Cell::Text(s.to_string())
}

#[test]
fn string_id_column_heuristics() {
    assert_eq!(string_id_column("APP_ID"), Some(StrScope::System));
    assert_eq!(string_id_column("PATH_ID"), Some(StrScope::System));
    assert_eq!(string_id_column("cmdline_id"), Some(StrScope::System));
    assert_eq!(string_id_column("PACKAGE"), Some(StrScope::System));
    assert_eq!(string_id_column("PUB"), Some(StrScope::System));
    assert_eq!(string_id_column("DISPLAYVER"), Some(StrScope::System));
    assert_eq!(string_id_column("ACCOUNT_ID"), Some(StrScope::User));

    // integer IDs that are not string references
    assert_eq!(string_id_column("STRINGID"), None);
    assert_eq!(string_id_column("RECID"), None);
    assert_eq!(string_id_column("PROCESS_ID"), None);
    assert_eq!(string_id_column("SESSION_ID"), None);
    // and plain non-ID columns
    assert_eq!(string_id_column("WFLAGS"), None);
    assert_eq!(string_id_column("START_TIME"), None);
    assert_eq!(string_id_column("PACKAGEGUID"), None);
}

#[test]
fn candidate_ids_split_by_scope_and_skip_non_integers() {
    let rows = vec![
        row(vec![
            ("ACCOUNT_ID", Cell::Int(20)),
            ("APP_ID", Cell::Int(10)),
            ("PACKAGE", Cell::Int(30)),
            ("PROCESS_ID", Cell::Int(999)),
        ]),
        row(vec![
            ("ACCOUNT_ID", Cell::Null),
            ("APP_ID", Cell::Int(11)),
            ("PACKAGE", text("already text")),
        ]),
    ];
    let (system, user) = candidate_ids(&rows);
    assert_eq!(system, BTreeSet::from([10, 11, 30]));
    assert_eq!(user, BTreeSet::from([20]));
}

#[test]
fn pick_resolutions_prefers_scope_table_and_falls_back() {
    let rows = vec![row(vec![
        ("ACCOUNT_ID", Cell::Int(2)),
        ("APP_ID", Cell::Int(1)),
        ("PATH_ID", Cell::Int(3)),
        ("RECID", Cell::Int(1)),
    ])];
    let sastr = BTreeMap::from([(1, "Postman".to_string()), (2, "sys-two".to_string())]);
    let sastruser = BTreeMap::from([(2, "alice".to_string())]);
    let resolved = pick_resolutions(&rows, &sastr, &sastruser);

    assert_eq!(resolved.get("APP_ID", 1).map(String::as_str), Some("Postman"));
    // ACCOUNT_ID prefers SASTRUSER even though SASTR also has id 2
    assert_eq!(resolved.get("ACCOUNT_ID", 2).map(String::as_str), Some("alice"));
    // id 3 resolves nowhere → PATH_ID column omitted entirely
    assert!(!resolved.has_column("PATH_ID"));
    // RECID is never a string-ID, even when the id would resolve
    assert!(!resolved.has_column("RECID"));
}

#[test]
fn system_ids_fall_back_to_user_strings() {
    let rows = vec![row(vec![("APP_ID", Cell::Int(7))])];
    let sastr = BTreeMap::new();
    let sastruser = BTreeMap::from([(7, "per-user".to_string())]);
    let resolved = pick_resolutions(&rows, &sastr, &sastruser);
    assert_eq!(resolved.get("APP_ID", 7).map(String::as_str), Some("per-user"));
    assert_eq!(resolved.get("APP_ID", 8), None);
}

#[test]
fn sql_escaping() {
    assert_eq!(escape_str("O'Brien's"), "O''Brien''s");
    assert_eq!(escape_ident("we\"ird"), "we\"\"ird");
}

#[test]
fn process_tree_virtual_columns_inject() {
    let pragma = vec![
        row(vec![("name", text("PROCESS_ID"))]),
        row(vec![("name", text("CHILD_PIDS"))]),
        row(vec![("name", text("START_TIME"))]),
    ];
    let cols = table_column_names("SAPROCESSTREE", &pragma);
    assert_eq!(
        cols,
        [
            "PROCESS_ID",
            "APP_NAME",
            "PARENTPID",
            "PARENT_APP_NAME",
            "CHILD_PIDS",
            "CHILD_APPS",
            "START_TIME"
        ]
    );
    // SAPROCESS_TREE (with underscore) normalizes cleanly
    let cols2 = table_column_names("SAPROCESS_TREE", &pragma);
    assert_eq!(cols2, cols);
    // other tables keep their columns
    let plain = table_column_names("SAAPP", &pragma);
    assert_eq!(plain, ["PROCESS_ID", "CHILD_PIDS", "START_TIME"]);
}

#[test]
fn table_names_and_resolution() {
    let rows = vec![
        row(vec![("name", text("SAAPP"))]),
        row(vec![("name", text("SAPROCESSTREE"))]),
        row(vec![("other", text("x"))]),
    ];
    let names = table_names(&rows);
    assert_eq!(names, ["SAAPP", "SAPROCESSTREE"]);
    assert_eq!(resolve_table_name(&names, "SAAPP").unwrap(), "SAAPP");
    assert_eq!(resolve_table_name(&names, "saapp").unwrap(), "SAAPP");
    assert_eq!(resolve_table_name(&names, "SAPROCESS_TREE").unwrap(), "SAPROCESSTREE");
    assert_eq!(resolve_table_name(&names, "nope").unwrap_err(), "unknown table 'nope'");
    let q = QueryResult::new();
    assert!(q.columns.is_empty() && q.rows.is_empty() && q.affected_rows == 0);
}

#[test]
fn process_tree_pids_and_lookup_sql() {
    let rows = vec![
        row(vec![("CHILD_PIDS", text(" 6, 7,x,-3,")), ("PROCESS_ID", Cell::Int(5))]),
        row(vec![("PROCESS_ID", Cell::Int(0))]),
        row(vec![("process_Id", Cell::Int(9))]),
    ];
    assert_eq!(tree_pids("SAPROCESSTREE", &rows), BTreeSet::from([5, 6, 7, 9]));
    assert!(tree_pids("SAAPP", &rows).is_empty());
    assert_eq!(ids_text(&[5, 6, -1]), "5,6,-1");
    assert_eq!(
        pid_lookup_sql(&[5, 6]),
        "SELECT a.PROCESS_ID, a.PARENTPID, s.STRVALUE as APP_NAME, sp.STRVALUE as PARENT_APP_NAME \
         FROM SAAPP a LEFT JOIN SASTR s ON a.APP_ID = s.STRINGID LEFT JOIN SAAPP ap ON a.PARENTPID \
         = ap.PROCESS_ID LEFT JOIN SASTR sp ON ap.APP_ID = sp.STRINGID WHERE a.PROCESS_ID IN (5,6) \
         OR a.PARENTPID IN (5,6) GROUP BY a.PROCESS_ID;"
    );
}

#[test]
fn process_tree_rows_gain_correlated_columns() {
    let mut names = PidNames::new();
    names.absorb(&row(vec![
        ("APP_NAME", text("agent.exe")),
        ("PARENTPID", Cell::Int(1)),
        ("PARENT_APP_NAME", Cell::Null),
        ("PROCESS_ID", Cell::Int(5)),
    ]));
    names.absorb(&row(vec![("APP_NAME", text("child.exe")), ("PROCESS_ID", Cell::Int(6))]));
    let mut rows = vec![row(vec![
        ("CHILD_PIDS", text("6, 7,,x")),
        ("PROCESS_ID", Cell::Int(5)),
    ])];
    enrich_process_tree_rows("SAPROCESSTREE", &mut rows, &names);
    let cells: Vec<(String, String)> = rows[0]
        .cells
        .iter()
        .map(|(k, v)| {
            let shown = match v {
                Cell::Null => "null".to_string(),
                Cell::Int(i) => i.to_string(),
                Cell::Text(t) => t.clone(),
                Cell::Other(t) => t.clone(),
            };
            (k.clone(), shown)
        })
        .collect();
    let expected: Vec<(String, String)> = [
        ("CHILD_PIDS", "6, 7,,x"),
        ("CHILD_APPS", "child.exe [6], 7, x"),
        ("PROCESS_ID", "5"),
        ("APP_NAME", "agent.exe"),
        ("PARENTPID", "1"),
        // no parent name in the answer and no name known for pid 1
        ("PARENT_APP_NAME", "PID 1"),
    ]
    .iter()
    .map(|(a, b)| (a.to_string(), b.to_string()))
    .collect();
    assert_eq!(cells, expected);

    // an unknown pid with no parent
    let mut other = vec![row(vec![("PROCESS_ID", Cell::Int(42))])];
    enrich_process_tree_rows("SAPROCESSTREE", &mut other, &names);
    assert_eq!(other[0].cells.len(), 4);
    assert!(matches!(&other[0].cells[1].1, Cell::Text(t) if t == "PID 42"));
    assert!(matches!(other[0].cells[2].1, Cell::Null));
    assert!(matches!(&other[0].cells[3].1, Cell::Text(t) if t == "Unknown"));

    // other tables are left alone
    let mut plain = vec![row(vec![("PROCESS_ID", Cell::Int(5))])];
    enrich_process_tree_rows("SAAPP", &mut plain, &names);
    assert_eq!(plain[0].cells.len(), 1);
}

#[test]
fn table_view_sql_is_planned_from_known_columns() {
    let cols = vec!["APP_ID".to_string(), "START_TIME".to_string()];
    let plan = plan_table_query(&cols, "start_time", "asc", "  O'Neil ", &vec![3, 4]);
    assert_eq!(plan.sort, "start_time");
    assert_eq!(plan.dir, "ASC");
    assert_eq!(
        plan.where_clause,
        " WHERE CAST(\"APP_ID\" AS TEXT) LIKE '%O''Neil%' OR \"APP_ID\" IN (3,4) OR \
         CAST(\"START_TIME\" AS TEXT) LIKE '%O''Neil%'"
    );
    assert_eq!(plan.order_by, "\"start_time\" ASC");
    assert_eq!(
        page_sql("SAAPP", &plan, 50, 100),
        format!(
            "SELECT * FROM \"SAAPP\"{} ORDER BY \"start_time\" ASC LIMIT 50 OFFSET 100;",
            plan.where_clause
        )
    );

    // an unknown sort column falls back to rowid, anything but asc is DESC
    let plan2 = plan_table_query(&cols, "x\"; DROP", "up", "   ", &vec![]);
    assert_eq!(plan2.sort, "rowid");
    assert_eq!(plan2.dir, "DESC");
    assert_eq!(plan2.where_clause, "");
    assert_eq!(plan2.order_by, "rowid DESC");
    assert_eq!(count_sql("we\"ird", ""), "SELECT count(*) AS n FROM \"we\"\"ird\";");
}
