use std::collections::BTreeMap;

use agent_manip::db::{Cell, Row};
use agent_manip::process_tree::{
    ancestor_sql, children_sql, listed_pids, metrics_sql, target_sql, AncestryWalk,
    ANCESTRY_DEPTH,
};
use agent_manip::resolve::{
    add_process_names, process_names_sql, process_pids, string_lookup_sql, Resolved,
};
use agent_manip::table_query::{
    counts_sql, strings_search_sql, table_rows_sql, unordered_page_sql,
};

fn row(cells: Vec<(&str, Cell)>) -> Row {
    Row { cells: cells.into_iter().map(|(k, v)| (k.to_string(), v)).collect() }
}

const TARGET_HEAD: &str = "SELECT a.PROCESS_ID, a.PARENTPID, a.START_TIME, a.END_TIME, a.EXIT_CODE, s.STRVALUE as APP_NAME, p.STRVALUE as PATH_NAME, c.STRVALUE as CMDLINE FROM SAAPP a LEFT JOIN SASTR s ON a.APP_ID = s.STRINGID LEFT JOIN SASTR p ON a.PATH_ID = p.STRINGID LEFT JOIN SASTR c ON a.CMDLINE_ID = c.STRINGID WHERE ";

#[test]
fn target_sql_by_pid_and_by_name() {
    assert_eq!(
        target_sql("  412 ").unwrap(),
        format!("{}a.PROCESS_ID = 412 OR a.PARENTPID = 412 ORDER BY a.START_TIME DESC LIMIT 15;", TARGET_HEAD)
    );
    assert_eq!(
        target_sql("-3").unwrap(),
        format!("{}a.PROCESS_ID = -3 OR a.PARENTPID = -3 ORDER BY a.START_TIME DESC LIMIT 15;", TARGET_HEAD)
    );
    assert_eq!(
        target_sql("O'Neil").unwrap(),
        format!(
            "{}s.STRVALUE LIKE '%O''Neil%' OR p.STRVALUE LIKE '%O''Neil%' OR c.STRVALUE LIKE '%O''Neil%' ORDER BY a.START_TIME DESC LIMIT 15;",
            TARGET_HEAD
        )
    );
}

#[test]
fn target_sql_refuses_blank_pattern() {
    assert_eq!(target_sql("   "), Err("pattern or pid cannot be empty".to_string()));
    assert_eq!(target_sql(""), Err("pattern or pid cannot be empty".to_string()));
}

#[test]
fn ancestor_sql_with_and_without_start() {
    let base = "SELECT a.PROCESS_ID, a.PARENTPID, a.START_TIME, a.END_TIME, s.STRVALUE as APP_NAME, p.STRVALUE as PATH_NAME, c.STRVALUE as CMDLINE FROM SAAPP a LEFT JOIN SASTR s ON a.APP_ID = s.STRINGID LEFT JOIN SASTR p ON a.PATH_ID = p.STRINGID LEFT JOIN SASTR c ON a.CMDLINE_ID = c.STRINGID WHERE a.PROCESS_ID = 7";
    assert_eq!(ancestor_sql(7, ""), format!("{} ORDER BY a.START_TIME DESC LIMIT 1;", base));
    assert_eq!(
        ancestor_sql(7, "2024-01-02 03:04:05"),
        format!("{} AND START_TIME <= '2024-01-02 03:04:05' ORDER BY a.START_TIME DESC LIMIT 1;", base)
    );
}

#[test]
fn metrics_and_children_sql() {
    assert_eq!(
        metrics_sql(55),
        "SELECT CHILD_PIDS, TOTAL_TIME, ACTIV_TIME, KERN_USED, USER_USED, MEM_USED, IOREADS, IOWRITES FROM SAPROCESSTREE WHERE PROCESS_ID = 55 ORDER BY START_TIME DESC LIMIT 1;"
    );
    assert_eq!(
        children_sql(&[3, 4]),
        "SELECT a.PROCESS_ID, s.STRVALUE as APP_NAME, p.STRVALUE as PATH_NAME FROM SAAPP a LEFT JOIN SASTR s ON a.APP_ID = s.STRINGID LEFT JOIN SASTR p ON a.PATH_ID = p.STRINGID WHERE a.PROCESS_ID IN (3,4) GROUP BY a.PROCESS_ID;"
    );
}

#[test]
fn listed_pids_keeps_integers_in_order() {
    assert_eq!(listed_pids(" 10, x,-2 ,,30"), vec![10, -2, 30]);
    assert_eq!(listed_pids(""), Vec::<i64>::new());
}

#[test]
fn ancestry_walk_stops_at_depth_or_root() {
    let target = row(vec![
        ("PROCESS_ID", Cell::Int(9)),
        ("PARENTPID", Cell::Int(5)),
        ("START_TIME", Cell::Text("t9".into())),
    ]);
    let mut walk = AncestryWalk::new(&target);
    assert_eq!(walk.parent, 5);
    assert_eq!(walk.start, "t9");
    assert_eq!(walk.next_sql(), Some(ancestor_sql(5, "t9")));
    walk.step(&row(vec![("PROCESS_ID", Cell::Int(5)), ("PARENTPID", Cell::Int(1))]));
    assert_eq!(walk.depth, 1);
    assert_eq!(walk.parent, 1);
    assert_eq!(walk.start, "");
    walk.step(&row(vec![("PROCESS_ID", Cell::Int(1))]));
    assert_eq!(walk.parent, 0);
    assert_eq!(walk.next_sql(), None);

    let mut deep = AncestryWalk::new(&target);
    for _ in 0..ANCESTRY_DEPTH {
        assert!(deep.next_sql().is_some());
        deep.step(&row(vec![("PARENTPID", Cell::Int(2))]));
    }
    assert_eq!(deep.next_sql(), None);
}

#[test]
fn counts_sql_joins_escaped_tables() {
    assert_eq!(
        counts_sql(&vec!["SAAPP".to_string(), "we'i\"rd".to_string()]),
        "SELECT 'SAAPP' AS name, count(*) AS n FROM \"SAAPP\" UNION ALL SELECT 'we''i\"rd' AS name, count(*) AS n FROM \"we'i\"\"rd\";"
    );
}

#[test]
fn table_rows_and_unordered_page_sql() {
    let (a, b) = table_rows_sql("SAAPP", 25);
    assert_eq!(a, "SELECT * FROM \"SAAPP\" ORDER BY rowid DESC LIMIT 25;");
    assert_eq!(b, "SELECT * FROM \"SAAPP\" LIMIT 25;");
    assert_eq!(
        unordered_page_sql("T\"x", " WHERE 1", 10, 20),
        "SELECT * FROM \"T\"\"x\" WHERE 1 LIMIT 10 OFFSET 20;"
    );
}

#[test]
fn strings_search_sql_both_and_system_only() {
    let (both, system) = strings_search_sql("it's", 200);
    assert_eq!(
        both,
        "SELECT 'SASTR' AS scope, STRINGID, STRVALUE FROM SASTR WHERE STRVALUE LIKE '%it''s%' UNION ALL SELECT 'SASTRUSER' AS scope, STRINGID, STRVALUE FROM SASTRUSER WHERE STRVALUE LIKE '%it''s%' LIMIT 200;"
    );
    assert_eq!(
        system,
        "SELECT 'SASTR' AS scope, STRINGID, STRVALUE FROM SASTR WHERE STRVALUE LIKE '%it''s%' LIMIT 200;"
    );
}

#[test]
fn lookup_sql_texts() {
    assert_eq!(
        string_lookup_sql("SASTR", &[1, 2]),
        "SELECT STRINGID, STRVALUE FROM SASTR WHERE STRINGID IN (1,2);"
    );
    assert_eq!(
        process_names_sql(&[42]),
        "SELECT a.PROCESS_ID, s.STRVALUE as APP_NAME FROM SAAPP a LEFT JOIN SASTR s ON a.APP_ID = s.STRINGID WHERE a.PROCESS_ID IN (42) GROUP BY a.PROCESS_ID;"
    );
}

#[test]
fn process_pids_from_pid_columns() {
    let rows = vec![
        row(vec![
            ("process_id", Cell::Int(10)),
            ("ParentPid", Cell::Int(-1)),
            ("CHILD_PIDS", Cell::Text("11; 12 13,x".into())),
            ("OTHER", Cell::Int(99)),
        ]),
        row(vec![("IDXPID2", Cell::Int(14))]),
    ];
    let pids: Vec<i64> = process_pids(&rows).into_iter().collect();
    assert_eq!(pids, vec![10, 11, 12, 13, 14]);
}

#[test]
fn process_names_resolve_own_and_parent_pids() {
    let rows = vec![row(vec![
        ("PROCESS_ID", Cell::Int(10)),
        ("PARENTPID", Cell::Int(1)),
        ("CHILD_PIDS", Cell::Int(10)),
        ("IDXPID", Cell::Int(77)),
    ])];
    let mut names = BTreeMap::new();
    names.insert(10, "agent".to_string());
    names.insert(1, "launchd".to_string());
    let mut out = Resolved::new();
    add_process_names(&rows, &names, &mut out);
    assert_eq!(out.get("PROCESS_ID", 10).cloned(), Some("agent".to_string()));
    assert_eq!(out.get("PARENTPID", 1).cloned(), Some("launchd [PID 1]".to_string()));
    assert_eq!(out.get("CHILD_PIDS", 10), None);
    assert_eq!(out.get("IDXPID", 77), None);
}
