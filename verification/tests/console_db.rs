use agent_manip::db::{column_label, query_result, read_only_query, table_schema_sql, value_text, SqlValue};

#[test]
fn read_only_console_accepts_queries_only() {
    assert!(read_only_query("  SELECT * FROM SAAPP"));
    assert!(read_only_query("pragma table_info(SAAPP)"));
    assert!(read_only_query("\tExplain select 1"));
    assert!(!read_only_query("DELETE FROM SAAPP"));
    assert!(!read_only_query("with x as (select 1) select * from x"));
    assert!(!read_only_query(""));
}

#[test]
fn values_render_as_text() {
    assert_eq!(value_text(&SqlValue::Null), "NULL");
    assert_eq!(value_text(&SqlValue::Integer(-42)), "-42");
    assert_eq!(value_text(&SqlValue::Real("1.5".to_string())), "1.5");
    assert_eq!(value_text(&SqlValue::Text(b"caf\xc3\xa9".to_vec())), "café");
    assert_eq!(value_text(&SqlValue::Text(vec![b'a', 0xff])), "a\u{fffd}");
    assert_eq!(value_text(&SqlValue::Blob(16)), "<BLOB: 16 bytes>");
}

#[test]
fn query_results_from_rows() {
    assert_eq!(column_label(Some("name"), 0), "name");
    assert_eq!(column_label(None, 3), "Column_3");
    let r = query_result(
        &vec![Some("id".to_string()), None],
        &vec![vec![SqlValue::Integer(1), SqlValue::Null], vec![SqlValue::Integer(2), SqlValue::Blob(0)]],
    );
    assert_eq!(r.columns.iter().map(|c| c.name.as_str()).collect::<Vec<_>>(), vec!["id", "Column_1"]);
    assert!(r.columns.iter().all(|c| c.data_type.is_empty()));
    assert_eq!(r.rows, vec![vec!["1".to_string(), "NULL".to_string()], vec!["2".to_string(), "<BLOB: 0 bytes>".to_string()]]);
    assert_eq!(r.affected_rows, 2);
    assert_eq!(table_schema_sql("SAAPP"), "PRAGMA table_info(SAAPP)");
}
