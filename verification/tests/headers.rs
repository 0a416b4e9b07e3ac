use std::collections::BTreeMap;

use agent_manip::headers::{column_fields, field_comments, header_keys, struc_includes, table_descriptions};

const DBSA: &str = "#include \"stdafx.h\"\n#include \"StrucApp.h\"\nclass CDbSaApp\n{\n    LPCTSTR GetTableName() { return _T(\"SAApp\"); }\n    BEGIN_ADO_BINDING(CDbSaApp)\n        ADO_FIXED_LENGTH_ENTRY2(PROCESS_ID_ORD, adInteger, m_struc.lProcessId, FALSE)\n        ADO_FIXED_LENGTH_ENTRY2(START_TIME_ORD, adDBTimeStamp, m_struc.tStart, FALSE)\n        ADO_FIXED_LENGTH_ENTRY2(FLAGS_ORD, adInteger, m_struc.lFlagStat, FALSE)\n        ADO_VARIABLE_LENGTH_ENTRY2(NAME_ORD, adVarChar, m_struc.szName, sizeof(m_struc.szName), FALSE)\n    END_ADO_BINDING()\n};\n";

const STRUC: &str = "struct StrucApp\n{\n    // id of process for app\n    long lProcessId;\n    //*******************\n    // start\n\n    // time\n    DATE tStart;\n    // COL-3\n    // flag bits\n    long lFlagStat;\n    long lUndocumented;\n    // the\n    // app name\n    TCHAR szName[64];\n};\n";

fn as_map(pairs: Vec<(String, String)>) -> BTreeMap<String, String> {
    pairs.into_iter().collect()
}

#[test]
fn keys_from_declared_table_name() {
    assert_eq!(header_keys("DbSaApp.h", DBSA), vec!["SAAPP".to_string()]);
    assert_eq!(
        header_keys("DbSaApp.h", "GetTableName() { return _T(\"sa_app\"); }\n"),
        vec!["SA_APP".to_string(), "SAAPP".to_string()]
    );
}

#[test]
fn keys_from_table_name_body() {
    let body = "LPCTSTR GetTableName()\n{\n    return _T(\"saFoo\");\n}\n";
    assert_eq!(header_keys("DbSaFoo.h", body), vec!["SAFOO".to_string()]);
    let closed = "LPCTSTR GetTableName()\n{\n}\nx = _T(\"late\");\n";
    assert_eq!(header_keys("DbSaBar.h", closed), vec!["SABAR".to_string()]);
}

#[test]
fn keys_from_file_name() {
    assert_eq!(
        header_keys("DbSaProcess_Tree.h", "// nothing here\n"),
        vec!["SAPROCESS_TREE".to_string(), "SAPROCESSTREE".to_string()]
    );
    assert_eq!(header_keys("DbSaSAUser.h", ""), vec!["SAUSER".to_string()]);
    assert_eq!(header_keys("StrucApp.h", DBSA), Vec::<String>::new());
    assert_eq!(header_keys("DbSaApp.hpp", DBSA), Vec::<String>::new());
}

#[test]
fn struct_include_candidates() {
    assert_eq!(struc_includes(DBSA), vec!["StrucApp.h".to_string()]);
    assert_eq!(struc_includes("  #include <StrucX.h>\n#include \"Other.h\"\n"), Vec::<String>::new());
}

#[test]
fn bindings_and_comments() {
    assert_eq!(
        column_fields(DBSA),
        vec![
            ("PROCESS_ID".to_string(), "lProcessId".to_string()),
            ("START_TIME".to_string(), "tStart".to_string()),
            ("FLAGS".to_string(), "lFlagStat".to_string()),
            ("NAME".to_string(), "szName".to_string()),
        ]
    );
    assert_eq!(
        field_comments(STRUC),
        vec![
            ("lProcessId".to_string(), "id of process for app".to_string()),
            ("tStart".to_string(), "start time".to_string()),
            ("szName".to_string(), "the app name".to_string()),
        ]
    );
}

#[test]
fn descriptions_join_columns_to_comments() {
    let d = as_map(table_descriptions("SAAPP", Some((DBSA, STRUC))));
    assert_eq!(d.get("PROCESS_ID").map(String::as_str), Some("id of process for app"));
    assert_eq!(d.get("START_TIME").map(String::as_str), Some("start time"));
    assert_eq!(d.get("NAME").map(String::as_str), Some("the app name"));
    assert!(!d.contains_key("FLAGS"));
    assert_eq!(d.len(), 3);
    assert!(table_descriptions("SAAPP", None).is_empty());
}

#[test]
fn process_tree_descriptions_include_correlated_columns() {
    for name in ["SAPROCESSTREE", "SAPROCESS_TREE"] {
        let d = as_map(table_descriptions(name, None));
        assert!(d.contains_key("APP_NAME"));
        assert!(d.contains_key("PARENTPID"));
        assert!(d.contains_key("PARENT_APP_NAME"));
        assert!(d.contains_key("CHILD_APPS"));
    }
}
