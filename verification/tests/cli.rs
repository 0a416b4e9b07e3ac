use agent_manip::cli::{
    clip_cell, errors_target_logs, excerpt_bounds, excerpt_line, implementation_first,
    parse_source_ref, source_file_matches,
};
use agent_manip::paths::Platform;

#[test]
fn source_ref_parsing() {
    assert_eq!(
        parse_source_ref("webSocNix.cpp(120)"),
        Some(("webSocNix.cpp".to_string(), 120))
    );
    assert_eq!(
        parse_source_ref("webSocNix.cpp:120"),
        Some(("webSocNix.cpp".to_string(), 120))
    );
    assert_eq!(
        parse_source_ref("07-04 09:15:42 webSocNix.cpp(120) -E connect failed"),
        Some(("webSocNix.cpp".to_string(), 120))
    );
    assert_eq!(
        parse_source_ref("dbConnNix.cpp"),
        Some(("dbConnNix.cpp".to_string(), 0))
    );
    // real agent lines log the site without extension, padded into a column
    assert_eq!(
        parse_source_ref("07-02 12:13:32 DbUtils(5009)            -E        Failed to create"),
        Some(("DbUtils".to_string(), 5009))
    );
}

#[test]
fn source_ref_edge_cases() {
    // a pasted line without any site
    assert_eq!(parse_source_ref("no site in this line"), None);
    // surrounding whitespace is ignored
    assert_eq!(
        parse_source_ref("  a.cpp(7)  "),
        Some(("a.cpp".to_string(), 7))
    );
    // a non-numeric line after the colon keeps the whole reference
    assert_eq!(
        parse_source_ref("a.cpp:abc"),
        Some(("a.cpp:abc".to_string(), 0))
    );
    // the last colon splits
    assert_eq!(
        parse_source_ref("C:x.cpp:12"),
        Some(("C:x.cpp".to_string(), 12))
    );
}

#[test]
fn source_file_stem_matching() {
    assert!(source_file_matches("dbConnNix.cpp", "dbConnNix"));
    assert!(source_file_matches("dbConnNix.h", "dbconnnix"));
    assert!(source_file_matches("webSocNix.cpp", "webSocNix.cpp"));
    assert!(!source_file_matches("dbConnNix.o", "dbConnNix"));
    assert!(!source_file_matches("dbConnNixTest.cpp", "dbConnNix"));
}

#[test]
fn source_file_matching_respects_query_extension() {
    assert!(!source_file_matches("dbConnNix.cpp", "dbConnNix.h"));
    assert!(source_file_matches("VIEW.MM", "view"));
    assert!(!source_file_matches("Makefile", "Makefile.am"));
}

#[test]
fn errors_default_to_main_daemon_logs() {
    let none: Vec<String> = Vec::new();
    let linux = errors_target_logs(Platform::Linux, &none, None).unwrap();
    let names: Vec<&str> = linux.iter().map(|l| l.name.as_str()).collect();
    assert_eq!(names, ["agent1", "agent2", "agent3", "agent4", "agent5"]);

    let users = vec!["SysTrackManagementUser_501.log".to_string()];
    let mac = errors_target_logs(Platform::MacOs, &users, None).unwrap();
    assert_eq!(mac.len(), 1);
    assert_eq!(mac[0].name, "agent");
    assert_eq!(
        mac[0].path,
        "/Library/Application Support/Lakeside Software/lsiagent.log"
    );
}

#[test]
fn errors_for_a_named_log() {
    let users = vec!["SysTrackManagementUser_501.log".to_string()];
    let one = errors_target_logs(Platform::MacOs, &users, Some("user-501")).unwrap();
    assert_eq!(one.len(), 1);
    assert_eq!(one[0].name, "user-501");

    let err = errors_target_logs(Platform::Linux, &users, Some("bogus")).unwrap_err();
    assert_eq!(err, "unknown log 'bogus' — run `lsman logs` to list names");
}

#[test]
fn table_cells_are_clipped_to_48_chars() {
    assert_eq!(clip_cell("short"), "short");
    let exact: String = "x".repeat(48);
    assert_eq!(clip_cell(&exact), exact);
    let long: String = "é".repeat(60);
    let clipped = clip_cell(&long);
    assert_eq!(clipped.chars().count(), 48);
    assert!(clipped.ends_with('…'));
    assert_eq!(clipped, format!("{}…", "é".repeat(47)));
}

#[test]
fn implementation_files_come_first() {
    let hits = vec![
        "/src/a/dbConnNix.h".to_string(),
        "/src/b/dbConnNix.cpp".to_string(),
        "/src/c/.hidden/dbConnNix.HPP".to_string(),
        "/src/d/dbConnNix.mm".to_string(),
    ];
    assert_eq!(
        implementation_first(hits),
        [
            "/src/b/dbConnNix.cpp",
            "/src/d/dbConnNix.mm",
            "/src/a/dbConnNix.h",
            "/src/c/.hidden/dbConnNix.HPP",
        ]
    );
}

#[test]
fn excerpt_window_around_the_line() {
    // line 10 of a 100-line file: indices 6..13
    assert_eq!(excerpt_bounds(10, 100), Some((9, 6, 13)));
    // near the start and the end
    assert_eq!(excerpt_bounds(1, 2), Some((0, 0, 2)));
    assert_eq!(excerpt_bounds(99, 100), Some((98, 95, 100)));
    // beyond the file, or unknown
    assert_eq!(excerpt_bounds(101, 100), None);
    assert_eq!(excerpt_bounds(0, 100), None);
    assert_eq!(excerpt_line(true, 9, "int x;"), ">    10 | int x;");
    assert_eq!(excerpt_line(false, 123455, "y"), "  123456 | y");
}
