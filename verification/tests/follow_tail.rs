use agent_manip::db::resolve_table_name;
use agent_manip::paths::{find_log, Platform};
use agent_manip::web::{
    follow_lines, follow_step, percent_decode, query_param, tail_capped_result, tail_since_result,
};

#[test]
fn incremental_tail_holds_back_partial_line() {
    let buf = b"one\ntwo\npart";
    let (lines, size, next, reset) = tail_since_result(12, 0, buf, false);
    assert_eq!(lines, vec!["one".to_string(), "two".to_string()]);
    assert_eq!((size, next, reset), (12, 8, false));
}

#[test]
fn incremental_tail_resets_on_shrink_or_big_jump() {
    assert_eq!(tail_since_result(5, 10, b"", false), (Vec::new(), 5, 5, true));
    assert_eq!(tail_since_result(3_000_000, 0, b"", true), (Vec::new(), 3_000_000, 3_000_000, true));
    let (lines, _, next, _) = tail_since_result(40, 20, b"a -E x\nok line\n", true);
    assert_eq!(lines, vec!["a -E x".to_string()]);
    assert_eq!(next, 35);
}

#[test]
fn follow_steps() {
    assert_eq!(follow_step(100, 150), (false, 100, true));
    assert_eq!(follow_step(100, 100), (false, 100, false));
    assert_eq!(follow_step(100, 40), (true, 0, true));
    assert_eq!(follow_step(100, 0), (true, 0, false));
    assert_eq!(follow_lines("a\nb failed\r\nc", true), vec!["b failed".to_string()]);
    assert_eq!(follow_lines("a\nb", false), vec!["a".to_string(), "b".to_string()]);
}

#[test]
fn decoded_text_of_valid_utf8() {
    assert_eq!(percent_decode("log%3Aagent"), "log:agent");
    assert_eq!(percent_decode("a%zz%4"), "a%zz%4");
    assert_eq!(query_param("file=log%3Awebcom", "file").as_deref(), Some("log:webcom"));
    assert_eq!(query_param("since=24h&n=200", "n").as_deref(), Some("200"));
}

#[test]
fn resolved_names_come_from_the_list() {
    let names = vec!["SAAPP".to_string(), "saapp".to_string(), "SA_X".to_string()];
    assert_eq!(resolve_table_name(&names, "saapp").unwrap(), "saapp");
    assert_eq!(resolve_table_name(&names, "Saapp").unwrap(), "SAAPP");
    assert_eq!(resolve_table_name(&names, "sax").unwrap(), "SA_X");
    assert!(resolve_table_name(&names, "SAAP").is_err());
}

#[test]
fn find_log_by_exact_name() {
    let users = vec!["SysTrackManagementUser_501.log".to_string()];
    for p in [Platform::MacOs, Platform::Linux] {
        let l = find_log(p, &users, "webcom").unwrap();
        assert!(l.path.ends_with("lsiwebcom.log"));
        assert!(find_log(p, &users, "").is_none());
        assert!(find_log(p, &users, "../../etc/passwd").is_none());
        assert!(find_log(p, &users, "WEBCOM").is_none());
    }
    assert_eq!(find_log(Platform::MacOs, &users, "user-501").unwrap().name, "user-501");
}

#[test]
fn capped_tail_of_small_file() {
    let (lines, size, windowed, next) = tail_capped_result(12, b"one\ntwo\npart", 100, false);
    assert_eq!(lines, vec!["one".to_string(), "two".to_string()]);
    assert_eq!((size, windowed, next), (12, false, 8));
    let (lines, _, windowed, next) = tail_capped_result(1_048_586, b"tial\nx\ny -E z\n", 1, false);
    assert_eq!(lines, vec!["y -E z".to_string()]);
    assert_eq!((windowed, next), (true, 10 + 14));
}
