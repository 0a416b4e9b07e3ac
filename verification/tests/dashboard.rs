use agent_manip::boot::{boot_key, boot_script, final_frame, BootKey, LineKind, OPERATIONAL, TITLE, TRY_ADMIN};
use agent_manip::console::{
    grid_heading, more_sites, raw_heading, raw_line, render_db_cell, render_grid, site_heading,
    site_row, summary_head, RawMatches,
};
use agent_manip::db::{Cell, Row};
use agent_manip::resolve::Resolved;
use agent_manip::routes::{
    config_refusal, refusal, route, split_url, strings_query, trace_refusal, DaemonRequest,
    HttpMethod, Route, CONFIG_WRITE_CAP,
};
use agent_manip::tabs::{on_key, scroll_by, Key, KeyAction, ScrollStep, Tab};
use agent_manip::triage::ErrorGroup;

#[test]
fn routes_by_path_and_method() {
    assert_eq!(route("/", HttpMethod::Get, false), Route::Dashboard);
    assert_eq!(route("/index.html", HttpMethod::Get, false), Route::Dashboard);
    assert_eq!(route("/api/snapshot", HttpMethod::Get, false), Route::Snapshot);
    assert_eq!(route("/api/config", HttpMethod::Get, false), Route::ConfigGet);
    assert_eq!(route("/api/config", HttpMethod::Post, true), Route::ConfigPost);
    assert_eq!(route("/api/db/strings", HttpMethod::Get, false), Route::DbStrings);
    assert_eq!(route("/nope", HttpMethod::Get, true), Route::Refused(404));
}

#[test]
fn mutating_routes_need_post_and_control_header() {
    assert_eq!(route("/api/daemon/restart", HttpMethod::Post, true), Route::Daemon(DaemonRequest::Restart));
    assert_eq!(route("/api/daemon/restart", HttpMethod::Get, true), Route::Refused(405));
    assert_eq!(route("/api/daemon/start", HttpMethod::Get, true), Route::Refused(405));
    assert_eq!(route("/api/daemon/stop", HttpMethod::Post, false), Route::Refused(403));
    assert_eq!(route("/api/config", HttpMethod::Post, false), Route::Refused(403));
    assert_eq!(route("/api/config", HttpMethod::Other, true), Route::Refused(405));
    assert_eq!(route("/api/config/trace", HttpMethod::Post, true), Route::TracePost);
    assert_eq!(refusal("/api/daemon/stop", 403), "missing X-Lsman-Control header");
    assert_eq!(refusal("/api/config", 405), "GET or POST required");
    assert_eq!(refusal("/api/daemon/stop", 405), "POST required");
    assert_eq!(refusal("/x", 404), "not found");
}

#[test]
fn split_url_at_first_question_mark() {
    assert_eq!(split_url("/api/log?name=agent&n=5?x"), ("/api/log".to_string(), "name=agent&n=5?x".to_string()));
    assert_eq!(split_url("/api/log"), ("/api/log".to_string(), String::new()));
}

#[test]
fn strings_query_needs_two_bytes() {
    assert_eq!(strings_query("q=%20ab%20"), Ok("ab".to_string()));
    assert_eq!(strings_query("q=a"), Err("need ?q= of at least 2 characters".to_string()));
    assert_eq!(strings_query(""), Err("need ?q= of at least 2 characters".to_string()));
    assert_eq!(strings_query("q=é"), Ok("é".to_string()));
}

#[test]
fn keys_move_between_tabs() {
    assert_eq!(on_key(Tab::Overview, Key::Tab), (Tab::Resources, KeyAction::Nothing));
    assert_eq!(on_key(Tab::Overview, Key::BackTab), (Tab::Settings, KeyAction::Nothing));
    assert_eq!(on_key(Tab::Logs, Key::Char('l')), (Tab::Config, KeyAction::Nothing));
    assert_eq!(on_key(Tab::Logs, Key::Char('h')), (Tab::Network, KeyAction::Nothing));
    assert_eq!(on_key(Tab::Settings, Key::F(3)), (Tab::Network, KeyAction::Nothing));
    assert_eq!(on_key(Tab::Overview, Key::F(5)), (Tab::Config, KeyAction::Nothing));
    assert_eq!(on_key(Tab::Overview, Key::F(6)), (Tab::Settings, KeyAction::Nothing));
    assert_eq!(on_key(Tab::Network, Key::Char('q')), (Tab::Network, KeyAction::Quit));
    assert_eq!(on_key(Tab::Network, Key::Esc), (Tab::Network, KeyAction::Quit));
    assert_eq!(on_key(Tab::Network, Key::Char('s')), (Tab::Network, KeyAction::StartDaemon));
    assert_eq!(on_key(Tab::Network, Key::Char('x')), (Tab::Network, KeyAction::StopDaemon));
    assert_eq!(on_key(Tab::Network, Key::Char('r')), (Tab::Network, KeyAction::Refresh));
    assert_eq!(on_key(Tab::Network, Key::F(9)), (Tab::Network, KeyAction::Nothing));
}

#[test]
fn scroll_and_log_keys_where_they_apply() {
    assert_eq!(on_key(Tab::Logs, Key::Down), (Tab::Logs, KeyAction::Scroll(ScrollStep::Line, true)));
    assert_eq!(on_key(Tab::Config, Key::PageUp), (Tab::Config, KeyAction::Scroll(ScrollStep::Page, false)));
    assert_eq!(on_key(Tab::Logs, Key::Char('j')), (Tab::Logs, KeyAction::Scroll(ScrollStep::HalfPage, true)));
    assert_eq!(on_key(Tab::Config, Key::Char('k')), (Tab::Config, KeyAction::Scroll(ScrollStep::HalfPage, false)));
    assert_eq!(on_key(Tab::Overview, Key::Down), (Tab::Overview, KeyAction::Nothing));
    assert_eq!(on_key(Tab::Overview, Key::Char('j')), (Tab::Overview, KeyAction::Nothing));
    assert_eq!(on_key(Tab::Logs, Key::Left), (Tab::Logs, KeyAction::PrevLog));
    assert_eq!(on_key(Tab::Logs, Key::Right), (Tab::Logs, KeyAction::NextLog));
    assert_eq!(on_key(Tab::Config, Key::Right), (Tab::Config, KeyAction::Nothing));
    assert_eq!(on_key(Tab::Logs, Key::Char('7')), (Tab::Logs, KeyAction::SelectLog(7)));
    assert_eq!(on_key(Tab::Network, Key::Char('7')), (Tab::Network, KeyAction::Nothing));
    assert_eq!(scroll_by(0, ScrollStep::Line, true, 10, 50), 1);
    assert_eq!(scroll_by(5, ScrollStep::HalfPage, true, 10, 50), 10);
    assert_eq!(scroll_by(45, ScrollStep::Page, true, 10, 50), 50);
    assert_eq!(scroll_by(3, ScrollStep::Page, false, 10, 50), 0);
    assert_eq!(scroll_by(3, ScrollStep::HalfPage, false, 1, 50), 2);
    assert_eq!(scroll_by(60, ScrollStep::Line, false, 10, 50), 50);
}

#[test]
fn six_tabs_come_back_around() {
    let mut t = Tab::Resources;
    for _ in 0..6 {
        t = t.next();
    }
    assert_eq!(t, Tab::Resources);
    assert_eq!(Tab::Logs.next().prev(), Tab::Logs);
    assert_eq!(Tab::Settings.next(), Tab::Overview);
    assert_eq!(Tab::Config.index(), 4);
}

#[test]
fn raw_matches_keep_the_last_ones() {
    let mut m = RawMatches::new(2);
    m.add(1, "a".to_string());
    m.add(5, "b".to_string());
    m.add(9, "c".to_string());
    assert_eq!(m.count(), 3);
    assert_eq!(m.kept(), &vec![(5, "b".to_string()), (9, "c".to_string())]);
    let mut none = RawMatches::new(0);
    none.add(1, "a".to_string());
    assert_eq!(none.count(), 1);
    assert!(none.kept().is_empty());
    assert_eq!(raw_heading("agent", 3, 2), "== agent (3 matches, showing last 2) ==");
    assert_eq!(raw_heading("agent", 2, 2), "== agent (2 matches) ==");
    assert_eq!(raw_line("agent", 12, "ERROR x"), "agent:12: ERROR x");
}

#[test]
fn site_table_rows() {
    let g = ErrorGroup {
        log: "agent".to_string(),
        site: "a.cpp(1)".to_string(),
        count: 42,
        first_seen: Some("01-02 03:04:05".to_string()),
        last_seen: None,
        last_seen_secs: None,
        sample: String::new(),
        buckets: Vec::new(),
    };
    assert_eq!(
        site_row(&g),
        format!("{:<10} {:<34} {:>6}  {:<15} {:<15}", "agent", "a.cpp(1)", 42, "01-02 03:04:05", "-")
    );
    assert_eq!(
        site_heading(),
        format!("{:<10} {:<34} {:>6}  {:<15} {:<15}", "LOG", "SITE", "COUNT", "FIRST SEEN", "LAST SEEN")
    );
    assert_eq!(summary_head(7, 2, Some("24h")), "7 error/crash lines across 2 source sites in the last 24h (timestamps are UTC)");
    assert_eq!(summary_head(7, 2, None), "7 error/crash lines across 2 source sites (timestamps are UTC)");
    assert_eq!(more_sites(3, 5), Some("… and 2 more sites (raise -n)".to_string()));
    assert_eq!(more_sites(5, 5), None);
}

#[test]
fn db_cells_render_resolved_and_clipped() {
    let row = Row {
        cells: vec![
            ("APP_ID".to_string(), Cell::Int(7)),
            ("N".to_string(), Cell::Int(-3)),
            ("T".to_string(), Cell::Text("x".repeat(60))),
            ("Z".to_string(), Cell::Null),
            ("F".to_string(), Cell::Other("1.5".to_string())),
        ],
    };
    let mut r = Resolved::new();
    r.insert("APP_ID".to_string(), 7, "agent".to_string());
    assert_eq!(render_db_cell(&row, "APP_ID", &r), "agent");
    assert_eq!(render_db_cell(&row, "N", &r), "-3");
    assert_eq!(render_db_cell(&row, "T", &r), format!("{}…", "x".repeat(47)));
    assert_eq!(render_db_cell(&row, "Z", &r), "");
    assert_eq!(render_db_cell(&row, "F", &r), "1.5");
    assert_eq!(render_db_cell(&row, "missing", &r), "");
    assert_eq!(grid_heading("APP_ID", &r), "APP_ID*");
    assert_eq!(grid_heading("N", &r), "N");
}

#[test]
fn grid_pads_columns_and_trims_lines() {
    let grid = vec![
        vec!["ID".to_string(), "NAME".to_string()],
        vec!["1".to_string(), "a".to_string()],
        vec!["100".to_string(), "".to_string()],
    ];
    assert_eq!(render_grid(&grid, 2), vec!["ID   NAME".to_string(), "1    a".to_string(), "100".to_string()]);
}

#[test]
fn boot_animation_ends_on_the_status() {
    let root = final_frame(true);
    assert_eq!(root.first().map(|l| l.text.as_str()), Some(TITLE));
    assert_eq!(root.last().map(|l| (l.text.as_str(), l.kind)), Some((OPERATIONAL, LineKind::Good)));
    let user = final_frame(false);
    assert_eq!(user.last().map(|l| (l.text.as_str(), l.kind)), Some((TRY_ADMIN, LineKind::Bad)));
    let steps = boot_script(true);
    assert!(!steps.is_empty());
    let first = steps[0].lines.as_ref().unwrap();
    assert_eq!(first.len(), 1);
    assert_eq!(first[0].text, "");
    assert_eq!(boot_key(Key::Enter), BootKey::Skip);
    assert_eq!(boot_key(Key::Char('Q')), BootKey::Quit);
    assert_eq!(boot_key(Key::Char('a')), BootKey::Continue);
}

#[test]
fn config_saves_refused_in_order() {
    let running = "agent is running — stop it before editing the config (it only reads lsiagent.cfg at startup)";
    assert_eq!(config_refusal(CONFIG_WRITE_CAP + 1, false, true), Some((413, "config body too large")));
    assert_eq!(config_refusal(10, false, true), Some((400, "config must be valid UTF-8 text")));
    assert_eq!(config_refusal(CONFIG_WRITE_CAP, true, true), Some((409, running)));
    assert_eq!(config_refusal(0, true, false), None);
    assert_eq!(trace_refusal(None, true), Err((400, "need ?level=0..8")));
    assert_eq!(trace_refusal(Some(4), true), Err((409, running)));
    assert_eq!(trace_refusal(Some(4), false), Ok(4));
}
