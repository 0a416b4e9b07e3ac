use agent_manip::log_view::{
    config_view, follow_scroll, log_tab_label, log_title, log_view, pick_log, selected_log,
    status_bar,
};
use agent_manip::tabs::{KeyAction, Tab};

#[test]
fn log_views() {
    let (text, lines) = log_view("/x.log", Err("denied"));
    assert!(text.starts_with("UNABLE TO READ LOG FILE\n\nPATH: /x.log\n\nERROR: denied\n\nPossible causes:"));
    assert_eq!(lines, None);
    let (text, lines) = log_view("/x.log", Ok(""));
    assert_eq!(text, "LOG FILE IS EMPTY\n\nPATH: /x.log\n\nThe log file exists but contains no content.");
    assert_eq!(lines, Some(5));
    let (text, lines) = log_view("/x.log", Ok("a\r\nb\n"));
    assert_eq!(text, "a\nb");
    assert_eq!(lines, Some(2));
    let big: String = (0..1005).map(|i| format!("line {}\n", i)).collect();
    let (text, lines) = log_view("/x.log", Ok(&big));
    assert!(text.starts_with("... (showing last 1000 of 1005 lines)\n\nline 5\nline 6\n"));
    assert!(text.ends_with("line 1004"));
    assert_eq!(lines, Some(1002));
}

#[test]
fn log_view_follows_growth() {
    assert_eq!(follow_scroll(0, true, true, true, 100, 20), 80);
    assert_eq!(follow_scroll(3, true, false, true, 100, 20), 3);
    assert_eq!(follow_scroll(90, false, false, true, 100, 20), 80);
    assert_eq!(follow_scroll(5, true, true, false, 10, 20), 0);
}

#[test]
fn log_selection() {
    let available = vec![0, 2, 5];
    assert_eq!(selected_log(&available, 2), (2, false));
    assert_eq!(selected_log(&available, 3), (0, true));
    assert_eq!(selected_log(&vec![], 3), (3, false));
    assert_eq!(pick_log(&available, 2, KeyAction::NextLog), 5);
    assert_eq!(pick_log(&available, 5, KeyAction::NextLog), 0);
    assert_eq!(pick_log(&available, 0, KeyAction::PrevLog), 5);
    assert_eq!(pick_log(&available, 4, KeyAction::PrevLog), 0);
    assert_eq!(pick_log(&available, 0, KeyAction::SelectLog(2)), 5);
    assert_eq!(pick_log(&available, 0, KeyAction::SelectLog(3)), 0);
    assert_eq!(pick_log(&vec![], 7, KeyAction::NextLog), 7);
    assert_eq!(log_tab_label(3, true), "[3*]");
    assert_eq!(log_tab_label(3, false), "[3]");
    assert_eq!(log_title(1, "lsiagent1.log"), " LOG FILE 1: lsiagent1.log ");
}

#[test]
fn config_and_status_texts() {
    assert_eq!(config_view(Some("[Debug]\n")), "[Debug]\n");
    assert!(config_view(None).starts_with("CONFIG FILE NOT FOUND OR ACCESS DENIED\n\nPATH: /var/opt/lsiagent/lsiagent.cfg"));
    let base = " [F1-F6] NAV | [H/L/J/K] MOVE | [S] START | [X] STOP | [R] REFRESH | [Q] QUIT | [MOUSE] CLICK TABS | MODE: SYSTEMCTL | INTERVAL: 1000ms ";
    assert_eq!(status_bar(true, 1000, Tab::Overview), base);
    assert_eq!(status_bar(true, 1000, Tab::Config), format!("{} | [↑/↓] SCROLL | [PgUp/PgDn] PAGE | [MOUSE] WHEEL ", base));
    assert!(status_bar(false, 5, Tab::Logs).contains("MODE: DIRECT | INTERVAL: 5ms  | [↑/↓] SCROLL"));
}
