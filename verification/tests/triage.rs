use agent_manip::clock::{UtcStamp, EARLIEST_UTC_SECONDS, LATEST_UTC_SECONDS};
use agent_manip::triage::{
    in_window, is_error_line, parse_line, parse_since, scan_line, since_accepted, site_token,
    split_site, window_fits, ErrorGrouper, TREND_BUCKETS,
};

fn now() -> UtcStamp {
    UtcStamp::new(2026, 7, 5, 12, 0, 0).unwrap()
}

fn fields(st: &UtcStamp) -> (i32, u32, u32, u32, u32, u32) {
    (st.year(), st.month(), st.day(), st.hour(), st.minute(), st.second())
}

#[test]
fn parses_full_line() {
    let p = parse_line(
        "07-04 09:15:42 webSocNix.cpp(120) -E WebSock connect to master failed",
        &now(),
    );
    // 2026-07-04 09:15:42
    assert_eq!(fields(&p.timestamp.unwrap()), (2026, 7, 4, 9, 15, 42));
    assert_eq!(p.site.as_deref(), Some("webSocNix.cpp(120)"));
    assert_eq!(p.level, Some('E'));
}

#[test]
fn future_month_rolls_back_a_year() {
    let p = parse_line("12-25 10:00:00 threadColl.cpp(88) -I snapshot", &now());
    assert_eq!(p.timestamp.unwrap().year(), 2025);
}

#[test]
fn nonstandard_line_yields_nones() {
    let p = parse_line("   at libsystem_kernel.dylib + 123", &now());
    assert!(p.timestamp.is_none());
    assert!(p.site.is_none());
    assert!(p.level.is_none());
}

#[test]
fn site_detection() {
    assert_eq!(site_token("webSocNix(120)"), Some("webSocNix(120)".to_string()));
    // fixed-width column truncation loses the closing paren
    assert_eq!(
        site_token("threadStatusBarBridge(75"),
        Some("threadStatusBarBridge(75…".to_string())
    );
    assert_eq!(site_token("(120)"), None);
    assert_eq!(site_token("no-parens"), None);
    assert_eq!(site_token("bad(12x)"), None);
    assert_eq!(split_site("dbConnNix.cpp(310)"), Some(("dbConnNix.cpp".to_string(), 310)));
    // truncated line digits are unreliable -> line 0
    assert_eq!(
        split_site("threadStatusBarBridge(75…"),
        Some(("threadStatusBarBridge".to_string(), 0))
    );
    assert_eq!(split_site("nope"), None);
}

#[test]
fn parses_real_agent_line_padding() {
    // real lines pad the site column and may carry an empty thread name
    let p = parse_line(
        "07-02 12:13:32 DbUtils(5009)            -E        Failed to create CDbSaVerRs during upgrade",
        &now(),
    );
    assert_eq!(p.site.as_deref(), Some("DbUtils(5009)"));
    assert_eq!(p.level, Some('E'));
}

#[test]
fn grouping_counts_and_orders() {
    let mut g = ErrorGrouper::new();
    g.add("agent", "07-01 08:00:00 a.cpp(1) -E first failure", &now());
    g.add("agent", "07-02 08:00:00 a.cpp(1) -E second failure", &now());
    g.add("agent", "07-03 08:00:00 b.cpp(2) -E newer but rarer", &now());
    assert_eq!(g.total(), 3);

    let groups = g.into_sorted();
    assert_eq!(groups.len(), 2);
    // most recently seen first
    assert_eq!(groups[0].site, "b.cpp(2)");
    assert_eq!(groups[1].site, "a.cpp(1)");
    assert_eq!(groups[1].count, 2);
    assert_eq!(groups[1].first_seen.as_deref(), Some("07-01 08:00:00"));
    assert_eq!(groups[1].last_seen.as_deref(), Some("07-02 08:00:00"));
    assert_eq!(groups[1].sample, "07-02 08:00:00 a.cpp(1) -E second failure");
}

#[test]
fn windowed_grouping_fills_trend_buckets() {
    // now = 07-05 12:00; 24h window starts 07-04 12:00
    let mut g = ErrorGrouper::with_window(&now(), 24 * 3600);
    g.add("agent", "07-04 12:30:00 a.cpp(1) -E early", &now()); // ~2% in
    g.add("agent", "07-05 11:30:00 a.cpp(1) -E late", &now()); // ~98% in
    g.add("agent", "07-05 11:31:00 a.cpp(1) -E late again", &now());
    let groups = g.into_sorted();
    assert_eq!(groups.len(), 1);
    let b = &groups[0].buckets;
    assert_eq!(b.len(), TREND_BUCKETS);
    assert_eq!(b.iter().sum::<u32>(), 3);
    assert_eq!(b[0], 1, "early hit lands in the first bucket");
    assert_eq!(b[TREND_BUCKETS - 1], 2, "late hits land in the last bucket");

    // unwindowed groupers keep buckets empty
    let mut g = ErrorGrouper::new();
    g.add("agent", "07-04 12:30:00 a.cpp(1) -E x", &now());
    assert!(g.into_sorted()[0].buckets.is_empty());
}

#[test]
fn since_parsing() {
    assert_eq!(parse_since("24h"), Some(24 * 3600));
    assert_eq!(parse_since("30m"), Some(30 * 60));
    assert_eq!(parse_since("7d"), Some(7 * 86400));
    assert_eq!(parse_since("90s"), Some(90));
    assert!(parse_since("bogus").is_none());
    assert!(parse_since("").is_none());
}

#[test]
fn error_line_detection() {
    assert!(is_error_line("07-04 12:00:00 webSocNix.cpp(120) -E WebSock connect failed"));
    assert!(is_error_line("something Exception thrown"));
    assert!(!is_error_line("07-04 12:00:00 threadColl.cpp(88) -I Coll snapshot ok"));
}

#[test]
fn since_refuses_what_chrono_cannot_hold() {
    assert!(since_accepted("24h"));
    assert!(since_accepted("bogus"));
    assert!(!since_accepted("9999999999999999d"));
    assert!(since_accepted("5é"));
    assert!(parse_since("5é").is_none());
    assert_eq!(parse_since(" 1d "), Some(86400));
    assert!(parse_since("-5m").is_none());
    assert!(parse_since("+5m") == Some(300));
}

#[test]
fn clock_bounds_match_chrono() {
    let min = chrono::NaiveDateTime::MIN.and_utc().timestamp();
    let max = chrono::NaiveDateTime::MAX.and_utc().timestamp();
    assert_eq!(min, EARLIEST_UTC_SECONDS);
    assert_eq!(max, LATEST_UTC_SECONDS);
    assert!(UtcStamp::new(2024, 2, 29, 0, 0, 0).is_some());
    assert!(UtcStamp::new(2023, 2, 29, 0, 0, 0).is_none());
    assert!(UtcStamp::new(2023, 1, 1, 24, 0, 0).is_none());
    assert_eq!(UtcStamp::new(1970, 1, 2, 0, 0, 1).unwrap().seconds(), 86401);
    assert_eq!(UtcStamp::new(2026, 7, 4, 9, 5, 2).unwrap().short_text(), "07-04 09:05:02");
}

#[test]
fn leap_day_rolls_back_to_nothing() {
    // 02-29 in 2025 does not exist, so a future-looking 02-29 line has no stamp
    let jan = UtcStamp::new(2024, 1, 10, 0, 0, 0).unwrap();
    let p = parse_line("02-29 10:00:00 a(1) -E x", &jan);
    assert!(p.timestamp.is_none());
    assert!(p.site.is_none());
}

#[test]
fn stamp_after_now_is_last_year() {
    // 22 hours ahead of now still lies in the future: previous year
    let p = parse_line("07-06 10:00:00 a.cpp(1) -E x", &now());
    assert_eq!(fields(&p.timestamp.unwrap()), (2025, 7, 6, 10, 0, 0));
    let q = parse_line("07-05 12:00:00 a.cpp(1) -E x", &now());
    assert_eq!(fields(&q.timestamp.unwrap()), (2026, 7, 5, 12, 0, 0));
}

#[test]
fn groups_order_by_inferred_year() {
    let mut g = ErrorGrouper::new();
    g.add("agent", "12-25 10:00:00 a.cpp(1) -E x", &now());
    g.add("agent", "07-03 08:00:00 b.cpp(2) -E y", &now());
    let r = g.into_sorted();
    assert_eq!(r[0].site, "b.cpp(2)");
    assert_eq!(r[1].site, "a.cpp(1)");
    assert_eq!(r[1].last_seen.as_deref(), Some("12-25 10:00:00"));
}

#[test]
fn window_filters_lines() {
    let w = Some(24 * 3600);
    assert!(window_fits(&now(), w));
    assert!(!window_fits(&now(), Some(i64::MAX)));
    assert!(in_window("07-04 12:00:00 a.cpp(1) -E x", &now(), w));
    assert!(!in_window("07-04 11:59:59 a.cpp(1) -E x", &now(), w));
    assert!(!in_window("   at frame 3", &now(), w));
    assert!(in_window("   at frame 3", &now(), None));
}

#[test]
fn scan_line_counts_error_lines_in_window() {
    let w = Some(3600);
    let mut g = ErrorGrouper::new();
    scan_line(&mut g, "agent", "07-05 11:30:00 a.cpp(1) -E inside", &now(), w);
    scan_line(&mut g, "agent", "07-05 10:30:00 a.cpp(1) -E outside", &now(), w);
    scan_line(&mut g, "agent", "07-05 11:40:00 a.cpp(1) -I fine", &now(), w);
    scan_line(&mut g, "agent", "07-05 11:45:00 b.cpp(2) -E also inside", &now(), w);
    assert_eq!(g.total(), 2);
    let r = g.into_sorted();
    assert_eq!(r[0].site, "b.cpp(2)");
    assert_eq!(r[1].sample, "07-05 11:30:00 a.cpp(1) -E inside");
}

#[test]
fn split_site_gives_written_site_back() {
    for (file, n) in [("webSocNix", 120u32), ("a.cpp", 0), ("x", u32::MAX)] {
        assert_eq!(split_site(&format!("{}({})", file, n)), Some((file.to_string(), n)));
        assert_eq!(split_site(&format!("{}(75…", file)), Some((file.to_string(), 0)));
        assert_eq!(split_site(&format!("{}(75", file)), Some((file.to_string(), 0)));
    }
}
