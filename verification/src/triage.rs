//! Agent log-line triage: parse the agent's log format and group error lines
//! by the source site that emitted them.
//!
//! Agent log line format (threadLog.cpp / LsiTrace.cpp):
//! `MM-DD HH:MM:SS <file>(<line>) -<L> <thread> <msg>` — timestamps are UTC
//! (gmtime, no year), level char from `" EWI12345"`.

use vstd::prelude::*;
use vstd::multiset::Multiset;
use crate::clock::{short_text_spec, utc_seconds, valid_civil, UtcStamp, EARLIEST_UTC_SECONDS, LATEST_UTC_SECONDS};
use crate::num::{decimal, lemma_decimal, all_digits, all_digits_range, parse_i64_range, parse_i64_spec, parse_unsigned, parse_unsigned_range};
use crate::text::{
    chars_of, contains, contains_chars, contains_ci, contains_ignore_case, find_char, index_of,
    lemma_index_of, lemma_index_of_is,
    push_char, push_range, push_str, split_ws, string_of, strip_trailing, strip_trailing_end, trim,
    trim_bounds, trim_chars, words, text_lt, lemma_text_lt_irrefl, lemma_text_lt_trans, text_less,
    seq_eq,
};

verus! {

// ---------------------------------------------------------------------------
// error lines

/// The runbook's first-pass triage pattern: an explicit error-level marker
/// `" -E "`, or one of the keywords crash/abort/exception/failed in any case.
///
/// Lowercasing a whole line (`str::to_lowercase`) and searching for these
/// lowercase ASCII keywords finds exactly the matches of an ASCII-case-blind
/// search: the only non-ASCII characters whose lowercase holds an ASCII
/// letter are U+212A (to `k`, in no keyword) and U+0130 (to `i` followed by
/// U+0307, while no keyword has `i` last).
pub open spec fn is_error_line_spec(line: Seq<char>) -> bool {
    ||| contains(line, " -E "@)
    ||| contains_ci(line, "crash"@)
    ||| contains_ci(line, "abort"@)
    ||| contains_ci(line, "exception"@)
    ||| contains_ci(line, "failed"@)
}

/// Which lines are error lines: exactly those holding the error-level
/// marker `" -E "` (case as is), or one of the words crash, abort,
/// exception, failed in any ASCII case.
pub proof fn lemma_error_line_keywords(line: Seq<char>)
    ensures
        contains(line, " -E "@) ==> is_error_line_spec(line),
        contains_ci(line, "crash"@) ==> is_error_line_spec(line),
        contains_ci(line, "abort"@) ==> is_error_line_spec(line),
        contains_ci(line, "exception"@) ==> is_error_line_spec(line),
        contains_ci(line, "failed"@) ==> is_error_line_spec(line),
        is_error_line_spec(line) ==> contains(line, " -E "@) || contains_ci(line, "crash"@)
            || contains_ci(line, "abort"@) || contains_ci(line, "exception"@) || contains_ci(
            line,
            "failed"@,
        ),
{
}

/// Matches the first-pass triage pattern from the agent bug-investigation
/// runbook: explicit error-level lines (" -E ") plus crash-ish keywords.
pub fn is_error_line(line: &str) -> (r: bool)
    ensures
        r == is_error_line_spec(line@),
{
    let v = chars_of(line);
    is_error_chars(&v)
}

/// `is_error_line` on characters.
pub fn is_error_chars(v: &[char]) -> (r: bool)
    ensures
        r == is_error_line_spec(v@),
{
    if contains_chars(v, &chars_of(" -E ")) {
        return true;
    }
    contains_ignore_case(v, &chars_of("crash")) || contains_ignore_case(v, &chars_of("abort"))
        || contains_ignore_case(v, &chars_of("exception")) || contains_ignore_case(
        v,
        &chars_of("failed"),
    )
}

// ---------------------------------------------------------------------------
// source sites

/// Largest `u32`.
pub open spec fn u32_max() -> int {
    0xffff_ffff
}

/// `<file>(<digits>)` kept as is; `<file>(<digits>` (the closing paren lost
/// to the agent's fixed-width column) kept with a trailing `…`; anything else
/// is not a site.
pub open spec fn site_token_spec(tok: Seq<char>) -> Option<Seq<char>> {
    let open = index_of(tok, '(');
    if open <= 0 {
        None
    } else {
        let inner = tok.skip(open + 1);
        let complete = inner.len() > 0 && inner.last() == ')';
        let digits = if complete {
            inner.drop_last()
        } else {
            inner
        };
        if digits.len() == 0 || !all_digits(digits) {
            None
        } else if complete {
            Some(tok)
        } else {
            Some(tok.push('…'))
        }
    }
}

/// Normalize a token shaped like `<file>(<line>)` (the file is logged without
/// its extension, e.g. `webSocNix(120)`). The agent pads this into a
/// fixed-width column, so long file names lose the closing paren and even
/// line-number digits (`threadStatusBarBridge(75`); such truncated sites are
/// kept, marked with a trailing `…`.
pub fn site_token(token: &str) -> (r: Option<String>)
    ensures
        match site_token_spec(token@) {
            Some(t) => r matches Some(s) && s@ == t,
            None => r is None,
        },
{
    site_token_chars(&chars_of(token))
}

/// `site_token` on characters.
pub fn site_token_chars(tok: &[char]) -> (r: Option<String>)
    ensures
        match site_token_spec(tok@) {
            Some(t) => r matches Some(s) && s@ == t,
            None => r is None,
        },
{
    let n = tok.len();
    let open = match find_char(tok, 0, n, '(') {
        Some(o) => o,
        None => {
            assert(tok@.subrange(0, n as int) =~= tok@);
            return None;
        },
    };
    assert(tok@.subrange(0, n as int) =~= tok@);
    if open == 0 {
        return None;
    }
    let ghost inner = tok@.skip(open + 1);
    assert(inner =~= tok@.subrange(open + 1, n as int));
    let complete = open + 1 < n && tok[n - 1] == ')';
    let end = if complete {
        n - 1
    } else {
        n
    };
    proof {
        if open + 1 < n {
            assert(inner.last() == tok@[n - 1]);
        }
        if complete {
            assert(inner.drop_last() =~= tok@.subrange(open + 1, end as int));
        }
    }
    if end == open + 1 {
        return None;
    }
    if !all_digits_range(tok, open + 1, end) {
        return None;
    }
    let mut s = string_of(tok);
    if !complete {
        push_char(&mut s, '…');
    }
    Some(s)
}

/// `split_site`: the file part and line number of a site; the line is 0
/// when the site was truncated (`…`) or lost its closing paren.
pub open spec fn split_site_spec(site: Seq<char>) -> Option<(Seq<char>, nat)> {
    let open = index_of(site, '(');
    if open <= 0 {
        None
    } else {
        let file = site.take(open);
        let inner = strip_trailing(site.skip(open + 1), '…');
        if inner.len() > 0 && inner.last() == ')' {
            match parse_unsigned(inner.drop_last(), u32_max()) {
                Some(n) => Some((file, n)),
                None => None,
            }
        } else if inner.len() == 0 || !all_digits(inner) {
            None
        } else {
            Some((file, 0))
        }
    }
}

/// `split_site` on characters.
pub fn split_site_chars(v: &[char]) -> (r: Option<(String, u32)>)
    ensures
        match split_site_spec(v@) {
            Some((f, n)) => r matches Some((g, m)) && g@ == f && m == n,
            None => r is None,
        },
{
    let n = v.len();
    assert(v@.subrange(0, n as int) =~= v@);
    let open = match find_char(v, 0, n, '(') {
        Some(o) => o,
        None => {
            return None;
        },
    };
    if open == 0 {
        return None;
    }
    let e = strip_trailing_end(v, open + 1, n, '…');
    assert(v@.skip(open + 1) =~= v@.subrange(open + 1, n as int));
    assert(v@.take(open as int) =~= v@.subrange(0, open as int));
    let ghost inner = v@.subrange(open + 1, e as int);
    if e > open + 1 && v[e - 1] == ')' {
        assert(inner.last() == v@[e - 1]);
        assert(inner.drop_last() =~= v@.subrange(open + 1, e - 1));
        match parse_unsigned_range(v, open + 1, e - 1, 0xffff_ffffu64) {
            Some(line) => {
                let mut f = String::new();
                push_range(&mut f, v, 0, open);
                assert(f@ =~= v@.subrange(0, open as int));
                Some((f, line as u32))
            },
            None => None,
        }
    } else {
        if e > open + 1 {
            assert(inner.last() == v@[e - 1]);
        }
        if e == open + 1 {
            return None;
        }
        if !all_digits_range(v, open + 1, e) {
            return None;
        }
        let mut f = String::new();
        push_range(&mut f, v, 0, open);
        assert(f@ =~= v@.subrange(0, open as int));
        Some((f, 0))
    }
}

/// Split a source site `webSocNix(120)` into (`webSocNix`, 120). For a
/// column-truncated site (`threadStatusBarBridge(75…`) the digits are only a
/// prefix of the real line number, so the line comes back as 0 (unknown).
pub fn split_site(site: &str) -> (r: Option<(String, u32)>)
    ensures
        match split_site_spec(site@) {
            Some((f, n)) => r matches Some((g, m)) && g@ == f && m == n,
            None => r is None,
        },
{
    let v = chars_of(site);
    split_site_chars(&v)
}

/// `split_site` on `file(` followed by `rest`: the file part is `file` when
/// `file` holds no `(`.
proof fn lemma_site_open(file: Seq<char>, rest: Seq<char>)
    requires
        file.len() > 0,
        !file.contains('('),
    ensures
        index_of(file + seq!['('] + rest, '(') == file.len(),
        (file + seq!['('] + rest).take(file.len() as int) == file,
        (file + seq!['('] + rest).skip(file.len() as int + 1) == rest,
{
    let s = file + seq!['('] + rest;
    assert forall|j: int| 0 <= j < s.len() && j < file.len() implies s[j] != '(' by {
        assert(s[j] == file[j]);
    }
    lemma_index_of_is(s, '(', file.len() as int);
    assert(s.take(file.len() as int) =~= file);
    assert(s.skip(file.len() as int + 1) =~= rest);
}

/// Writing `file(n)` and splitting it gives `file` and `n` back; a site cut
/// short (`file(d…` or `file(d`) gives `file` and line 0; and the file part
/// of any split site is the non-empty text before its first `(`.
pub proof fn lemma_split_site_round_trip(file: Seq<char>, n: nat, d: Seq<char>, s: Seq<char>)
    requires
        file.len() > 0,
        !file.contains('('),
        n <= u32_max(),
        d.len() > 0,
        all_digits(d),
    ensures
        split_site_spec(file + seq!['('] + (decimal(n) + seq![')'])) == Some((file, n)),
        split_site_spec(file + seq!['('] + d.push('…')) == Some((file, 0nat)),
        split_site_spec(file + seq!['('] + d) == Some((file, 0nat)),
        split_site_spec(s) matches Some((f, _)) ==> f.len() > 0 && f == s.take(index_of(s, '('))
            && !f.contains('('),
{
    lemma_decimal(n);
    let w = decimal(n) + seq![')'];
    lemma_site_open(file, w);
    assert(strip_trailing(w, '…') == w);
    assert(w.drop_last() =~= decimal(n));
    assert(crate::num::is_digit(d[d.len() - 1]));
    assert(strip_trailing(d, '…') == d);
    lemma_site_open(file, d.push('…'));
    assert(d.push('…').drop_last() =~= d);
    assert(strip_trailing(d.push('…'), '…') == strip_trailing(d, '…'));
    lemma_site_open(file, d);
    lemma_index_of(s, '(');
    let i = index_of(s, '(');
    if i > 0 {
        assert forall|j: int| 0 <= j < i implies s.take(i)[j] != '(' by {}
    }
}

// ---------------------------------------------------------------------------
// timestamps

/// `MM-DD`: two `u32`s around the first `-`.
pub open spec fn date_parts(d: Seq<char>) -> Option<(nat, nat)> {
    let i = index_of(d, '-');
    if i < 0 {
        None
    } else {
        match (parse_unsigned(d.take(i), u32_max()), parse_unsigned(d.skip(i + 1), u32_max())) {
            (Some(m), Some(dd)) => Some((m, dd)),
            _ => None,
        }
    }
}

/// `HH:MM:SS`: exactly three `u32`s separated by `:`.
pub open spec fn time_parts(t: Seq<char>) -> Option<(nat, nat, nat)> {
    let c1 = index_of(t, ':');
    if c1 < 0 {
        None
    } else {
        let r1 = t.skip(c1 + 1);
        let c2 = index_of(r1, ':');
        if c2 < 0 {
            None
        } else {
            let r2 = r1.skip(c2 + 1);
            if index_of(r2, ':') >= 0 {
                None
            } else {
                match (
                    parse_unsigned(t.take(c1), u32_max()),
                    parse_unsigned(r1.take(c2), u32_max()),
                    parse_unsigned(r2, u32_max()),
                ) {
                    (Some(h), Some(m), Some(sec)) => Some((h, m, sec)),
                    _ => None,
                }
            }
        }
    }
}

/// The calendar fields a line's `MM-DD HH:MM:SS` denotes, given the current
/// year and time: this year's date, unless that lies after now, in which
/// case last year's (a log read just after New Year).
pub open spec fn stamp_fields(date: Seq<char>, time: Seq<char>, now_year: i32, now_secs: i64) -> Option<
    (i32, u32, u32, u32, u32, u32),
> {
    match (date_parts(date), time_parts(time)) {
        (Some((mo, d)), Some((h, mi, s))) => {
            if !valid_civil(now_year as int, mo as int, d as int, h as int, mi as int, s as int) {
                None
            } else if utc_seconds(now_year, mo as u32, d as u32, h as u32, mi as u32, s as u32)
                > now_secs {
                if valid_civil(now_year - 1, mo as int, d as int, h as int, mi as int, s as int) {
                    Some(((now_year - 1) as i32, mo as u32, d as u32, h as u32, mi as u32, s as u32))
                } else {
                    None
                }
            } else {
                Some((now_year, mo as u32, d as u32, h as u32, mi as u32, s as u32))
            }
        },
        _ => None,
    }
}

fn parse_date(d: &[char]) -> (r: Option<(u32, u32)>)
    ensures
        match date_parts(d@) {
            Some((m, dd)) => r == Some((m as u32, dd as u32)),
            None => r is None,
        },
{
    let n = d.len();
    assert(d@.subrange(0, n as int) =~= d@);
    let i = match find_char(d, 0, n, '-') {
        Some(i) => i,
        None => return None,
    };
    assert(d@.take(i as int) =~= d@.subrange(0, i as int));
    assert(d@.skip(i + 1) =~= d@.subrange(i + 1, n as int));
    let m = parse_unsigned_range(d, 0, i, 0xffff_ffffu64);
    let dd = parse_unsigned_range(d, i + 1, n, 0xffff_ffffu64);
    match (m, dd) {
        (Some(m), Some(dd)) => Some((m as u32, dd as u32)),
        _ => None,
    }
}

fn parse_time(t: &[char]) -> (r: Option<(u32, u32, u32)>)
    ensures
        match time_parts(t@) {
            Some((h, m, s)) => r == Some((h as u32, m as u32, s as u32)),
            None => r is None,
        },
{
    let n = t.len();
    assert(t@.subrange(0, n as int) =~= t@);
    let c1 = match find_char(t, 0, n, ':') {
        Some(i) => i,
        None => return None,
    };
    let ghost r1 = t@.skip(c1 + 1);
    assert(r1 =~= t@.subrange(c1 + 1, n as int));
    let c2 = match find_char(t, c1 + 1, n, ':') {
        Some(i) => i,
        None => return None,
    };
    let ghost r2 = r1.skip(c2 - c1);
    assert(r2 =~= t@.subrange(c2 + 1, n as int));
    if find_char(t, c2 + 1, n, ':').is_some() {
        return None;
    }
    assert(t@.take(c1 as int) =~= t@.subrange(0, c1 as int));
    assert(r1.take(c2 - c1 - 1) =~= t@.subrange(c1 + 1, c2 as int));
    let h = parse_unsigned_range(t, 0, c1, 0xffff_ffffu64);
    let m = parse_unsigned_range(t, c1 + 1, c2, 0xffff_ffffu64);
    let s = parse_unsigned_range(t, c2 + 1, n, 0xffff_ffffu64);
    match (h, m, s) {
        (Some(h), Some(m), Some(s)) => Some((h as u32, m as u32, s as u32)),
        _ => None,
    }
}

/// Parse `MM-DD` and `HH:MM:SS` into a UTC time, inferring the year from
/// `now`: a month/day that would land in the future is shifted back one
/// year, so logs spanning a New Year still order correctly.
fn parse_timestamp(date: &[char], time: &[char], now: &UtcStamp) -> (r: Option<UtcStamp>)
    requires
        now.wf(),
    ensures
        match stamp_fields(date@, time@, now.fields().0, now.spec_secs()) {
            Some(f) => r matches Some(st) && st.wf() && st.fields() == f,
            None => r is None,
        },
{
    proof {
        now.lemma_wf();
    }
    let (month, day) = match parse_date(date) {
        Some(md) => md,
        None => return None,
    };
    let (hour, min, sec) = match parse_time(time) {
        Some(t) => t,
        None => return None,
    };
    let this_year = match UtcStamp::new(now.year(), month, day, hour, min, sec) {
        Some(st) => st,
        None => return None,
    };
    proof {
        this_year.lemma_wf();
    }
    // A "future" stamp means the log line predates the current year
    // (e.g. reading December's log in January).
    if this_year.seconds() > now.seconds() {
        return UtcStamp::new(now.year() - 1, month, day, hour, min, sec);
    }
    Some(this_year)
}

// ---------------------------------------------------------------------------
// lines

/// One parsed agent log line. Fields are `None` when the line doesn't follow
/// the standard format (continuation lines, foreign output).
#[derive(Debug)]
pub struct ParsedLine {
    /// UTC timestamp (year inferred — the agent doesn't log one).
    pub timestamp: Option<UtcStamp>,
    /// Source site `<file>(<line>)`, e.g. `webSocNix.cpp(120)`.
    pub site: Option<String>,
    /// Level char: E, W, I, or 1-5 for trace levels.
    pub level: Option<char>,
}

/// A level marker character: E, W, I, or a trace level 1..5.
pub open spec fn is_level_char(c: char) -> bool {
    c == 'E' || c == 'W' || c == 'I' || ('1' <= c <= '5')
}

/// The timestamp fields of a line, when its first two tokens are one.
pub open spec fn line_stamp(line: Seq<char>, now_year: i32, now_secs: i64) -> Option<
    (i32, u32, u32, u32, u32, u32),
> {
    let w = words(line);
    if w.len() < 2 {
        None
    } else {
        stamp_fields(w[0], w[1], now_year, now_secs)
    }
}

/// The site of a timestamped line: its third token, if shaped like a site.
pub open spec fn line_site(line: Seq<char>) -> Option<Seq<char>> {
    let w = words(line);
    if w.len() < 3 {
        None
    } else {
        site_token_spec(w[2])
    }
}

/// The level of a timestamped line: its fourth token, if it is `-<L>`.
pub open spec fn line_level(line: Seq<char>) -> Option<char> {
    let w = words(line);
    if w.len() >= 4 && w[3].len() == 2 && w[3][0] == '-' && is_level_char(w[3][1]) {
        Some(w[3][1])
    } else {
        None
    }
}

/// Parse the leading `MM-DD HH:MM:SS <file>(<line>) -<L>` of an agent log
/// line. `now` supplies the year (and lets tests be deterministic): a
/// month/day that would land in the future is shifted back one year, so logs
/// spanning a New Year still order correctly.
pub fn parse_line(line: &str, now: &UtcStamp) -> (r: ParsedLine)
    requires
        now.wf(),
    ensures
        match line_stamp(line@, now.fields().0, now.spec_secs()) {
            Some(f) => {
                &&& r.timestamp matches Some(st) && st.wf() && st.fields() == f
                &&& match line_site(line@) {
                    Some(s) => r.site matches Some(t) && t@ == s,
                    None => r.site is None,
                }
                &&& r.level == line_level(line@)
            },
            None => r.timestamp is None && r.site is None && r.level is None,
        },
{
    let v = chars_of(line);
    parse_line_chars(&v, now)
}

/// `parse_line` on characters.
pub fn parse_line_chars(v: &[char], now: &UtcStamp) -> (r: ParsedLine)
    requires
        now.wf(),
    ensures
        match line_stamp(v@, now.fields().0, now.spec_secs()) {
            Some(f) => {
                &&& r.timestamp matches Some(st) && st.wf() && st.fields() == f
                &&& match line_site(v@) {
                    Some(s) => r.site matches Some(t) && t@ == s,
                    None => r.site is None,
                }
                &&& r.level == line_level(v@)
            },
            None => r.timestamp is None && r.site is None && r.level is None,
        },
{
    let mut parsed = ParsedLine { timestamp: None, site: None, level: None };
    let tokens = split_ws(v);
    if tokens.len() < 2 {
        return parsed;
    }
    let ts = parse_timestamp(&tokens[0], &tokens[1], now);
    if ts.is_none() {
        return parsed;  // not a standard agent line; don't guess at the rest
    }
    parsed.timestamp = ts;
    if tokens.len() >= 3 {
        parsed.site = site_token_chars(&tokens[2]);
    }
    if tokens.len() >= 4 {
        let lt = &tokens[3];
        if lt.len() == 2 && lt[0] == '-' {
            let c = lt[1];
            if c == 'E' || c == 'W' || c == 'I' || ('1' <= c && c <= '5') {
                parsed.level = Some(c);
            }
        }
    }
    parsed
}

// ---------------------------------------------------------------------------
// grouping

/// Number of trend buckets a windowed scan spreads each group's hits over.
pub const TREND_BUCKETS: usize = 40;

/// Error lines aggregated by the source site that emitted them.
#[derive(Debug)]
pub struct ErrorGroup {
    /// Short log name(s) the group was seen in (e.g. "agent").
    pub log: String,
    /// `<file>(<line>)` source site, or "(unrecognized format)".
    pub site: String,
    pub count: usize,
    /// First/last UTC timestamps seen, as `MM-DD HH:MM:SS` strings.
    pub first_seen: Option<String>,
    pub last_seen: Option<String>,
    /// The Unix timestamp of `last_seen`, with its inferred year; groups are
    /// ordered by it.
    pub last_seen_secs: Option<i64>,
    /// Most recent matching line, whitespace-trimmed.
    pub sample: String,
    /// Hits per time bucket across the scan window ([`TREND_BUCKETS`] cells,
    /// oldest first). Empty when the scan had no window (whole logs).
    pub buckets: Vec<u32>,
}

/// The contents of an `ErrorGroup`.
pub struct GroupView {
    pub log: Seq<char>,
    pub site: Seq<char>,
    pub count: nat,
    pub first_seen: Option<Seq<char>>,
    pub last_seen: Option<Seq<char>>,
    pub last_seen_secs: Option<i64>,
    pub sample: Seq<char>,
    pub buckets: Seq<u32>,
}

/// The view of an optional string.
pub open spec fn opt_view(o: Option<String>) -> Option<Seq<char>> {
    match o {
        Some(s) => Some(s@),
        None => None,
    }
}

impl View for ErrorGroup {
    type V = GroupView;

    open spec fn view(&self) -> GroupView {
        GroupView {
            log: self.log@,
            site: self.site@,
            count: self.count as nat,
            first_seen: opt_view(self.first_seen),
            last_seen: opt_view(self.last_seen),
            last_seen_secs: self.last_seen_secs,
            sample: self.sample@,
            buckets: self.buckets@,
        }
    }
}

/// The site a line is grouped under.
pub open spec fn unrecognized_site() -> Seq<char> {
    "(unrecognized format)"@
}

/// The group key site of a line: its parsed site, or the unrecognized marker.
pub open spec fn site_key(line: Seq<char>, now_year: i32, now_secs: i64) -> Seq<char> {
    match line_stamp(line, now_year, now_secs) {
        Some(_) => match line_site(line) {
            Some(s) => s,
            None => unrecognized_site(),
        },
        None => unrecognized_site(),
    }
}

/// The line's timestamp as `MM-DD HH:MM:SS`, when it has one.
pub open spec fn seen_text(line: Seq<char>, now_year: i32, now_secs: i64) -> Option<Seq<char>> {
    match line_stamp(line, now_year, now_secs) {
        Some(f) => Some(short_text_spec(f.1, f.2, f.3, f.4, f.5)),
        None => None,
    }
}

/// The line's timestamp in Unix seconds, when it has one.
pub open spec fn seen_secs(line: Seq<char>, now_year: i32, now_secs: i64) -> Option<i64> {
    match line_stamp(line, now_year, now_secs) {
        Some(f) => Some(utc_seconds(f.0, f.1, f.2, f.3, f.4, f.5)),
        None => None,
    }
}

/// The trend bucket a line's timestamp falls in: its offset into the window
/// scaled to `TREND_BUCKETS` cells (the product saturating at `usize::MAX`),
/// the last cell at most; none for lines outside the window or unstamped.
pub open spec fn bucket_of(window: Option<(i64, i64)>, line: Seq<char>, now_year: i32, now_secs: i64) -> Option<int> {
    match window {
        None => None,
        Some((start, total)) => match line_stamp(line, now_year, now_secs) {
            None => None,
            Some(f) => {
                let off = utc_seconds(f.0, f.1, f.2, f.3, f.4, f.5) - start;
                if 0 <= off < total {
                    let prod = if off * 40 > usize::MAX as int {
                        usize::MAX as int
                    } else {
                        off * 40
                    };
                    let b = prod / (total as int);
                    Some(if b > 39 {
                        39
                    } else {
                        b
                    })
                } else {
                    None
                }
            },
        },
    }
}

/// Index of the group with key `(log, site)`, or -1.
pub open spec fn group_index(gs: Seq<GroupView>, log: Seq<char>, site: Seq<char>) -> int
    decreases gs.len(),
{
    if gs.len() == 0 {
        -1
    } else if gs.last().log == log && gs.last().site == site {
        gs.len() - 1
    } else {
        group_index(gs.drop_last(), log, site)
    }
}

/// A group after one more matching line.
pub open spec fn bump(
    g: GroupView,
    ts: Option<Seq<char>>,
    secs: Option<i64>,
    b: Option<int>,
    sample: Seq<char>,
) -> GroupView {
    GroupView {
        log: g.log,
        site: g.site,
        count: g.count + 1,
        first_seen: if g.first_seen is None {
            ts
        } else {
            g.first_seen
        },
        last_seen: if ts is Some {
            ts
        } else {
            g.last_seen
        },
        last_seen_secs: if secs is Some {
            secs
        } else {
            g.last_seen_secs
        },
        sample: sample,
        buckets: match b {
            Some(i) => g.buckets.update(i, (g.buckets[i] + 1) as u32),
            None => g.buckets,
        },
    }
}

/// A group before its first line.
pub open spec fn fresh_group(log: Seq<char>, site: Seq<char>, ts: Option<Seq<char>>, windowed: bool) -> GroupView {
    GroupView {
        log: log,
        site: site,
        count: 0,
        first_seen: ts,
        last_seen: None,
        last_seen_secs: None,
        sample: Seq::<char>::empty(),
        buckets: if windowed {
            Seq::new(40, |i: int| 0u32)
        } else {
            Seq::<u32>::empty()
        },
    }
}

/// The groups after adding `line` from log `log`.
pub open spec fn added(
    gs: Seq<GroupView>,
    window: Option<(i64, i64)>,
    log: Seq<char>,
    line: Seq<char>,
    now_year: i32,
    now_secs: i64,
) -> Seq<GroupView> {
    let site = site_key(line, now_year, now_secs);
    let ts = seen_text(line, now_year, now_secs);
    let secs = seen_secs(line, now_year, now_secs);
    let b = bucket_of(window, line, now_year, now_secs);
    let i = group_index(gs, log, site);
    if i >= 0 {
        gs.update(i, bump(gs[i], ts, secs, b, trim(line)))
    } else {
        gs.push(bump(fresh_group(log, site, ts, window is Some), ts, secs, b, trim(line)))
    }
}

/// Sum of the group counts.
pub open spec fn total_of(gs: Seq<GroupView>) -> nat
    decreases gs.len(),
{
    if gs.len() == 0 {
        0
    } else {
        total_of(gs.drop_last()) + gs.last().count
    }
}

/// One `ErrorGrouper::add`: the log name, the line, and the year and Unix
/// seconds of `now`.
pub type AddCall = (Seq<char>, Seq<char>, i32, i64);

/// The key a call groups its line under.
#[verifier::opaque]
pub open spec fn call_key(c: AddCall) -> (Seq<char>, Seq<char>) {
    (c.0, site_key(c.1, c.2, c.3))
}

/// A group's key.
pub open spec fn group_key(g: GroupView) -> (Seq<char>, Seq<char>) {
    (g.log, g.site)
}

/// The groups after a sequence of adds.
pub open spec fn added_all(gs: Seq<GroupView>, window: Option<(i64, i64)>, calls: Seq<AddCall>) -> Seq<
    GroupView,
>
    decreases calls.len(),
{
    if calls.len() == 0 {
        gs
    } else {
        let c = calls.last();
        added(added_all(gs, window, calls.drop_last()), window, c.0, c.1, c.2, c.3)
    }
}

/// Some group has the key `key`.
pub open spec fn has_group(gs: Seq<GroupView>, key: (Seq<char>, Seq<char>)) -> bool {
    exists|i: int| 0 <= i < gs.len() && #[trigger] group_key(gs[i]) == key
}

/// What grouping a sequence of lines gives, from no groups.
#[verifier::opaque]
pub open spec fn grouping_ok(gs: Seq<GroupView>, calls: Seq<AddCall>) -> bool {
    &&& forall|i: int, j: int|
        0 <= i < j < gs.len() ==> group_key(#[trigger] gs[i]) != group_key(#[trigger] gs[j])
    &&& forall|i: int| 0 <= i < gs.len() ==> (#[trigger] gs[i]).count >= 1
    &&& total_of(gs) == calls.len()
    &&& forall|k: int| 0 <= k < calls.len() ==> has_group(gs, call_key(#[trigger] calls[k]))
    &&& forall|i: int|
        0 <= i < gs.len() ==> exists|k: int|
            0 <= k < calls.len() && call_key(calls[k]) == group_key(#[trigger] gs[i]) && gs[i].sample
                == trim(calls[k].1) && forall|m: int|
                k < m < calls.len() ==> call_key(#[trigger] calls[m]) != group_key(gs[i])
}

#[verifier::rlimit(100)]
proof fn lemma_step_update(gs: Seq<GroupView>, calls: Seq<AddCall>, c: AddCall, i: int, ng: GroupView)
    requires
        grouping_ok(gs, calls),
        0 <= i < gs.len(),
        group_key(gs[i]) == call_key(c),
        group_key(ng) == call_key(c),
        ng.count == gs[i].count + 1,
        ng.sample == trim(c.1),
    ensures
        grouping_ok(gs.update(i, ng), calls.push(c)),
{
    reveal(grouping_ok);
    let calls2 = calls.push(c);
    let n = calls.len() as int;
    let g2 = gs.update(i, ng);
    assert(calls2[n] == c);
    lemma_total_update(gs, i, ng);
    assert forall|x: int, y: int| 0 <= x < y < g2.len() implies group_key(#[trigger] g2[x])
        != group_key(#[trigger] g2[y]) by {
        assert(group_key(g2[x]) == group_key(gs[x]));
        assert(group_key(g2[y]) == group_key(gs[y]));
    }
    assert forall|x: int| 0 <= x < g2.len() implies (#[trigger] g2[x]).count >= 1 by {
        assert(gs[x].count >= 1);
    }
    assert forall|k: int| 0 <= k < calls2.len() implies has_group(g2, call_key(#[trigger] calls2[k])) by {
        if k < n {
            assert(calls2[k] == calls[k]);
            assert(has_group(gs, call_key(calls[k])));
            let x = choose|x: int| 0 <= x < gs.len() && #[trigger] group_key(gs[x]) == call_key(calls[k]);
            if x == i {
                assert(group_key(g2[x]) == group_key(ng));
            } else {
                assert(g2[x] == gs[x]);
            }
            assert(group_key(g2[x]) == call_key(calls2[k]));
        } else {
            assert(group_key(g2[i]) == call_key(c));
        }
    }
    assert forall|x: int| 0 <= x < g2.len() implies exists|k: int|
        0 <= k < calls2.len() && call_key(calls2[k]) == group_key(#[trigger] g2[x]) && g2[x].sample
            == trim(calls2[k].1) && forall|m: int|
            k < m < calls2.len() ==> call_key(#[trigger] calls2[m]) != group_key(g2[x]) by {
        if x == i {
            assert(call_key(calls2[n]) == group_key(g2[x]));
            assert(g2[x].sample == trim(calls2[n].1));
        } else {
            assert(g2[x] == gs[x]);
            let k = choose|k: int|
                0 <= k < calls.len() && call_key(calls[k]) == group_key(gs[x]) && gs[x].sample == trim(
                    calls[k].1,
                ) && forall|m: int| k < m < calls.len() ==> call_key(#[trigger] calls[m]) != group_key(gs[x]);
            if x < i {
                assert(group_key(gs[x]) != group_key(gs[i]));
            } else {
                assert(group_key(gs[i]) != group_key(gs[x]));
            }
            assert(calls2[k] == calls[k]);
            assert forall|m: int| k < m < calls2.len() implies call_key(#[trigger] calls2[m])
                != group_key(g2[x]) by {
                if m < n {
                    assert(calls2[m] == calls[m]);
                }
            }
        }
    }
}

proof fn lemma_step_push(gs: Seq<GroupView>, calls: Seq<AddCall>, c: AddCall, ng: GroupView)
    requires
        grouping_ok(gs, calls),
        forall|x: int| 0 <= x < gs.len() ==> group_key(#[trigger] gs[x]) != call_key(c),
        group_key(ng) == call_key(c),
        ng.count == 1,
        ng.sample == trim(c.1),
    ensures
        grouping_ok(gs.push(ng), calls.push(c)),
{
    reveal(grouping_ok);
    let calls2 = calls.push(c);
    let n = calls.len() as int;
    let g2 = gs.push(ng);
    assert(calls2[n] == c);
    assert(g2.drop_last() =~= gs);
    assert(g2.last() == ng);
    assert forall|x: int, y: int| 0 <= x < y < g2.len() implies group_key(#[trigger] g2[x])
        != group_key(#[trigger] g2[y]) by {
        assert(g2[x] == gs[x]);
        if y < gs.len() {
            assert(g2[y] == gs[y]);
        }
    }
    assert forall|x: int| 0 <= x < g2.len() implies (#[trigger] g2[x]).count >= 1 by {
        if x < gs.len() {
            assert(g2[x] == gs[x]);
        }
    }
    assert forall|k: int| 0 <= k < calls2.len() implies has_group(g2, call_key(#[trigger] calls2[k])) by {
        if k < n {
            assert(calls2[k] == calls[k]);
            assert(has_group(gs, call_key(calls[k])));
            let x = choose|x: int| 0 <= x < gs.len() && #[trigger] group_key(gs[x]) == call_key(calls[k]);
            assert(g2[x] == gs[x]);
            assert(group_key(g2[x]) == call_key(calls2[k]));
        } else {
            assert(group_key(g2[gs.len() as int]) == call_key(c));
        }
    }
    assert forall|x: int| 0 <= x < g2.len() implies exists|k: int|
        0 <= k < calls2.len() && call_key(calls2[k]) == group_key(#[trigger] g2[x]) && g2[x].sample
            == trim(calls2[k].1) && forall|m: int|
            k < m < calls2.len() ==> call_key(#[trigger] calls2[m]) != group_key(g2[x]) by {
        if x == gs.len() {
            assert(call_key(calls2[n]) == group_key(g2[x]));
        } else {
            assert(g2[x] == gs[x]);
            let k = choose|k: int|
                0 <= k < calls.len() && call_key(calls[k]) == group_key(gs[x]) && gs[x].sample == trim(
                    calls[k].1,
                ) && forall|m: int| k < m < calls.len() ==> call_key(#[trigger] calls[m]) != group_key(gs[x]);
            assert(calls2[k] == calls[k]);
            assert forall|m: int| k < m < calls2.len() implies call_key(#[trigger] calls2[m])
                != group_key(g2[x]) by {
                if m < n {
                    assert(calls2[m] == calls[m]);
                }
            }
        }
    }
}

/// `group_index` is -1 or an index.
proof fn lemma_group_index_range(gs: Seq<GroupView>, log: Seq<char>, site: Seq<char>)
    ensures
        -1 <= group_index(gs, log, site) < gs.len(),
    decreases gs.len(),
{
    if gs.len() > 0 {
        lemma_group_index_range(gs.drop_last(), log, site);
    }
}

proof fn lemma_added_step(gs: Seq<GroupView>, window: Option<(i64, i64)>, calls: Seq<AddCall>, c: AddCall)
    requires
        grouping_ok(gs, calls),
    ensures
        grouping_ok(added(gs, window, c.0, c.1, c.2, c.3), calls.push(c)),
{
    let site = site_key(c.1, c.2, c.3);
    let ts = seen_text(c.1, c.2, c.3);
    let secs = seen_secs(c.1, c.2, c.3);
    let b = bucket_of(window, c.1, c.2, c.3);
    let i = group_index(gs, c.0, site);
    lemma_group_index_absent(gs, c.0, site);
    lemma_group_index_range(gs, c.0, site);
    reveal(call_key);
    if i >= 0 {
        let ng = bump(gs[i], ts, secs, b, trim(c.1));
        lemma_step_update(gs, calls, c, i, ng);
    } else {
        let ng = bump(fresh_group(c.0, site, ts, window is Some), ts, secs, b, trim(c.1));
        assert(call_key(c) == (c.0, site));
        assert forall|x: int| 0 <= x < gs.len() implies group_key(#[trigger] gs[x]) != call_key(c) by {
            assert(!(gs[x].log == c.0 && gs[x].site == site));
        }
        lemma_step_push(gs, calls, c, ng);
    }
}

/// Grouping a sequence of lines from no groups gives exactly one group per
/// distinct `(log, site)` key among them, each with at least one line; the
/// counts add up to the number of lines; and each group's sample is the
/// trimmed last line with its key.
pub proof fn lemma_grouping(window: Option<(i64, i64)>, calls: Seq<AddCall>)
    ensures
        grouping_ok(added_all(Seq::empty(), window, calls), calls),
    decreases calls.len(),
{
    if calls.len() == 0 {
        reveal(grouping_ok);
        assert(total_of(Seq::<GroupView>::empty()) == 0);
    } else {
        lemma_grouping(window, calls.drop_last());
        lemma_added_step(added_all(Seq::empty(), window, calls.drop_last()), window, calls.drop_last(), calls.last());
        assert(calls.drop_last().push(calls.last()) =~= calls);
    }
}

/// Streaming accumulator: feed every error line, get groups sorted by
/// recency (most recently seen site first), ties broken by count.
pub struct ErrorGrouper {
    groups: Vec<ErrorGroup>,
    /// `(window start, window length in seconds)` for trend bucketing.
    window: Option<(i64, i64)>,
}

impl ErrorGrouper {
    /// The groups, in the order they were first seen.
    pub closed spec fn groups_view(&self) -> Seq<GroupView> {
        self.groups@.map_values(|g: ErrorGroup| g@)
    }

    /// `(start, length)` of the trend window, in Unix seconds.
    pub closed spec fn window_view(&self) -> Option<(i64, i64)> {
        self.window
    }

    /// Lines added so far.
    pub open spec fn total_spec(&self) -> nat {
        total_of(self.groups_view())
    }

    /// Keys are unique, every group has a line, bucket vectors are sized for
    /// the window, no cell exceeds its group's count, and counts stay below
    /// `u32::MAX`.
    pub closed spec fn wf(&self) -> bool {
        let gs = self.groups_view();
        &&& forall|i: int, j: int|
            0 <= i < j < gs.len() ==> !(gs[i].log == gs[j].log && gs[i].site == gs[j].site)
        &&& forall|i: int|
            0 <= i < gs.len() ==> (#[trigger] gs[i]).buckets.len() == (if self.window is Some {
                40int
            } else {
                0int
            })
        &&& forall|i: int| 0 <= i < gs.len() ==> (#[trigger] gs[i]).count >= 1
        &&& forall|i: int, k: int|
            0 <= i < gs.len() && 0 <= k < gs[i].buckets.len() ==> gs[i].buckets[k] <= gs[i].count
        &&& total_of(gs) <= u32::MAX
        &&& match self.window {
            Some((st, t)) => t >= 1 && EARLIEST_UTC_SECONDS <= st <= LATEST_UTC_SECONDS,
            None => true,
        }
    }

    /// A well-formed grouper holds one group per `(log, site)` key, each
    /// with at least one line, and its total is the sum of the counts.
    pub proof fn lemma_groups_shape(&self)
        requires
            self.wf(),
        ensures
            forall|i: int, j: int|
                0 <= i < j < self.groups_view().len() ==> !(self.groups_view()[i].log
                    == self.groups_view()[j].log && self.groups_view()[i].site
                    == self.groups_view()[j].site),
            forall|i: int|
                0 <= i < self.groups_view().len() ==> (#[trigger] self.groups_view()[i]).count >= 1,
            self.total_spec() == total_of(self.groups_view()),
    {
    }

    /// An empty grouper without trend buckets.
    pub fn new() -> (r: Self)
        ensures
            r.wf(),
            r.groups_view() == Seq::<GroupView>::empty(),
            r.window_view() is None,
    {
        let r = ErrorGrouper { groups: Vec::new(), window: None };
        assert(r.groups_view() =~= Seq::<GroupView>::empty());
        r
    }

    /// A grouper that also builds per-group trend buckets over
    /// `[now - duration, now]`.
    pub fn with_window(now: &UtcStamp, duration_secs: i64) -> (r: Self)
        requires
            now.wf(),
            EARLIEST_UTC_SECONDS <= now.spec_secs() - duration_secs <= LATEST_UTC_SECONDS,
        ensures
            r.wf(),
            r.groups_view() == Seq::<GroupView>::empty(),
            r.window_view() == Some(
                (
                    (now.spec_secs() - duration_secs) as i64,
                    if duration_secs > 1 {
                        duration_secs
                    } else {
                        1i64
                    },
                ),
            ),
    {
        proof {
            now.lemma_wf();
        }
        let total = if duration_secs > 1 {
            duration_secs
        } else {
            1
        };
        let r = ErrorGrouper { groups: Vec::new(), window: Some((now.seconds() - duration_secs, total)) };
        assert(r.groups_view() =~= Seq::<GroupView>::empty());
        r
    }

    /// Index of the group keyed `(log, site)`.
    fn find_group(&self, log: &[char], site: &[char]) -> (r: Option<usize>)
        ensures
            match r {
                Some(i) => i == group_index(self.groups_view(), log@, site@) && i < self.groups@.len(),
                None => group_index(self.groups_view(), log@, site@) == -1,
            },
    {
        let ghost gs = self.groups_view();
        let mut i = self.groups.len();
        assert(gs.take(i as int) =~= gs);
        while i > 0
            invariant
                gs == self.groups_view(),
                gs.len() == self.groups@.len(),
                i <= gs.len(),
                group_index(gs, log@, site@) == group_index(gs.take(i as int), log@, site@),
            decreases i,
        {
            let g = &self.groups[i - 1];
            assert(gs.take(i as int).last() == g@);
            assert(gs.take(i as int).drop_last() =~= gs.take(i - 1));
            let l = chars_of(g.log.as_str());
            let st = chars_of(g.site.as_str());
            if seq_eq(&l, log) && seq_eq(&st, site) {
                return Some(i - 1);
            }
            i -= 1;
        }
        None
    }

    /// Count `line` (from the log named `log_name`) under its source site.
    pub fn add(&mut self, log_name: &str, line: &str, now: &UtcStamp)
        requires
            old(self).wf(),
            now.wf(),
            old(self).total_spec() < u32::MAX,
        ensures
            final(self).wf(),
            final(self).window_view() == old(self).window_view(),
            final(self).groups_view() == added(
                old(self).groups_view(),
                old(self).window_view(),
                log_name@,
                line@,
                now.fields().0,
                now.spec_secs(),
            ),
            final(self).total_spec() == old(self).total_spec() + 1,
    {
        let ghost gs = self.groups_view();
        let ghost ny = now.fields().0;
        let ghost ns = now.spec_secs();
        let v = chars_of(line);
        let parsed = parse_line_chars(&v, now);
        let site = match parsed.site {
            Some(s) => s,
            None => String::from_str("(unrecognized format)"),
        };
        assert(site@ == site_key(line@, ny, ns));
        let ts = match &parsed.timestamp {
            Some(st) => Some(st.short_text()),
            None => None,
        };
        assert(opt_view(ts) == seen_text(line@, ny, ns));
        let secs: Option<i64> = match &parsed.timestamp {
            Some(st) => Some(st.seconds()),
            None => None,
        };
        proof {
            if let Some(st) = parsed.timestamp {
                st.lemma_wf();
            }
        }
        assert(secs == seen_secs(line@, ny, ns));
        let bucket: Option<usize> = match (self.window, &parsed.timestamp) {
            (Some((start, total)), Some(st)) => {
                proof {
                    st.lemma_wf();
                }
                let off = st.seconds() - start;
                if 0 <= off && off < total {
                    let prod: u128 = (off as u128) * 40;
                    let sat: u128 = if prod > usize::MAX as u128 {
                        usize::MAX as u128
                    } else {
                        prod
                    };
                    let b = sat / (total as u128);
                    Some(
                        if b > 39 {
                            39
                        } else {
                            b as usize
                        },
                    )
                } else {
                    None
                }
            },
            _ => None,
        };
        assert(match bucket {
            Some(b) => bucket_of(self.window, line@, ny, ns) == Some(b as int),
            None => bucket_of(self.window, line@, ny, ns) is None,
        });
        let windowed = self.window.is_some();
        let log_chars = chars_of(log_name);
        let site_chars = chars_of(site.as_str());
        let sample = string_of(&trim_chars(&v));
        let ghost b_spec = bucket_of(self.window, line@, ny, ns);
        let ghost ts_spec = opt_view(ts);
        match self.find_group(&log_chars, &site_chars) {
            Some(i) => {
                let mut g = self.groups.remove(i);
                proof {
                    assert(g@ == gs[i as int]);
                    assert(g.count <= total_of(gs)) by {
                        lemma_count_le_total(gs, i as int);
                    }
                }
                g.count = g.count + 1;
                if g.first_seen.is_none() {
                    g.first_seen = ts.clone();
                }
                if ts.is_some() {
                    g.last_seen = ts;
                }
                if secs.is_some() {
                    g.last_seen_secs = secs;
                }
                if let Some(b) = bucket {
                    let cell = g.buckets[b];
                    g.buckets.set(b, cell + 1);
                }
                g.sample = sample;
                let ghost newg = g@;
                self.groups.insert(i, g);
                proof {
                    assert(newg == bump(gs[i as int], ts_spec, secs, b_spec, trim(line@)));
                    assert(self.groups_view() =~= gs.update(i as int, newg));
                    lemma_total_update(gs, i as int, newg);
                    assert forall|a: int, c: int|
                        0 <= a < c < self.groups_view().len() implies !(
                        self.groups_view()[a].log == self.groups_view()[c].log
                            && self.groups_view()[a].site == self.groups_view()[c].site) by {
                        assert(gs[a].log == self.groups_view()[a].log);
                        assert(gs[a].site == self.groups_view()[a].site);
                        assert(gs[c].log == self.groups_view()[c].log);
                        assert(gs[c].site == self.groups_view()[c].site);
                    }
                }
            },
            None => {
                let mut g = ErrorGroup {
                    log: string_of(&log_chars),
                    site: site,
                    count: 1,
                    first_seen: ts.clone(),
                    last_seen: None,
                    last_seen_secs: secs,
                    sample: sample,
                    buckets: if windowed {
                        vec![0u32; 40]
                    } else {
                        Vec::new()
                    },
                };
                if ts.is_some() {
                    g.last_seen = ts;
                }
                if let Some(b) = bucket {
                    g.buckets.set(b, 1);
                }
                let ghost newg = g@;
                self.groups.push(g);
                proof {
                    let f = fresh_group(log_name@, site_key(line@, ny, ns), ts_spec, windowed);
                    if windowed {
                        assert(f.buckets =~= Seq::new(40, |k: int| 0u32));
                    }
                    assert(newg.buckets =~= bump(f, ts_spec, secs, b_spec, trim(line@)).buckets);
                    assert(newg == bump(f, ts_spec, secs, b_spec, trim(line@)));
                    assert(self.groups_view() =~= gs.push(newg));
                    assert(self.groups_view().drop_last() =~= gs);
                    lemma_group_index_absent(gs, log_name@, site_key(line@, ny, ns));
                }
            },
        }
    }

    /// Groups sorted most-recently-seen first (unstamped groups last),
    /// ties broken by count descending, then by site.
    pub fn into_sorted(self) -> (r: Vec<ErrorGroup>)
        ensures
            r@.map_values(|g: ErrorGroup| g@).to_multiset() == self.groups_view().to_multiset(),
            groups_sorted(r@.map_values(|g: ErrorGroup| g@)),
            forall|i: int, j: int|
                0 <= i < j < r@.len() && (#[trigger] r@[j]).last_seen_secs is Some ==> (
                #[trigger] r@[i]).last_seen_secs is Some,
            forall|i: int, j: int|
                0 <= i < j < r@.len() && (#[trigger] r@[i]).last_seen_secs is Some && (
                #[trigger] r@[j]).last_seen_secs is Some ==> r@[i].last_seen_secs->0
                    >= r@[j].last_seen_secs->0,
            forall|i: int, j: int|
                0 <= i < j < r@.len() && (#[trigger] r@[i]).last_seen_secs == (
                #[trigger] r@[j]).last_seen_secs ==> r@[i].count >= r@[j].count,
    {
        broadcast use vstd::seq_lib::group_to_multiset_ensures, vstd::multiset::group_multiset_axioms;

        let ghost all = self.groups_view();
        let mut rest = self.groups;
        let mut out: Vec<ErrorGroup> = Vec::new();
        proof {
            assert(rest@.map_values(|g: ErrorGroup| g@) == all);
            assert(out@.map_values(|g: ErrorGroup| g@) =~= Seq::<GroupView>::empty());
        }
        while rest.len() > 0
            invariant
                out@.map_values(|g: ErrorGroup| g@).to_multiset().add(
                    rest@.map_values(|g: ErrorGroup| g@).to_multiset(),
                ) == all.to_multiset(),
                groups_sorted(out@.map_values(|g: ErrorGroup| g@)),
            decreases rest.len(),
        {
            let ghost ov = out@.map_values(|g: ErrorGroup| g@);
            let ghost rv = rest@.map_values(|g: ErrorGroup| g@);
            let g = rest.pop().unwrap();
            proof {
                assert(rv =~= rest@.map_values(|g: ErrorGroup| g@).push(g@));
            }
            let pos = insert_position(&out, &g);
            proof {
                lemma_insert_sorted(ov, pos as int, g@);
            }
            out.insert(pos, g);
            proof {
                assert(out@.map_values(|g: ErrorGroup| g@) =~= ov.insert(pos as int, g@));
                let rv2 = rest@.map_values(|g: ErrorGroup| g@);
                vstd::seq_lib::to_multiset_build(rv2, g@);
                assert(rv == rv2.push(g@));
                assert(rv.to_multiset() == rv2.to_multiset().insert(g@));
                vstd::seq_lib::to_multiset_insert(ov, pos as int, g@);
                assert(ov.insert(pos as int, g@).to_multiset() == ov.to_multiset().insert(g@));
                assert(ov.to_multiset().insert(g@).add(rv2.to_multiset()) =~= ov.to_multiset().add(
                    rv2.to_multiset().insert(g@),
                ));
            }
        }
        proof {
            assert(rest@.map_values(|g: ErrorGroup| g@) =~= Seq::<GroupView>::empty());
            assert(Seq::<GroupView>::empty().to_multiset() =~= Multiset::<GroupView>::empty());
            assert(out@.map_values(|g: ErrorGroup| g@).to_multiset().add(Multiset::empty())
                =~= out@.map_values(|g: ErrorGroup| g@).to_multiset());
            let ov = out@.map_values(|g: ErrorGroup| g@);
            lemma_sorted_recency(ov);
            assert forall|i: int, j: int|
                0 <= i < j < out@.len() && (#[trigger] out@[j]).last_seen_secs is Some implies (
                #[trigger] out@[i]).last_seen_secs is Some by {
                assert(ov[i] == out@[i]@ && ov[j] == out@[j]@);
            }
            assert forall|i: int, j: int|
                0 <= i < j < out@.len() && (#[trigger] out@[i]).last_seen_secs is Some && (
                #[trigger] out@[j]).last_seen_secs is Some implies out@[i].last_seen_secs->0
                    >= out@[j].last_seen_secs->0 by {
                assert(ov[i] == out@[i]@ && ov[j] == out@[j]@);
            }
            assert forall|i: int, j: int|
                0 <= i < j < out@.len() && (#[trigger] out@[i]).last_seen_secs == (
                #[trigger] out@[j]).last_seen_secs implies out@[i].count >= out@[j].count by {
                assert(ov[i] == out@[i]@ && ov[j] == out@[j]@);
            }
        }
        out
    }

    /// Lines added so far.
    pub fn total(&self) -> (r: usize)
        requires
            self.wf(),
        ensures
            r == self.total_spec(),
    {
        let mut sum: usize = 0;
        let mut i: usize = 0;
        let ghost gs = self.groups_view();
        while i < self.groups.len()
            invariant
                gs == self.groups_view(),
                gs.len() == self.groups@.len(),
                i <= gs.len(),
                sum == total_of(gs.take(i as int)),
                total_of(gs) <= u32::MAX,
            decreases self.groups.len() - i,
        {
            proof {
                assert(gs.take(i + 1).drop_last() =~= gs.take(i as int));
                lemma_total_prefix(gs, i + 1);
                assert(gs[i as int] == self.groups@[i as int]@);
            }
            sum = sum + self.groups[i].count;
            i += 1;
        }
        assert(gs.take(gs.len() as int) =~= gs);
        sum
    }
}

/// Optional timestamps in order: `None` first, then by time.
pub open spec fn opt_secs_lt(a: Option<i64>, b: Option<i64>) -> bool {
    match (a, b) {
        (None, Some(_)) => true,
        (Some(x), Some(y)) => x < y,
        _ => false,
    }
}

/// `a` sorts strictly before `b`: seen more recently (by the full inferred
/// timestamp), else more hits, else the smaller site.
pub open spec fn group_before(a: GroupView, b: GroupView) -> bool {
    ||| opt_secs_lt(b.last_seen_secs, a.last_seen_secs)
    ||| (a.last_seen_secs == b.last_seen_secs && a.count > b.count)
    ||| (a.last_seen_secs == b.last_seen_secs && a.count == b.count && text_lt(a.site, b.site))
}

/// In a sorted sequence of groups the stamped groups come first, most
/// recently seen first, and the unstamped groups last.
pub proof fn lemma_sorted_recency(gs: Seq<GroupView>)
    requires
        groups_sorted(gs),
    ensures
        forall|i: int, j: int|
            0 <= i < j < gs.len() && (#[trigger] gs[j]).last_seen_secs is Some ==> (
            #[trigger] gs[i]).last_seen_secs is Some,
        forall|i: int, j: int|
            0 <= i < j < gs.len() && (#[trigger] gs[i]).last_seen_secs is Some && (
            #[trigger] gs[j]).last_seen_secs is Some ==> gs[i].last_seen_secs->0
                >= gs[j].last_seen_secs->0,
        forall|i: int, j: int|
            0 <= i < j < gs.len() && (#[trigger] gs[i]).last_seen_secs == (
            #[trigger] gs[j]).last_seen_secs ==> gs[i].count >= gs[j].count,
        forall|i: int, j: int|
            0 <= i < j < gs.len() && (#[trigger] gs[i]).last_seen_secs == (
            #[trigger] gs[j]).last_seen_secs && gs[i].count == gs[j].count ==> !text_lt(
                gs[j].site,
                gs[i].site,
            ),
{
    assert forall|i: int, j: int|
        0 <= i < j < gs.len() && (#[trigger] gs[j]).last_seen_secs is Some implies (
        #[trigger] gs[i]).last_seen_secs is Some by {
        assert(!group_before(gs[j], gs[i]));
    }
    assert forall|i: int, j: int|
        0 <= i < j < gs.len() && (#[trigger] gs[i]).last_seen_secs is Some && (
        #[trigger] gs[j]).last_seen_secs is Some implies gs[i].last_seen_secs->0
            >= gs[j].last_seen_secs->0 by {
        assert(!group_before(gs[j], gs[i]));
    }
    assert forall|i: int, j: int|
        0 <= i < j < gs.len() && (#[trigger] gs[i]).last_seen_secs == (
        #[trigger] gs[j]).last_seen_secs implies gs[i].count >= gs[j].count by {
        assert(!group_before(gs[j], gs[i]));
    }
    assert forall|i: int, j: int|
        0 <= i < j < gs.len() && (#[trigger] gs[i]).last_seen_secs == (
        #[trigger] gs[j]).last_seen_secs && gs[i].count == gs[j].count implies !text_lt(
            gs[j].site,
            gs[i].site,
        ) by {
        assert(!group_before(gs[j], gs[i]));
    }
}

/// No group sorts strictly before an earlier one.
pub open spec fn groups_sorted(gs: Seq<GroupView>) -> bool {
    forall|i: int, j: int| 0 <= i < j < gs.len() ==> !group_before(gs[j], gs[i])
}

/// `group_before` is a strict order.
proof fn lemma_before_irrefl(a: GroupView)
    ensures
        !group_before(a, a),
{
    lemma_text_lt_irrefl(a.site);
}

proof fn lemma_before_trans(a: GroupView, b: GroupView, c: GroupView)
    requires
        group_before(a, b),
        group_before(b, c),
    ensures
        group_before(a, c),
{
    if a.last_seen_secs == b.last_seen_secs && b.last_seen_secs == c.last_seen_secs && a.count == b.count && b.count
        == c.count && text_lt(a.site, b.site) && text_lt(b.site, c.site) {
        lemma_text_lt_trans(a.site, b.site, c.site);
    }
}

/// Inserting before the first element that `x` sorts before keeps the
/// sequence sorted.
proof fn lemma_insert_sorted(s: Seq<GroupView>, pos: int, x: GroupView)
    requires
        groups_sorted(s),
        0 <= pos <= s.len(),
        forall|k: int| 0 <= k < pos ==> !group_before(x, #[trigger] s[k]),
        pos < s.len() ==> group_before(x, s[pos]),
    ensures
        groups_sorted(s.insert(pos, x)),
{
    let t = s.insert(pos, x);
    assert forall|i: int, j: int| 0 <= i < j < t.len() implies !group_before(t[j], t[i]) by {
        if j == pos {
            assert(t[i] == s[i]);
        } else if i == pos {
            let k = j - 1;
            assert(t[j] == s[k]);
            if group_before(s[k], x) {
                if k == pos {
                    lemma_before_trans(x, s[pos], x);
                    lemma_before_irrefl(x);
                } else {
                    lemma_before_trans(s[k], x, s[pos]);
                }
            }
        } else {
            let si = if i < pos {
                i
            } else {
                i - 1
            };
            let sj = if j < pos {
                j
            } else {
                j - 1
            };
            assert(t[i] == s[si]);
            assert(t[j] == s[sj]);
        }
    }
}

fn opt_secs_less(a: Option<i64>, b: Option<i64>) -> (r: bool)
    ensures
        r == opt_secs_lt(a, b),
{
    match (a, b) {
        (None, Some(_)) => true,
        (Some(x), Some(y)) => x < y,
        _ => false,
    }
}

/// Executable `group_before`.
fn sorts_before(a: &ErrorGroup, b: &ErrorGroup) -> (r: bool)
    ensures
        r == group_before(a@, b@),
{
    if opt_secs_less(b.last_seen_secs, a.last_seen_secs) {
        return true;
    }
    if a.last_seen_secs != b.last_seen_secs {
        return false;
    }
    if a.count != b.count {
        return a.count > b.count;
    }
    text_less(&chars_of(a.site.as_str()), &chars_of(b.site.as_str()))
}

/// Where `x` goes in sorted `out`: before the first group it sorts before.
fn insert_position(out: &Vec<ErrorGroup>, x: &ErrorGroup) -> (pos: usize)
    ensures
        pos <= out@.len(),
        forall|k: int| 0 <= k < pos ==> !group_before(x@, #[trigger] out@[k]@),
        pos < out@.len() ==> group_before(x@, out@[pos as int]@),
{
    let mut k: usize = 0;
    while k < out.len()
        invariant
            k <= out@.len(),
            forall|m: int| 0 <= m < k ==> !group_before(x@, #[trigger] out@[m]@),
        decreases out.len() - k,
    {
        if sorts_before(x, &out[k]) {
            return k;
        }
        k += 1;
    }
    k
}

/// One group's count is at most the total.
proof fn lemma_count_le_total(gs: Seq<GroupView>, i: int)
    requires
        0 <= i < gs.len(),
    ensures
        gs[i].count <= total_of(gs),
    decreases gs.len(),
{
    if i < gs.len() - 1 {
        lemma_count_le_total(gs.drop_last(), i);
    }
}

/// With no group keyed `(log, site)`, no group has that key.
proof fn lemma_group_index_absent(gs: Seq<GroupView>, log: Seq<char>, site: Seq<char>)
    ensures
        group_index(gs, log, site) == -1 ==> forall|i: int|
            0 <= i < gs.len() ==> !(gs[i].log == log && gs[i].site == site),
        group_index(gs, log, site) >= 0 ==> group_index(gs, log, site) < gs.len()
            && gs[group_index(gs, log, site)].log == log && gs[group_index(gs, log, site)].site
            == site,
    decreases gs.len(),
{
    if gs.len() > 0 {
        lemma_group_index_absent(gs.drop_last(), log, site);
        if group_index(gs, log, site) == -1 {
            assert forall|i: int| 0 <= i < gs.len() implies !(gs[i].log == log && gs[i].site
                == site) by {
                if i < gs.len() - 1 {
                    assert(gs[i] == gs.drop_last()[i]);
                }
            }
        }
    }
}

/// A prefix's total is at most the whole total.
pub proof fn lemma_total_prefix(gs: Seq<GroupView>, k: int)
    requires
        0 <= k <= gs.len(),
    ensures
        total_of(gs.take(k)) <= total_of(gs),
    decreases gs.len() - k,
{
    if k < gs.len() {
        lemma_total_prefix(gs, k + 1);
        assert(gs.take(k + 1).drop_last() =~= gs.take(k));
    } else {
        assert(gs.take(k) =~= gs);
    }
}

/// Replacing one group changes the total by the change of its count.
pub proof fn lemma_total_update(gs: Seq<GroupView>, i: int, g: GroupView)
    requires
        0 <= i < gs.len(),
    ensures
        total_of(gs.update(i, g)) + gs[i].count == total_of(gs) + g.count,
    decreases gs.len(),
{
    let u = gs.update(i, g);
    if i == gs.len() - 1 {
        assert(u.drop_last() =~= gs.drop_last());
    } else {
        assert(u.drop_last() =~= gs.drop_last().update(i, g));
        lemma_total_update(gs.drop_last(), i, g);
    }
}

// ---------------------------------------------------------------------------
// --since windows

/// A `--since` window of `w` seconds back from `now` starts at a time chrono
/// can represent (the window's start is a chrono date-time, and chrono's
/// subtraction panics past its range).
pub open spec fn window_in_range(now_secs: i64, window: Option<i64>) -> bool {
    match window {
        None => true,
        Some(w) => EARLIEST_UTC_SECONDS <= now_secs - w <= LATEST_UTC_SECONDS,
    }
}

/// A line passes the window: always without one; with one, only a line
/// whose inferred timestamp is at or after `now - w`.
pub open spec fn in_window_spec(line: Seq<char>, now_year: i32, now_secs: i64, window: Option<i64>) -> bool {
    match window {
        None => true,
        Some(w) => match line_stamp(line, now_year, now_secs) {
            Some(f) => utc_seconds(f.0, f.1, f.2, f.3, f.4, f.5) >= now_secs - w,
            None => false,
        },
    }
}

/// Whether the window of `w` seconds back from `now` can be taken at all.
pub fn window_fits(now: &UtcStamp, window: Option<i64>) -> (r: bool)
    requires
        now.wf(),
    ensures
        r == window_in_range(now.spec_secs(), window),
{
    match window {
        None => true,
        Some(w) => {
            let start: i128 = (now.seconds() as i128) - (w as i128);
            EARLIEST_UTC_SECONDS as i128 <= start && start <= LATEST_UTC_SECONDS as i128
        },
    }
}

/// Whether a line passes the `--since` window (seconds back from `now`):
/// lines without a timestamp only pass when there is no window.
pub fn in_window(line: &str, now: &UtcStamp, window: Option<i64>) -> (r: bool)
    requires
        now.wf(),
        window_in_range(now.spec_secs(), window),
    ensures
        r == in_window_spec(line@, now.fields().0, now.spec_secs(), window),
{
    match window {
        None => true,
        Some(w) => {
            let cutoff = now.seconds() - w;
            match parse_line(line, now).timestamp {
                Some(ts) => {
                    proof {
                        ts.lemma_wf();
                    }
                    ts.seconds() >= cutoff
                },
                None => false,
            }
        },
    }
}

/// One line of an error scan: `g` counts the line from log `log` exactly
/// when it is an error line inside the window, and is unchanged otherwise.
pub fn scan_line(g: &mut ErrorGrouper, log: &str, line: &str, now: &UtcStamp, window: Option<i64>)
    requires
        old(g).wf(),
        now.wf(),
        window_in_range(now.spec_secs(), window),
        old(g).total_spec() < u32::MAX,
    ensures
        final(g).wf(),
        final(g).window_view() == old(g).window_view(),
        final(g).groups_view() == (if is_error_line_spec(line@) && in_window_spec(
            line@,
            now.fields().0,
            now.spec_secs(),
            window,
        ) {
            added(old(g).groups_view(), old(g).window_view(), log@, line@, now.fields().0, now.spec_secs())
        } else {
            old(g).groups_view()
        }),
        final(g).total_spec() == old(g).total_spec() + (if is_error_line_spec(line@) && in_window_spec(
            line@,
            now.fields().0,
            now.spec_secs(),
            window,
        ) {
            1int
        } else {
            0int
        }),
{
    if is_error_line(line) && in_window(line, now, window) {
        g.add(log, line, now);
    }
}

/// Seconds per unit suffix `s`, `m`, `h`, `d`; 0 for any other character.
pub open spec fn unit_seconds(c: char) -> int {
    if c == 's' {
        1
    } else if c == 'm' {
        60
    } else if c == 'h' {
        3600
    } else if c == 'd' {
        86400
    } else {
        0
    }
}

/// The longest `chrono::Duration` in whole seconds (`i64::MAX` milliseconds).
pub open spec fn max_duration_secs() -> int {
    9223372036854775
}

/// `parse_since` in seconds: a non-negative integer and one unit suffix.
pub open spec fn parse_since_spec(s: Seq<char>) -> Option<int> {
    let t = trim(s);
    if t.len() == 0 {
        None
    } else {
        match parse_i64_spec(t.drop_last()) {
            Some(n) => if n < 0 || unit_seconds(t.last()) == 0 {
                None
            } else {
                Some(n * unit_seconds(t.last()))
            },
            None => None,
        }
    }
}

/// A window written as a count and a unit parses to that many seconds,
/// minutes, hours or days; any other unit letter is refused.
pub proof fn lemma_since_units(n: nat, u: char)
    requires
        n <= i64::MAX,
    ensures
        parse_since_spec(decimal(n).push('s')) == Some(n as int),
        parse_since_spec(decimal(n).push('m')) == Some(60 * (n as int)),
        parse_since_spec(decimal(n).push('h')) == Some(3600 * (n as int)),
        parse_since_spec(decimal(n).push('d')) == Some(86400 * (n as int)),
        u != 's' && u != 'm' && u != 'h' && u != 'd' ==> parse_since_spec(decimal(n).push(u)) is None,
{
    lemma_decimal(n);
    crate::num::lemma_parse_decimal_int(n as int);
    let d = decimal(n);
    assert forall|c: char| !crate::text::is_ws(c) implies trim(#[trigger] d.push(c)) == d.push(c) by {
        assert(d.push(c)[0] == d[0]);
        assert(crate::num::is_digit(d[0]));
        assert(d.push(c).last() == c);
        crate::trace::lemma_trim_identity(d.push(c));
    }
    assert(d.push('s').drop_last() =~= d);
    assert(d.push('m').drop_last() =~= d);
    assert(d.push('h').drop_last() =~= d);
    assert(d.push('d').drop_last() =~= d);
    if u != 's' && u != 'm' && u != 'h' && u != 'd' {
        let t = trim(d.push(u));
        if t.len() > 0 {
            if crate::text::is_ws(u) {
                // a trailing space is trimmed off: the last character is then a digit
                crate::trace::lemma_trim_push_ws(d, u);
                crate::trace::lemma_trim_identity(d);
                assert(t == d);
                assert(crate::num::is_digit(d.last()));
            } else {
                assert(d.push(u).drop_last() =~= d);
            }
        }
    }
}

/// Windows that cannot be taken at all: a duration too long for a
/// `chrono::Duration`.
pub open spec fn since_panics(s: Seq<char>) -> bool {
    match parse_since_spec(s) {
        Some(v) => v > max_duration_secs(),
        None => false,
    }
}

/// Whether `parse_since` accepts `s` as input at all (see `since_panics`).
pub fn since_accepted(s: &str) -> (r: bool)
    ensures
        r == !since_panics(s@),
{
    match since_checked(s) {
        Some(_) => false,
        None => true,
    }
}

/// `Some(())` exactly when `since_panics(s@)`; otherwise the parse result.
fn since_checked(s: &str) -> (r: Option<()>)
    ensures
        r is Some <==> since_panics(s@),
{
    let v = chars_of(s);
    let (a, b) = trim_bounds(&v, 0, v.len());
    assert(v@.subrange(0, v@.len() as int) =~= v@);
    if a == b {
        return None;
    }
    match parse_since_chars(&v, a, b) {
        Some(secs) => if secs > 9223372036854775 {
            Some(())
        } else {
            None
        },
        None => None,
    }
}

/// `parse_since_spec` on the trimmed `v[a..b]`, without the duration bound.
fn parse_since_chars(v: &[char], a: usize, b: usize) -> (r: Option<i128>)
    requires
        a < b <= v@.len(),
        v@.subrange(a as int, b as int) == trim(v@),
    ensures
        match parse_since_spec(v@) {
            Some(x) => r == Some(x as i128),
            None => r is None,
        },
{
    let ghost t = trim(v@);
    assert(t.last() == v@[b - 1]);
    assert(t.drop_last() =~= v@.subrange(a as int, b - 1));
    let n = match parse_i64_range(v, a, b - 1) {
        Some(n) => n,
        None => return None,
    };
    if n < 0 {
        return None;
    }
    let unit = v[b - 1];
    let mult: i128 = if unit == 's' {
        1
    } else if unit == 'm' {
        60
    } else if unit == 'h' {
        3600
    } else if unit == 'd' {
        86400
    } else {
        return None;
    };
    Some((n as i128) * mult)
}

/// Parse a duration like `90s`, `30m`, `24h`, `7d` for `--since` filters,
/// in seconds.
pub fn parse_since(s: &str) -> (r: Option<i64>)
    requires
        !since_panics(s@),
    ensures
        match parse_since_spec(s@) {
            Some(x) => r == Some(x as i64),
            None => r is None,
        },
{
    let v = chars_of(s);
    let (a, b) = trim_bounds(&v, 0, v.len());
    assert(v@.subrange(0, v@.len() as int) =~= v@);
    if a == b {
        return None;
    }
    match parse_since_chars(&v, a, b) {
        Some(x) => Some(x as i64),
        None => None,
    }
}

} // verus!
