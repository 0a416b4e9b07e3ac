//! Request handling of the web dashboard that does not touch the network or
//! the disk: query parameters, download targets, and which lines of a log
//! tail a poll returns.

use vstd::prelude::*;
use vstd::utf8::{decode_utf8, encode_utf8, valid_utf8};
use crate::num::{parse_unsigned, parse_unsigned_range, parse_i64_range, parse_i64_spec};
use crate::paths::{
    all_logs, base_dir_spec, config_path, database_path, find_log, join, profile_path, KnownLog,
    LogView, Platform,
};
use crate::text::{chars_of, find_char, index_of, lines, push_str, seq_eq, split_lines, string_of,
    string_of_range};
use crate::triage::{is_error_chars, is_error_line_spec};

verus! {

/// Where the dashboard listens.
#[derive(Debug)]
pub struct ServeOptions {
    pub bind: String,
    pub port: u16,
}

/// Per-request read cap on a log tail; agent logs can be hundreds of MB.
pub const TAIL_READ_CAP: u64 = 1048576;
/// Most lines one tail request returns.
pub const MAX_TAIL_LINES: usize = 2000;

// ---------------------------------------------------------------------------
// text from bytes

/// What `String::from_utf8_lossy` makes of `bytes`: the decoded text, with
/// each invalid sequence replaced by U+FFFD.
pub uninterp spec fn lossy_text(bytes: Seq<u8>) -> Seq<char>;

/// `String::from_utf8_lossy(bytes).into_owned()`. std documents that valid
/// UTF-8 comes back unchanged; what an invalid sequence becomes is not
/// stated here.
#[verifier::external_body]
pub(crate) fn utf8_lossy(bytes: &[u8]) -> (r: String)
    ensures
        r@ == lossy_text(bytes@),
        valid_utf8(bytes@) ==> r@ == decode_utf8(bytes@),
{
    String::from_utf8_lossy(bytes).into_owned()
}

// ---------------------------------------------------------------------------
// percent decoding

/// An ASCII hex digit.
pub open spec fn is_hex_byte(b: u8) -> bool {
    (48 <= b <= 57) || (65 <= b <= 70) || (97 <= b <= 102)
}

/// The value of a hex digit.
pub open spec fn hex_val(b: u8) -> nat {
    if 48 <= b <= 57 {
        (b - 48) as nat
    } else if 65 <= b <= 70 {
        (b - 55) as nat
    } else {
        (b - 87) as nat
    }
}

/// `%XX` escapes replaced by their byte; a `%` not followed by two hex
/// digits stays as it is.
pub open spec fn unescape(bs: Seq<u8>) -> Seq<u8>
    decreases bs.len(),
{
    if bs.len() == 0 {
        bs
    } else if bs[0] == 37 && 2 < bs.len() && is_hex_byte(bs[1]) && is_hex_byte(bs[2]) {
        seq![(hex_val(bs[1]) * 16 + hex_val(bs[2])) as u8] + unescape(bs.skip(3))
    } else {
        seq![bs[0]] + unescape(bs.drop_first())
    }
}

/// `percent_decode`: the unescaped bytes of `s`, read as UTF-8 (lossily).
pub open spec fn percent_decode_spec(s: Seq<char>) -> Seq<char> {
    lossy_text(unescape(encode_utf8(s)))
}

fn hex_digit(b: u8) -> (r: u8)
    requires
        is_hex_byte(b),
    ensures
        r == hex_val(b),
        r < 16,
{
    if b <= 57 {
        b - 48
    } else if b <= 70 {
        b - 55
    } else {
        b - 87
    }
}

fn is_hex(b: u8) -> (r: bool)
    ensures
        r == is_hex_byte(b),
{
    (48 <= b && b <= 57) || (65 <= b && b <= 70) || (97 <= b && b <= 102)
}

/// Minimal %XX decoding so keys like `log%3Aagent` survive URL encoding.
pub fn percent_decode(s: &str) -> (r: String)
    ensures
        r@ == percent_decode_spec(s@),
        valid_utf8(unescape(encode_utf8(s@))) ==> r@ == decode_utf8(unescape(encode_utf8(s@))),
{
    let bytes = s.as_bytes();
    let ghost bs = bytes@;
    let mut out: Vec<u8> = Vec::new();
    let mut i: usize = 0;
    assert(bs.skip(0) =~= bs);
    while i < bytes.len()
        invariant
            bs == bytes@,
            i <= bs.len(),
            out@ + unescape(bs.skip(i as int)) == unescape(bs),
        decreases bytes.len() - i,
    {
        let ghost rest = bs.skip(i as int);
        assert(rest[0] == bs[i as int]);
        if bytes[i] == 37u8 && bytes.len() - i > 2 && is_hex(bytes[i + 1]) && is_hex(bytes[i + 2]) {
            assert(rest[1] == bs[i + 1] && rest[2] == bs[i + 2]);
            let hi = hex_digit(bytes[i + 1]);
            let lo = hex_digit(bytes[i + 2]);
            out.push(hi * 16 + lo);
            assert(rest.skip(3) =~= bs.skip(i + 3));
            assert(out@ + unescape(bs.skip(i + 3)) =~= unescape(bs));
            i += 3;
        } else {
            out.push(bytes[i]);
            assert(rest.drop_first() =~= bs.skip(i + 1));
            assert(out@ + unescape(bs.skip(i + 1)) =~= unescape(bs));
            i += 1;
        }
    }
    assert(bs.skip(i as int).len() == 0);
    assert(out@ + unescape(bs.skip(i as int)) =~= out@);
    utf8_lossy(out.as_slice())
}

// ---------------------------------------------------------------------------
// query strings

/// `str::split(c)`: the pieces between occurrences of `c` (one piece when
/// there is none).
pub open spec fn split_on(s: Seq<char>, c: char) -> Seq<Seq<char>>
    decreases s.len(),
{
    let i = index_of(s, c);
    if 0 <= i < s.len() {
        seq![s.take(i)] + split_on(s.skip(i + 1), c)
    } else {
        seq![s]
    }
}

/// The raw value of the first `key=value` pair named `key`.
pub open spec fn raw_param(pairs: Seq<Seq<char>>, key: Seq<char>) -> Option<Seq<char>>
    decreases pairs.len(),
{
    if pairs.len() == 0 {
        None
    } else {
        let p = pairs[0];
        let e = index_of(p, '=');
        if 0 <= e < p.len() && p.take(e) == key {
            Some(p.skip(e + 1))
        } else {
            raw_param(pairs.drop_first(), key)
        }
    }
}

/// `query_param`: the percent-decoded value of the first `key=` pair of a
/// query string.
pub open spec fn query_param_spec(query: Seq<char>, key: Seq<char>) -> Option<Seq<char>> {
    match raw_param(split_on(query, '&'), key) {
        Some(v) => Some(percent_decode_spec(v)),
        None => None,
    }
}

proof fn lemma_index_of_bounds(s: Seq<char>, c: char)
    ensures
        -1 <= index_of(s, c) < s.len(),
{
    crate::text::lemma_index_of(s, c);
}

/// The value of the first `key=` pair of a query string, percent-decoded.
pub fn query_param(query: &str, key: &str) -> (r: Option<String>)
    ensures
        match query_param_spec(query@, key@) {
            Some(v) => r matches Some(s) && s@ == v,
            None => r is None,
        },
        match raw_param(split_on(query@, '&'), key@) {
            Some(v) => valid_utf8(unescape(encode_utf8(v))) ==> (r matches Some(s) && s@
                == decode_utf8(unescape(encode_utf8(v)))),
            None => true,
        },
{
    let q = chars_of(query);
    let k = chars_of(key);
    let n = q.len();
    let mut start: usize = 0;
    assert(q@.skip(0) =~= q@);
    loop
        invariant
            q@ == query@,
            k@ == key@,
            n == q@.len(),
            start <= n,
            raw_param(split_on(q@, '&'), key@) == raw_param(
                split_on(q@.skip(start as int), '&'),
                key@,
            ),
        decreases n - start,
    {
        let ghost rest = q@.skip(start as int);
        assert(q@.subrange(start as int, n as int) =~= rest);
        let end = match find_char(&q, start, n, '&') {
            Some(e) => e,
            None => n,
        };
        proof {
            lemma_index_of_bounds(rest, '&');
        }
        let ghost piece = q@.subrange(start as int, end as int);
        assert(piece =~= if end < n { rest.take(end - start) } else { rest });
        // the first pair of `rest`
        assert(split_on(rest, '&')[0] == piece);
        let eq = find_char(&q, start, end, '=');
        let hit = match eq {
            Some(e) => {
                assert(piece.take(e - start) =~= q@.subrange(start as int, e as int));
                let name_len = e - start;
                name_len == k.len() && seq_range_eq(&q, start, e, &k)
            },
            None => false,
        };
        if hit {
            let e = match eq {
                Some(e) => e,
                None => start,
            };
            let v = string_of_range(&q, e + 1, end);
            assert(piece.skip(e - start + 1) =~= v@);
            assert(raw_param(split_on(rest, '&'), key@) == Some(v@));
            let d = percent_decode(v.as_str());
            return Some(d);
        }
        assert(raw_param(split_on(rest, '&'), key@) == raw_param(
            split_on(rest, '&').drop_first(),
            key@,
        ));
        if end == n {
            assert(split_on(rest, '&').drop_first().len() == 0);
            return None;
        }
        assert(split_on(rest, '&').drop_first() == split_on(rest.skip(end - start + 1), '&'));
        assert(rest.skip(end - start + 1) =~= q@.skip(end + 1));
        start = end + 1;
    }
}

/// `a[from..to] == b`.
fn seq_range_eq(a: &Vec<char>, from: usize, to: usize, b: &Vec<char>) -> (r: bool)
    requires
        from <= to <= a@.len(),
        to - from == b@.len(),
    ensures
        r == (a@.subrange(from as int, to as int) == b@),
{
    let mut i: usize = 0;
    while i < b.len()
        invariant
            from <= to <= a@.len(),
            to - from == b@.len(),
            i <= b@.len(),
            forall|j: int| 0 <= j < i ==> a@[from + j] == b@[j],
        decreases b.len() - i,
    {
        if a[from + i] != b[i] {
            assert(a@.subrange(from as int, to as int)[i as int] != b@[i as int]);
            return false;
        }
        i += 1;
    }
    assert(a@.subrange(from as int, to as int) =~= b@);
    true
}

// ---------------------------------------------------------------------------
// request parameters

/// `?level=` of a trace change: an `i64` from 0 to 8.
pub open spec fn level_param_spec(query: Seq<char>) -> Option<int> {
    match query_param_spec(query, "level"@) {
        Some(v) => match parse_i64_spec(v) {
            Some(l) => if 0 <= l <= 8 {
                Some(l)
            } else {
                None
            },
            None => None,
        },
        None => None,
    }
}

/// The trace level a `POST /api/config/trace?level=N` asks for, when it is
/// one of 0..=8.
pub fn level_param(query: &str) -> (r: Option<i64>)
    ensures
        match level_param_spec(query@) {
            Some(l) => r == Some(l as i64),
            None => r is None,
        },
{
    match query_param(query, "level") {
        Some(v) => {
            let c = chars_of(v.as_str());
            assert(c@.subrange(0, c@.len() as int) =~= c@);
            match parse_i64_range(&c, 0, c.len()) {
                Some(l) => {
                    if 0 <= l && l <= 8 {
                        Some(l)
                    } else {
                        None
                    }
                },
                None => None,
            }
        },
        None => None,
    }
}

/// `?n=` of a log tail: a `usize`, 200 when absent or unreadable, at most
/// `MAX_TAIL_LINES`.
pub open spec fn lines_param_spec(query: Seq<char>) -> nat {
    let n = match query_param_spec(query, "n"@) {
        Some(v) => match parse_unsigned(v, usize::MAX as int) {
            Some(n) => n,
            None => 200,
        },
        None => 200,
    };
    if n < MAX_TAIL_LINES {
        n
    } else {
        MAX_TAIL_LINES as nat
    }
}

/// How many lines a full log tail request returns.
pub fn lines_param(query: &str) -> (r: usize)
    ensures
        r == lines_param_spec(query@),
{
    let n: usize = match query_param(query, "n") {
        Some(v) => {
            let c = chars_of(v.as_str());
            assert(c@.subrange(0, c@.len() as int) =~= c@);
            match parse_unsigned_range(&c, 0, c.len(), usize::MAX as u64) {
                Some(n) => n as usize,
                None => 200,
            }
        },
        None => 200,
    };
    if n < MAX_TAIL_LINES {
        n
    } else {
        MAX_TAIL_LINES
    }
}

/// `?offset=` of an incremental tail, when it is a `u64`.
pub open spec fn offset_param_spec(query: Seq<char>) -> Option<nat> {
    match query_param_spec(query, "offset"@) {
        Some(v) => parse_unsigned(v, u64::MAX as int),
        None => None,
    }
}

/// The byte offset an incremental follow continues from.
pub fn offset_param(query: &str) -> (r: Option<u64>)
    ensures
        match offset_param_spec(query@) {
            Some(o) => r == Some(o as u64),
            None => r is None,
        },
{
    match query_param(query, "offset") {
        Some(v) => {
            let c = chars_of(v.as_str());
            assert(c@.subrange(0, c@.len() as int) =~= c@);
            parse_unsigned_range(&c, 0, c.len(), u64::MAX)
        },
        None => None,
    }
}

/// `?errors=1` asks for error lines only.
pub fn errors_param(query: &str) -> (r: bool)
    ensures
        r == (query_param_spec(query@, "errors"@) == Some("1"@)),
{
    match query_param(query, "errors") {
        Some(v) => {
            let a = chars_of(v.as_str());
            let b = chars_of("1");
            seq_eq(&a, &b)
        },
        None => false,
    }
}

/// `?since=` of an error scan; `all` means no window.
pub fn since_param(query: &str) -> (r: Option<String>)
    ensures
        match query_param_spec(query@, "since"@) {
            Some(v) => if v == "all"@ {
                r is None
            } else {
                r matches Some(s) && s@ == v
            },
            None => r is None,
        },
{
    match query_param(query, "since") {
        Some(v) => {
            let a = chars_of(v.as_str());
            let b = chars_of("all");
            if seq_eq(&a, &b) {
                None
            } else {
                Some(v)
            }
        },
        None => None,
    }
}

// ---------------------------------------------------------------------------
// downloads

/// The last component of a path.
pub open spec fn file_name_spec(path: Seq<char>) -> Seq<char> {
    path.skip(crate::cli::last_index_of(path, '/') + 1)
}

/// `download_target`: `cfg`, `db`, `profile`, or `log:<short name>` of a
/// known log, mapped to (path on disk, download file name).
pub open spec fn download_spec(
    p: Platform,
    files: Seq<Seq<char>>,
    db_override: Option<Seq<char>>,
    key: Seq<char>,
) -> Option<(Seq<char>, Seq<char>)> {
    let base = base_dir_spec(p);
    if crate::cli::starts_with(key, "log:"@) {
        let name = key.skip(4);
        let all = all_logs(p, files);
        if exists|i: int| 0 <= i < all.len() && all[i].name == name {
            let l = all[choose|i: int| 0 <= i < all.len() && all[i].name == name];
            Some((l.path, file_name_spec(l.path)))
        } else {
            None
        }
    } else if key == "cfg"@ {
        Some((join(base, "lsiagent.cfg"@), "lsiagent.cfg"@))
    } else if key == "db"@ {
        let path = match db_override {
            Some(o) => if o.len() > 0 {
                o
            } else {
                join(join(base, "database"@), "collect.sqlite3"@)
            },
            None => join(join(base, "database"@), "collect.sqlite3"@),
        };
        Some((path, "collect.sqlite3"@))
    } else if key == "profile"@ {
        Some((join(base, "profile"@), "profile"@))
    } else {
        None
    }
}

/// Map a `?file=` key to (path on disk, download file name). Keys: `cfg`,
/// `db`, `profile`, `log:<short name>`; anything else, including a path,
/// maps to nothing.
pub fn download_target(
    p: Platform,
    user_log_files: &Vec<String>,
    db_override: Option<&str>,
    key: &str,
) -> (r: Option<(String, String)>)
    ensures
        ({
            let files = user_log_files@.map_values(|s: String| s@);
            let dbo = match db_override {
                Some(o) => Some(o@),
                None => None,
            };
            match download_spec(p, files, dbo, key@) {
                Some((a, b)) => r matches Some((x, y)) && x@ == a && y@ == b,
                None => r is None,
            }
        }),
{
    let kc = chars_of(key);
    let prefix = chars_of("log:");
    proof {
        reveal_strlit("log:");
    }
    if kc.len() >= 4 && seq_range_eq(&kc, 0, 4, &prefix) {
        assert(kc@.take(4) =~= kc@.subrange(0, 4));
        let name = string_of_range(&kc, 4, kc.len());
        assert(name@ =~= key@.skip(4));
        let ghost files = user_log_files@.map_values(|s: String| s@);
        let ghost all = all_logs(p, files);
        return match find_log(p, user_log_files, name.as_str()) {
            Some(l) => {
                proof {
                    let k = choose|k: int|
                        0 <= k < all.len() && all[k] == l@ && l@.name == name@ && forall|j: int|
                            0 <= j < k ==> all[j].name != name@;
                    assert(exists|i: int| 0 <= i < all.len() && all[i].name == name@);
                    let c = choose|i: int| 0 <= i < all.len() && all[i].name == name@;
                    crate::paths::lemma_same_name_same_log(p, files, c, k);
                }
                let fname = last_component(l.path.as_str());
                Some((l.path, fname))
            },
            None => None,
        };
    }
    assert(!crate::cli::starts_with(key@, "log:"@)) by {
        if kc@.len() >= 4 {
            assert(kc@.take(4) =~= kc@.subrange(0, 4));
        }
    }
    if seq_eq(&kc, &chars_of("cfg")) {
        let path = config_path(p);
        let name = String::from_str("lsiagent.cfg");
        return Some((path, name));
    }
    if seq_eq(&kc, &chars_of("db")) {
        let path = database_path(p, db_override);
        let name = String::from_str("collect.sqlite3");
        return Some((path, name));
    }
    if seq_eq(&kc, &chars_of("profile")) {
        let path = profile_path(p);
        let name = String::from_str("profile");
        return Some((path, name));
    }
    None
}

/// The part of a path after its last `/`.
fn last_component(path: &str) -> (r: String)
    ensures
        r@ == file_name_spec(path@),
{
    let v = chars_of(path);
    let n = v.len();
    let mut k = n;
    assert(v@.take(k as int) =~= v@);
    while k > 0
        invariant
            v@ == path@,
            k <= n == v@.len(),
            crate::cli::last_index_of(v@, '/') == crate::cli::last_index_of(v@.take(k as int), '/'),
        decreases k,
    {
        assert(v@.take(k as int).last() == v@[k - 1]);
        assert(v@.take(k as int).drop_last() =~= v@.take(k - 1));
        if v[k - 1] == '/' {
            let r = string_of_range(&v, k, n);
            assert(r@ =~= v@.skip(k as int));
            return r;
        }
        k -= 1;
    }
    assert(v@.skip(0) =~= v@);
    string_of(&v)
}

// ---------------------------------------------------------------------------
// log tails

/// Bytes up to and including the last newline (none when there is no
/// newline).
pub open spec fn complete_len(buf: Seq<u8>) -> nat
    decreases buf.len(),
{
    if buf.len() == 0 {
        0
    } else if buf.last() == 10 {
        buf.len()
    } else {
        complete_len(buf.drop_last())
    }
}

/// The lines of `text`, error lines only when asked.
pub open spec fn keep_lines(ls: Seq<Seq<char>>, errors_only: bool) -> Seq<Seq<char>>
    decreases ls.len(),
{
    if ls.len() == 0 {
        ls
    } else if !errors_only || is_error_line_spec(ls.last()) {
        keep_lines(ls.drop_last(), errors_only).push(ls.last())
    } else {
        keep_lines(ls.drop_last(), errors_only)
    }
}

/// Whether an incremental follow from `offset` must start over: the file
/// shrank below it, or grew by more than the read cap.
pub open spec fn tail_reset_spec(len: nat, offset: nat) -> bool {
    len < offset || len - offset > TAIL_READ_CAP
}

/// Executable `tail_reset_spec`.
pub fn tail_reset(len: u64, offset: u64) -> (r: bool)
    ensures
        r == tail_reset_spec(len as nat, offset as nat),
{
    len < offset || len - offset > TAIL_READ_CAP
}

/// Length of the newline-terminated prefix of `buf`.
fn complete_prefix(buf: &[u8]) -> (r: usize)
    ensures
        r == complete_len(buf@),
        r <= buf@.len(),
{
    let mut k = buf.len();
    assert(buf@.take(k as int) =~= buf@);
    while k > 0
        invariant
            k <= buf@.len(),
            complete_len(buf@) == complete_len(buf@.take(k as int)),
        decreases k,
    {
        assert(buf@.take(k as int).last() == buf@[k - 1]);
        assert(buf@.take(k as int).drop_last() =~= buf@.take(k - 1));
        if buf[k - 1] == 10u8 {
            return k;
        }
        k -= 1;
    }
    0
}

/// `buf[..k]` as a vector.
fn prefix_bytes(buf: &[u8], k: usize) -> (r: Vec<u8>)
    requires
        k <= buf@.len(),
    ensures
        r@ == buf@.take(k as int),
{
    let mut r: Vec<u8> = Vec::new();
    let mut i: usize = 0;
    while i < k
        invariant
            k <= buf@.len(),
            i <= k,
            r@ == buf@.take(i as int),
        decreases k - i,
    {
        r.push(buf[i]);
        i += 1;
        assert(r@ =~= buf@.take(i as int));
    }
    r
}

/// The lines of `ls` from `skip` on, filtered.
fn filtered_lines(ls: &Vec<Vec<char>>, skip: usize, errors_only: bool) -> (r: Vec<String>)
    requires
        skip <= ls@.len(),
    ensures
        r@.map_values(|s: String| s@) == keep_lines(
            ls@.map_values(|v: Vec<char>| v@).skip(skip as int),
            errors_only,
        ),
{
    let ghost all = ls@.map_values(|v: Vec<char>| v@).skip(skip as int);
    let mut out: Vec<String> = Vec::new();
    let mut i = skip;
    while i < ls.len()
        invariant
            skip <= i <= ls@.len(),
            all == ls@.map_values(|v: Vec<char>| v@).skip(skip as int),
            out@.map_values(|s: String| s@) == keep_lines(all.take(i - skip), errors_only),
        decreases ls.len() - i,
    {
        assert(all.take(i - skip + 1).drop_last() =~= all.take(i - skip));
        assert(all.take(i - skip + 1).last() == ls@[i as int]@);
        if !errors_only || is_error_chars(&ls[i]) {
            out.push(string_of(&ls[i]));
        }
        i += 1;
        assert(out@.map_values(|s: String| s@) =~= keep_lines(all.take(i - skip), errors_only));
    }
    assert(all.take(i - skip) =~= all);
    out
}

/// The complete lines of what a follow read since its offset: the lines
/// (filtered) and how many bytes they span. A trailing partial line is
/// held back for the next poll.
pub fn tail_since_lines(buf: &[u8], errors_only: bool) -> (r: (Vec<String>, usize))
    ensures
        r.1 == complete_len(buf@),
        r.1 <= buf@.len(),
        r.0@.map_values(|s: String| s@) == keep_lines(
            lines(lossy_text(buf@.take(complete_len(buf@) as int))),
            errors_only,
        ),
        valid_utf8(buf@.take(complete_len(buf@) as int)) ==> lossy_text(
            buf@.take(complete_len(buf@) as int),
        ) == decode_utf8(buf@.take(complete_len(buf@) as int)),
{
    let complete = complete_prefix(buf);
    let head = prefix_bytes(buf, complete);
    let text = utf8_lossy(head.as_slice());
    let ls = split_lines(&chars_of(text.as_str()));
    assert(ls@.map_values(|v: Vec<char>| v@) =~= lines(text@));
    assert(ls@.map_values(|v: Vec<char>| v@).skip(0) =~= lines(text@));
    let out = filtered_lines(&ls, 0, errors_only);
    (out, complete)
}

/// What an incremental follow from `offset` answers for a file of `len`
/// bytes of which `buf` was read from `offset` on: `(lines, size, next
/// offset, reset)`. A follow that must start over returns no lines and
/// continues from the end; otherwise the complete lines read, continuing
/// after the last newline, a trailing partial line held back.
pub open spec fn tail_since_spec(len: nat, offset: nat, buf: Seq<u8>, errors_only: bool) -> (
    Seq<Seq<char>>,
    nat,
    nat,
    bool,
) {
    if tail_reset_spec(len, offset) {
        (Seq::empty(), len, len, true)
    } else {
        (
            keep_lines(lines(lossy_text(buf.take(complete_len(buf) as int))), errors_only),
            len,
            offset + complete_len(buf),
            false,
        )
    }
}

/// The answer to an incremental follow (see `tail_since_spec`); `buf` is
/// what was read from `offset` on, and is not looked at on a reset.
pub fn tail_since_result(len: u64, offset: u64, buf: &[u8], errors_only: bool) -> (r: (
    Vec<String>,
    u64,
    u64,
    bool,
))
    requires
        !tail_reset_spec(len as nat, offset as nat) ==> offset + buf@.len() <= u64::MAX,
    ensures
        ({
            let s = tail_since_spec(len as nat, offset as nat, buf@, errors_only);
            &&& r.0@.map_values(|x: String| x@) == s.0
            &&& r.1 == s.1
            &&& r.2 == s.2
            &&& r.3 == s.3
        }),
        valid_utf8(buf@.take(complete_len(buf@) as int)) ==> lossy_text(
            buf@.take(complete_len(buf@) as int),
        ) == decode_utf8(buf@.take(complete_len(buf@) as int)),
{
    let (lines, complete) = tail_since_lines(buf, errors_only);
    if tail_reset(len, offset) {
        let v: Vec<String> = Vec::new();
        assert(v@.map_values(|x: String| x@) =~= Seq::<Seq<char>>::empty());
        return (v, len, len, true);
    }
    (lines, len, offset + complete as u64, false)
}

/// One poll of `lsman logs -f` at read position `pos` on a file now `len`
/// bytes long: `(rotated, position to read from, read)`. A file shorter
/// than the position was truncated or rotated, and is read from its start.
pub open spec fn follow_step_spec(pos: nat, len: nat) -> (bool, nat, bool) {
    let rotated = len < pos;
    let from = if rotated {
        0
    } else {
        pos
    };
    (rotated, from, len > from)
}

/// Executable `follow_step_spec`.
pub fn follow_step(pos: u64, len: u64) -> (r: (bool, u64, bool))
    ensures
        (r.0, r.1 as nat, r.2) == follow_step_spec(pos as nat, len as nat),
{
    let rotated = len < pos;
    let from = if rotated {
        0
    } else {
        pos
    };
    (rotated, from, len > from)
}

/// The lines a follow prints from newly read text, error lines only when
/// asked.
pub fn follow_lines(text: &str, errors_only: bool) -> (r: Vec<String>)
    ensures
        r@.map_values(|s: String| s@) == keep_lines(lines(text@), errors_only),
{
    let ls = split_lines(&chars_of(text));
    assert(ls@.map_values(|v: Vec<char>| v@) =~= lines(text@));
    assert(ls@.map_values(|v: Vec<char>| v@).skip(0) =~= lines(text@));
    filtered_lines(&ls, 0, errors_only)
}

/// The last `n` of a sequence (all of it when shorter).
pub open spec fn last_n(s: Seq<Seq<char>>, n: nat) -> Seq<Seq<char>> {
    if s.len() > n {
        s.skip(s.len() - n)
    } else {
        s
    }
}

/// The tail window of a file of `len` bytes: whether it is cut, and the
/// byte offset it starts at.
pub open spec fn tail_window_spec(len: nat) -> (bool, nat) {
    if len > TAIL_READ_CAP {
        (true, (len - TAIL_READ_CAP) as nat)
    } else {
        (false, 0)
    }
}

/// Executable `tail_window_spec`.
pub fn tail_window(len: u64) -> (r: (bool, u64))
    ensures
        (r.0, r.1 as nat) == tail_window_spec(len as nat),
{
    if len > TAIL_READ_CAP {
        (true, len - TAIL_READ_CAP)
    } else {
        (false, 0)
    }
}

/// How much of a tail window the lines span: up to the last newline, or
/// everything when there is none.
pub open spec fn capped_len(buf: Seq<u8>) -> nat {
    if complete_len(buf) == 0 {
        buf.len()
    } else {
        complete_len(buf)
    }
}

/// The last `n` complete lines of a tail window (filtered), skipping the
/// first line of a cut window since it is likely partial, and how many
/// bytes of the window they span.
pub fn tail_capped_lines(buf: &[u8], windowed: bool, n: usize, errors_only: bool) -> (r: (
    Vec<String>,
    usize,
))
    ensures
        r.1 == capped_len(buf@),
        r.1 <= buf@.len(),
        valid_utf8(buf@.take(capped_len(buf@) as int)) ==> lossy_text(
            buf@.take(capped_len(buf@) as int),
        ) == decode_utf8(buf@.take(capped_len(buf@) as int)),
        ({
            let ls = lines(lossy_text(buf@.take(capped_len(buf@) as int)));
            let from = if windowed && ls.len() > 0 {
                1int
            } else {
                0
            };
            r.0@.map_values(|s: String| s@) == last_n(keep_lines(ls.skip(from), errors_only), n as nat)
        }),
{
    let c = complete_prefix(buf);
    let complete = if c == 0 {
        buf.len()
    } else {
        c
    };
    let head = prefix_bytes(buf, complete);
    let text = utf8_lossy(head.as_slice());
    let ls = split_lines(&chars_of(text.as_str()));
    assert(ls@.map_values(|v: Vec<char>| v@) =~= lines(text@));
    let skip: usize = if windowed && ls.len() > 0 {
        1
    } else {
        0
    };
    let mut kept = filtered_lines(&ls, skip, errors_only);
    if kept.len() > n {
        let ghost kv = kept@.map_values(|s: String| s@);
        let drop = kept.len() - n;
        let rest = kept.split_off(drop);
        assert(rest@.map_values(|s: String| s@) =~= kv.skip(drop as int));
        return (rest, complete);
    }
    (kept, complete)
}

/// The answer to a full tail of a file of `len` bytes, `buf` being what
/// was read from the start of its tail window: `(lines, size, windowed,
/// next offset)`, the next offset just after the last newline read (or
/// after all of `buf` when it has none).
pub fn tail_capped_result(len: u64, buf: &[u8], n: usize, errors_only: bool) -> (r: (
    Vec<String>,
    u64,
    bool,
    u64,
))
    requires
        tail_window_spec(len as nat).1 + buf@.len() <= u64::MAX,
    ensures
        r.1 == len,
        r.2 == tail_window_spec(len as nat).0,
        r.3 == tail_window_spec(len as nat).1 + capped_len(buf@),
        ({
            let ls = lines(lossy_text(buf@.take(capped_len(buf@) as int)));
            let from = if r.2 && ls.len() > 0 {
                1int
            } else {
                0
            };
            r.0@.map_values(|s: String| s@) == last_n(keep_lines(ls.skip(from), errors_only), n as nat)
        }),
        valid_utf8(buf@.take(capped_len(buf@) as int)) ==> lossy_text(
            buf@.take(capped_len(buf@) as int),
        ) == decode_utf8(buf@.take(capped_len(buf@) as int)),
{
    let (windowed, start) = tail_window(len);
    let (lines, complete) = tail_capped_lines(buf, windowed, n, errors_only);
    (lines, len, windowed, start + complete as u64)
}

} // verus!
