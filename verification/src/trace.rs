//! The agent's trace level: `LogLevel2` in the `[Debug]` section of
//! `lsiagent.cfg`. Reading it, naming it, parsing a user's level argument and
//! rewriting the config with a new level while keeping everything else.

use vstd::prelude::*;
use crate::num::{decimal, decimal_int, lemma_decimal, lemma_parse_decimal_int, parse_i64_range, parse_i64_spec, push_decimal_i64};
use crate::text::{
    chars_of, eq_ignore_case, find_char, index_of, is_ws, lemma_index_of, lemma_index_of_is,
    lines, lower, push_char, push_range, push_str, range_eq_ignore_case, split_lines, strip_cr,
    trim, trim_bounds, trim_end, trim_start,
};

verus! {

// ---------------------------------------------------------------------------
// level names

/// `(name, level)` pairs, in level order: 0=none, 1=error, 2=warning,
/// 3=info (the agent default), 4..8=trace1..trace5.
pub open spec fn level_name_spec(level: int) -> Seq<char> {
    if level == 0 {
        "none"@
    } else if level == 1 {
        "error"@
    } else if level == 2 {
        "warning"@
    } else if level == 3 {
        "info"@
    } else if level == 4 {
        "trace1"@
    } else if level == 5 {
        "trace2"@
    } else if level == 6 {
        "trace3"@
    } else if level == 7 {
        "trace4"@
    } else if level == 8 {
        "trace5"@
    } else {
        "?"@
    }
}

/// The name of a trace level, or `?` for a level outside 0..=8.
pub fn level_name(level: i64) -> (r: &'static str)
    ensures
        r@ == level_name_spec(level as int),
{
    match level {
        0 => "none",
        1 => "error",
        2 => "warning",
        3 => "info",
        4 => "trace1",
        5 => "trace2",
        6 => "trace3",
        7 => "trace4",
        8 => "trace5",
        _ => "?",
    }
}

/// The level whose name equals `s` ignoring ASCII case, if any.
pub open spec fn level_by_name(s: Seq<char>) -> Option<int> {
    if eq_ignore_case("none"@, s) {
        Some(0)
    } else if eq_ignore_case("error"@, s) {
        Some(1)
    } else if eq_ignore_case("warning"@, s) {
        Some(2)
    } else if eq_ignore_case("info"@, s) {
        Some(3)
    } else if eq_ignore_case("trace1"@, s) {
        Some(4)
    } else if eq_ignore_case("trace2"@, s) {
        Some(5)
    } else if eq_ignore_case("trace3"@, s) {
        Some(6)
    } else if eq_ignore_case("trace4"@, s) {
        Some(7)
    } else if eq_ignore_case("trace5"@, s) {
        Some(8)
    } else {
        None
    }
}

/// Why a level argument was refused.
#[derive(Debug, Clone, PartialEq, Eq)]
pub enum LevelError {
    /// A number outside 0..=8.
    OutOfRange,
    /// Neither a number nor a level name; carries the argument.
    Unknown(String),
}

/// The message shown for a refused level argument.
pub open spec fn level_error_message(e: LevelError) -> Seq<char> {
    match e {
        LevelError::OutOfRange => "level must be 0-8"@,
        LevelError::Unknown(s) => "unknown level '"@ + s@
            + "' (use 0-8 or none/error/warning/info/trace1..trace5)"@,
    }
}

impl LevelError {
    /// The message shown to the user.
    pub fn message(&self) -> (r: String)
        ensures
            r@ == level_error_message(*self),
    {
        match self {
            LevelError::OutOfRange => String::from_str("level must be 0-8"),
            LevelError::Unknown(s) => {
                let mut m = String::from_str("unknown level '");
                push_str(&mut m, s.as_str());
                push_str(&mut m, "' (use 0-8 or none/error/warning/info/trace1..trace5)");
                m
            },
        }
    }
}

/// What `parse_level` answers for `s`.
pub open spec fn parse_level_spec(s: Seq<char>) -> Result<int, ()> {
    match parse_i64_spec(s) {
        Some(n) => if 0 <= n <= 8 {
            Ok(n)
        } else {
            Err(())
        },
        None => match level_by_name(s) {
            Some(v) => Ok(v),
            None => Err(()),
        },
    }
}

fn name_matches(name: &str, s: &[char]) -> (r: bool)
    ensures
        r == eq_ignore_case(name@, s@),
{
    let n = chars_of(name);
    assert(n@.subrange(0, n@.len() as int) =~= n@);
    range_eq_ignore_case(&n, 0, n.len(), s)
}

/// A trace level given as a number 0..=8 or a level name (any ASCII case).
pub fn parse_level(s: &str) -> (r: Result<i64, LevelError>)
    ensures
        match parse_level_spec(s@) {
            Ok(v) => r == Ok::<i64, LevelError>(v as i64),
            Err(_) => match parse_i64_spec(s@) {
                Some(_) => r == Err::<i64, LevelError>(LevelError::OutOfRange),
                None => (r matches Err(LevelError::Unknown(t)) && t@ == s@),
            },
        },
{
    let v = chars_of(s);
    match parse_i64_range(&v, 0, v.len()) {
        Some(n) => {
            assert(v@.subrange(0, v@.len() as int) =~= v@);
            if 0 <= n && n <= 8 {
                Ok(n)
            } else {
                Err(LevelError::OutOfRange)
            }
        },
        None => {
            assert(v@.subrange(0, v@.len() as int) =~= v@);
            if name_matches("none", &v) {
                Ok(0)
            } else if name_matches("error", &v) {
                Ok(1)
            } else if name_matches("warning", &v) {
                Ok(2)
            } else if name_matches("info", &v) {
                Ok(3)
            } else if name_matches("trace1", &v) {
                Ok(4)
            } else if name_matches("trace2", &v) {
                Ok(5)
            } else if name_matches("trace3", &v) {
                Ok(6)
            } else if name_matches("trace4", &v) {
                Ok(7)
            } else if name_matches("trace5", &v) {
                Ok(8)
            } else {
                Err(LevelError::Unknown(String::from_str(s)))
            }
        },
    }
}

/// Two names that differ in the case-folded character at `i` are not equal
/// ignoring case.
proof fn lemma_names_differ(a: Seq<char>, b: Seq<char>, i: int)
    requires
        0 <= i < a.len(),
        lower(a[i]) != lower(b[i]),
    ensures
        !eq_ignore_case(a, b),
{
}

/// Parsing a level's name, or its decimal text, gives the level back; and
/// every level that parses has a name.
pub proof fn lemma_level_round_trip(n: int, s: Seq<char>)
    requires
        0 <= n <= 8,
    ensures
        parse_level_spec(level_name_spec(n)) == Ok::<int, ()>(n),
        parse_level_spec(decimal_int(n)) == Ok::<int, ()>(n),
        parse_level_spec(s) matches Ok(v) ==> 0 <= v <= 8 && level_name_spec(v) != "?"@,
{
    reveal_strlit("none");
    reveal_strlit("error");
    reveal_strlit("warning");
    reveal_strlit("info");
    reveal_strlit("trace1");
    reveal_strlit("trace2");
    reveal_strlit("trace3");
    reveal_strlit("trace4");
    reveal_strlit("trace5");
    reveal_strlit("?");
    lemma_parse_decimal_int(n);
    let name = level_name_spec(n);
    assert(name.len() > 0 && 'a' <= name[0] <= 'z');
    assert(parse_i64_spec(name) is None);
    let names = seq!["none"@, "error"@, "warning"@, "info"@, "trace1"@, "trace2"@, "trace3"@, "trace4"@, "trace5"@];
    assert(names[n] == name);
    assert(eq_ignore_case(name, name));
    assert forall|j: int| 0 <= j < n implies !eq_ignore_case(#[trigger] names[j], name) by {
        if names[j].len() == name.len() {
            if names[j][0] != name[0] {
                lemma_names_differ(names[j], name, 0);
            } else {
                lemma_names_differ(names[j], name, 5);
            }
        }
    }
    assert(!eq_ignore_case(names[0], name) ==> !eq_ignore_case("none"@, name));
}

// ---------------------------------------------------------------------------
// reading LogLevel2

/// A trimmed line that opens a section.
pub open spec fn is_header(t: Seq<char>) -> bool {
    t.len() > 0 && t[0] == '['
}

/// A trimmed line that opens the `[Debug]` section (any ASCII case).
pub open spec fn is_debug_header(t: Seq<char>) -> bool {
    eq_ignore_case(t, "[debug]"@)
}

/// A trimmed `key = value` line whose key is `LogLevel2` (any ASCII case).
pub open spec fn is_level_key_line(t: Seq<char>) -> bool {
    let i = index_of(t, '=');
    i >= 0 && eq_ignore_case(trim(t.take(i)), "loglevel2"@)
}

/// The parsed value of a `key = value` line.
pub open spec fn level_value(t: Seq<char>) -> Option<int> {
    parse_i64_spec(trim(t.skip(index_of(t, '=') + 1)))
}

/// Scan `ls` in order: section headers switch `in_debug`; the first
/// `LogLevel2` key inside a `[Debug]` section decides the answer.
pub open spec fn read_level_from(ls: Seq<Seq<char>>, in_debug: bool) -> Option<int>
    decreases ls.len(),
{
    if ls.len() == 0 {
        None
    } else {
        let t = trim(ls[0]);
        if is_header(t) {
            read_level_from(ls.drop_first(), is_debug_header(t))
        } else if in_debug && is_level_key_line(t) {
            level_value(t)
        } else {
            read_level_from(ls.drop_first(), in_debug)
        }
    }
}

/// `LogLevel2` from the `[Debug]` section of config text.
pub open spec fn read_log_level_spec(cfg: Seq<char>) -> Option<int> {
    read_level_from(lines(cfg), false)
}

/// A parsed `i64` fits in `i64`.
proof fn lemma_parse_i64_fits(s: Seq<char>)
    ensures
        parse_i64_spec(s) matches Some(v) ==> i64::MIN <= v <= i64::MAX,
{
}

proof fn lemma_read_from_fits(ls: Seq<Seq<char>>, d: bool)
    ensures
        read_level_from(ls, d) matches Some(v) ==> i64::MIN <= v <= i64::MAX,
    decreases ls.len(),
{
    if ls.len() > 0 {
        let t = trim(ls[0]);
        lemma_parse_i64_fits(trim(t.skip(index_of(t, '=') + 1)));
        lemma_read_from_fits(ls.drop_first(), if is_header(t) {
            is_debug_header(t)
        } else {
            d
        });
    }
}

/// The level read from a config fits in `i64`.
pub proof fn lemma_read_log_level_fits(cfg: Seq<char>)
    ensures
        read_log_level_spec(cfg) matches Some(v) ==> i64::MIN <= v <= i64::MAX,
{
    lemma_read_from_fits(lines(cfg), false);
}

/// Checks the header/key shape of `line[a..b]` (already trimmed).
fn classify(line: &[char], a: usize, b: usize, in_debug: bool, debug: &[char], key: &[char]) -> (r: (
    bool,
    bool,
    Option<usize>,
))
    requires
        a <= b <= line@.len(),
        line@.subrange(a as int, b as int) == trim(line@.subrange(a as int, b as int)),
        debug@ == "[debug]"@,
        key@ == "loglevel2"@,
    ensures
        ({
            let t = line@.subrange(a as int, b as int);
            &&& r.0 == is_header(t)
            &&& r.0 ==> r.1 == is_debug_header(t)
            &&& (!r.0 && in_debug) ==> (r.2 is Some <==> is_level_key_line(t))
            &&& (!r.0 && in_debug && r.2 is Some) ==> (a <= r.2->0 < b && r.2->0 - a == index_of(
                t,
                '=',
            ))
        }),
{
    let ghost t = line@.subrange(a as int, b as int);
    if a < b && line[a] == '[' {
        assert(t[0] == line@[a as int]);
        let d = range_eq_ignore_case(line, a, b, debug);
        return (true, d, None);
    }
    if a < b {
        assert(t[0] == line@[a as int]);
    }
    if !in_debug {
        return (false, false, None);
    }
    match find_char(line, a, b, '=') {
        Some(e) => {
            let (c, d) = trim_bounds(line, a, e);
            assert(t.take(e - a) =~= line@.subrange(a as int, e as int));
            if range_eq_ignore_case(line, c, d, key) {
                (false, false, Some(e))
            } else {
                (false, false, None)
            }
        },
        None => (false, false, None),
    }
}

/// `LogLevel2` from the `[Debug]` section of lsiagent.cfg content, or `None`
/// when unset (or not a number).
pub fn read_log_level(cfg: &str) -> (r: Option<i64>)
    ensures
        match read_log_level_spec(cfg@) {
            Some(v) => r == Some(v as i64),
            None => r is None,
        },
{
    let v = chars_of(cfg);
    let ls = split_lines(&v);
    let ghost lv = lines(v@);
    let debug = chars_of("[debug]");
    let key = chars_of("loglevel2");
    let mut in_debug = false;
    let mut i: usize = 0;
    assert(lv.skip(0) =~= lv);
    while i < ls.len()
        invariant
            lv == lines(cfg@),
            ls@.len() == lv.len(),
            forall|k: int| 0 <= k < ls@.len() ==> #[trigger] ls@[k]@ == lv[k],
            i <= ls@.len(),
            debug@ == "[debug]"@,
            key@ == "loglevel2"@,
            read_log_level_spec(cfg@) == read_level_from(lv.skip(i as int), in_debug),
        decreases ls.len() - i,
    {
        let line = &ls[i];
        let ghost rest = lv.skip(i as int);
        assert(rest[0] == line@);
        assert(rest.drop_first() =~= lv.skip(i + 1));
        let (a, b) = trim_bounds(line, 0, line.len());
        assert(line@.subrange(0, line@.len() as int) =~= line@);
        proof {
            lemma_trim_idempotent(line@);
        }
        let (hdr, dbg, eq) = classify(line, a, b, in_debug, &debug, &key);
        if hdr {
            in_debug = dbg;
        } else if in_debug {
            if let Some(e) = eq {
                let (c, d) = trim_bounds(line, e + 1, b);
                let ghost t = line@.subrange(a as int, b as int);
                assert(t.skip(e + 1 - a) =~= line@.subrange(e + 1, b as int));
                assert(line@.subrange(c as int, d as int) == trim(t.skip(index_of(t, '=') + 1)));
                return parse_i64_range(line, c, d);
            }
        }
        i += 1;
    }
    None
}

/// Trimming twice trims once.
pub proof fn lemma_trim_idempotent(s: Seq<char>)
    ensures
        trim(trim(s)) == trim(s),
{
    let t = trim(s);
    lemma_trim_shape(s);
    if t.len() > 0 {
        lemma_trim_identity(t);
    }
}

/// A trimmed text is empty or has non-whitespace at both ends.
pub proof fn lemma_trim_shape(s: Seq<char>)
    ensures
        trim(s).len() > 0 ==> !is_ws(trim(s)[0]) && !is_ws(trim(s).last()),
{
    lemma_trim_start_shape(s);
    lemma_trim_end_shape(trim_start(s));
    lemma_trim_end_prefix(trim_start(s));
}

proof fn lemma_trim_start_shape(s: Seq<char>)
    ensures
        trim_start(s).len() > 0 ==> !is_ws(trim_start(s)[0]),
    decreases s.len(),
{
    if s.len() > 0 && is_ws(s[0]) {
        lemma_trim_start_shape(s.drop_first());
    }
}

proof fn lemma_trim_end_shape(s: Seq<char>)
    ensures
        trim_end(s).len() > 0 ==> !is_ws(trim_end(s).last()),
    decreases s.len(),
{
    if s.len() > 0 && is_ws(s.last()) {
        lemma_trim_end_shape(s.drop_last());
    }
}

/// `trim_end(s)` is a prefix of `s`.
proof fn lemma_trim_end_prefix(s: Seq<char>)
    ensures
        trim_end(s).len() <= s.len(),
        trim_end(s) == s.take(trim_end(s).len() as int),
    decreases s.len(),
{
    if s.len() > 0 && is_ws(s.last()) {
        lemma_trim_end_prefix(s.drop_last());
        assert(s.drop_last().take(trim_end(s).len() as int) =~= s.take(trim_end(s).len() as int));
    } else {
        assert(s.take(s.len() as int) =~= s);
    }
}

/// Text with non-whitespace at both ends is its own trim.
pub proof fn lemma_trim_identity(s: Seq<char>)
    requires
        s.len() > 0,
        !is_ws(s[0]),
        !is_ws(s.last()),
    ensures
        trim(s) == s,
{
}

/// Whitespace appended to a text does not change its trim.
pub proof fn lemma_trim_push_ws(s: Seq<char>, c: char)
    requires
        is_ws(c),
    ensures
        trim(s.push(c)) == trim(s),
    decreases s.len(),
{
    if s.len() == 0 {
        assert(seq![c].drop_first() =~= Seq::<char>::empty());
        assert(s.push(c) =~= seq![c]);
        assert(trim_start(seq![c]) == trim_start(Seq::<char>::empty()));
    } else if is_ws(s[0]) {
        assert(s.push(c).drop_first() =~= s.drop_first().push(c));
        lemma_trim_push_ws(s.drop_first(), c);
    } else {
        assert(s.push(c)[0] == s[0]);
        assert(s.push(c).drop_last() =~= s);
    }
}

// ---------------------------------------------------------------------------
// writing LogLevel2

/// Offset in `ls` of the line `read_level_from` would answer from, or -1.
pub open spec fn key_line_index(ls: Seq<Seq<char>>, in_debug: bool) -> int
    decreases ls.len(),
{
    if ls.len() == 0 {
        -1
    } else {
        let t = trim(ls[0]);
        if !is_header(t) && in_debug && is_level_key_line(t) {
            0
        } else {
            let r = key_line_index(
                ls.drop_first(),
                if is_header(t) {
                    is_debug_header(t)
                } else {
                    in_debug
                },
            );
            if r < 0 {
                -1
            } else {
                r + 1
            }
        }
    }
}

/// Whether a scan of all of `ls` ends inside a `[Debug]` section.
pub open spec fn state_after(ls: Seq<Seq<char>>, in_debug: bool) -> bool
    decreases ls.len(),
{
    if ls.len() == 0 {
        in_debug
    } else {
        let t = trim(ls[0]);
        state_after(
            ls.drop_first(),
            if is_header(t) {
                is_debug_header(t)
            } else {
                in_debug
            },
        )
    }
}

/// Index of the last `[Debug]` header line in `ls`, or -1.
pub open spec fn last_debug_header(ls: Seq<Seq<char>>) -> int
    decreases ls.len(),
{
    if ls.len() == 0 {
        -1
    } else if is_debug_header(trim(ls.last())) {
        ls.len() - 1
    } else {
        last_debug_header(ls.drop_last())
    }
}

/// The line `LogLevel2=<level>`.
pub open spec fn level_line(level: int) -> Seq<char> {
    "LogLevel2="@ + decimal_int(level)
}

/// The config lines with `LogLevel2=<level>` set: the existing key in
/// `[Debug]` is replaced; else the line goes right after the last `[Debug]`
/// header; else a `[Debug]` section is appended (after a blank separator
/// line when the text does not already end in one).
pub open spec fn updated_lines(ls: Seq<Seq<char>>, level: int) -> Seq<Seq<char>> {
    let k = key_line_index(ls, false);
    if k >= 0 {
        ls.update(k, level_line(level))
    } else {
        let h = last_debug_header(ls);
        if h >= 0 {
            ls.insert(h + 1, level_line(level))
        } else {
            let base = if ls.len() > 0 && trim(ls.last()).len() > 0 {
                ls.push(Seq::<char>::empty())
            } else {
                ls
            };
            base.push("[Debug]"@).push(level_line(level))
        }
    }
}

/// Each line followed by a newline.
pub open spec fn concat_lines(ls: Seq<Seq<char>>) -> Seq<char>
    decreases ls.len(),
{
    if ls.len() == 0 {
        Seq::<char>::empty()
    } else {
        ls[0].push('\n') + concat_lines(ls.drop_first())
    }
}

/// `lines.join("\n") + "\n"`.
pub open spec fn join_lines_spec(ls: Seq<Seq<char>>) -> Seq<char> {
    if ls.len() == 0 {
        seq!['\n']
    } else {
        concat_lines(ls)
    }
}

/// Config text with `LogLevel2=<level>` set in the `[Debug]` section.
pub open spec fn set_log_level_spec(cfg: Seq<char>, level: int) -> Seq<char> {
    join_lines_spec(updated_lines(lines(cfg), level))
}

/// `lines.join("\n")` followed by a final newline.
fn join_lines(ls: &Vec<Vec<char>>) -> (r: String)
    ensures
        r@ == join_lines_spec(ls@.map_values(|l: Vec<char>| l@)),
{
    let ghost lv = ls@.map_values(|l: Vec<char>| l@);
    let mut r = String::new();
    if ls.len() == 0 {
        push_char(&mut r, '\n');
        assert(r@ =~= seq!['\n']);
        return r;
    }
    let mut i: usize = 0;
    assert(lv.skip(0) =~= lv);
    while i < ls.len()
        invariant
            lv == ls@.map_values(|l: Vec<char>| l@),
            i <= ls@.len(),
            concat_lines(lv) == r@ + concat_lines(lv.skip(i as int)),
        decreases ls.len() - i,
    {
        let line = &ls[i];
        let ghost before = r@;
        push_range(&mut r, line, 0, line.len());
        push_char(&mut r, '\n');
        proof {
            let rest = lv.skip(i as int);
            assert(rest[0] == line@);
            assert(rest.drop_first() =~= lv.skip(i + 1));
            assert(line@.subrange(0, line@.len() as int) =~= line@);
            assert(r@ =~= before + line@.push('\n'));
        }
        i += 1;
    }
    assert(lv.skip(ls.len() as int) =~= Seq::<Seq<char>>::empty());
    assert(r@ + Seq::<char>::empty() =~= r@);
    r
}

/// The characters of `level_line(level)`.
fn make_level_line(level: i64) -> (r: Vec<char>)
    ensures
        r@ == level_line(level as int),
{
    let mut s = String::new();
    push_str(&mut s, "LogLevel2=");
    push_decimal_i64(&mut s, level);
    assert(s@ =~= "LogLevel2="@ + decimal_int(level as int));
    chars_of(s.as_str())
}

/// Config content with `LogLevel2=<level>` set in the `[Debug]` section,
/// creating the key or the section as needed; every other line is kept.
pub fn set_log_level(cfg: &str, level: i64) -> (r: String)
    ensures
        r@ == set_log_level_spec(cfg@, level as int),
{
    let v = chars_of(cfg);
    let mut ls = split_lines(&v);
    let ghost lv = lines(v@);
    let debug = chars_of("[debug]");
    let key = chars_of("loglevel2");
    let mut in_debug = false;
    let mut hdr: Option<usize> = None;
    let mut i: usize = 0;
    assert(lv.skip(0) =~= lv);
    assert(lv.take(0) =~= Seq::<Seq<char>>::empty());
    while i < ls.len()
        invariant
            lv == lines(cfg@),
            ls@.len() == lv.len(),
            forall|k: int| 0 <= k < ls@.len() ==> #[trigger] ls@[k]@ == lv[k],
            i <= ls@.len(),
            debug@ == "[debug]"@,
            key@ == "loglevel2"@,
            key_line_index(lv, false) == (if key_line_index(lv.skip(i as int), in_debug) < 0 {
                -1
            } else {
                i + key_line_index(lv.skip(i as int), in_debug)
            }),
            in_debug == state_after(lv.take(i as int), false),
            match hdr {
                Some(h) => h < i && last_debug_header(lv.take(i as int)) == h,
                None => last_debug_header(lv.take(i as int)) == -1,
            },
        decreases ls.len() - i,
    {
        let line = &ls[i];
        let ghost rest = lv.skip(i as int);
        assert(rest[0] == line@);
        assert(rest.drop_first() =~= lv.skip(i + 1));
        let (a, b) = trim_bounds(line, 0, line.len());
        assert(line@.subrange(0, line@.len() as int) =~= line@);
        proof {
            lemma_trim_idempotent(line@);
            lemma_state_after_push(lv.take(i as int), line@, false);
            assert(lv.take(i + 1) =~= lv.take(i as int).push(line@));
            assert(lv.take(i + 1).drop_last() =~= lv.take(i as int));
        }
        let (is_hdr, dbg, eq) = classify(line, a, b, in_debug, &debug, &key);
        proof {
            let t = trim(line@);
            lemma_debug_header_is_header(t);
            assert(lv.take(i + 1).last() == line@);
        }
        if is_hdr {
            in_debug = dbg;
            if in_debug {
                hdr = Some(i);
            }
        } else if in_debug {
            if eq.is_some() {
                let new_line = make_level_line(level);
                ls.set(i, new_line);
                proof {
                    let nv = ls@.map_values(|l: Vec<char>| l@);
                    assert(nv =~= lv.update(i as int, level_line(level as int)));
                }
                return join_lines(&ls);
            }
        }
        i += 1;
    }
    proof {
        assert(lv.skip(ls.len() as int) =~= Seq::<Seq<char>>::empty());
        assert(lv.take(ls.len() as int) =~= lv);
    }
    let ghost base = ls@.map_values(|l: Vec<char>| l@);
    assert(base =~= lv);
    match hdr {
        Some(h) => {
            ls.insert(h + 1, make_level_line(level));
            assert(ls@.map_values(|l: Vec<char>| l@) =~= lv.insert(h + 1, level_line(level as int)));
        },
        None => {
            let n = ls.len();
            if n > 0 {
                let last = &ls[n - 1];
                let (a, b) = trim_bounds(last, 0, last.len());
                assert(last@.subrange(0, last@.len() as int) =~= last@);
                if a < b {
                    ls.push(Vec::new());
                }
            }
            ls.push(chars_of("[Debug]"));
            ls.push(make_level_line(level));
            proof {
                let b0 = if lv.len() > 0 && trim(lv.last()).len() > 0 {
                    lv.push(Seq::<char>::empty())
                } else {
                    lv
                };
                assert(ls@.map_values(|l: Vec<char>| l@) =~= b0.push("[Debug]"@).push(
                    level_line(level as int),
                ));
            }
        },
    }
    join_lines(&ls)
}

/// A `[Debug]` header is a section header.
proof fn lemma_debug_header_is_header(t: Seq<char>)
    ensures
        is_debug_header(t) ==> is_header(t),
{
    reveal_strlit("[debug]");
    if is_debug_header(t) {
        assert(lower(t[0]) == lower("[debug]"@[0]));
        assert("[debug]"@[0] == '[');
    }
}

proof fn lemma_state_after_push(p: Seq<Seq<char>>, x: Seq<char>, d: bool)
    ensures
        state_after(p.push(x), d) == (if is_header(trim(x)) {
            is_debug_header(trim(x))
        } else {
            state_after(p, d)
        }),
    decreases p.len(),
{
    if p.len() == 0 {
        let e = Seq::<Seq<char>>::empty();
        assert(seq![x].drop_first() =~= e);
        assert(p.push(x) =~= seq![x]);
        assert(state_after(e, true) == true);
        assert(state_after(e, false) == false);
        assert(state_after(p, d) == d);
    } else {
        assert(p.push(x).drop_first() =~= p.drop_first().push(x));
        let t = trim(p[0]);
        lemma_state_after_push(
            p.drop_first(),
            x,
            if is_header(t) {
                is_debug_header(t)
            } else {
                d
            },
        );
    }
}

// ---------------------------------------------------------------------------
// the read-after-write law

/// No line holds a newline.
pub open spec fn no_newlines(ls: Seq<Seq<char>>) -> bool {
    forall|i: int, j: int| 0 <= i < ls.len() && 0 <= j < ls[i].len() ==> ls[i][j] != '\n'
}

/// The lines of text never hold a newline.
proof fn lemma_lines_no_newlines(s: Seq<char>)
    ensures
        no_newlines(lines(s)),
    decreases s.len(),
{
    if s.len() > 0 {
        let i = index_of(s, '\n');
        lemma_index_of(s, '\n');
        if 0 <= i < s.len() {
            lemma_lines_no_newlines(s.skip(i + 1));
            let first = strip_cr(s.take(i));
            assert forall|j: int| 0 <= j < first.len() implies first[j] != '\n' by {
                assert(first[j] == s[j]);
            }
            let ls = lines(s);
            assert forall|a: int, b: int| 0 <= a < ls.len() && 0 <= b < ls[a].len() implies ls[a][b]
                != '\n' by {
                if a > 0 {
                    assert(ls[a] == lines(s.skip(i + 1))[a - 1]);
                }
            }
        }
    }
}

/// Re-reading joined lines sees the same trimmed lines, so the scan answers
/// the same.
proof fn lemma_read_concat(ls: Seq<Seq<char>>, d: bool)
    requires
        no_newlines(ls),
    ensures
        read_level_from(lines(concat_lines(ls)), d) == read_level_from(ls, d),
    decreases ls.len(),
{
    if ls.len() > 0 {
        let l0 = ls[0];
        let rest = ls.drop_first();
        let c = concat_lines(ls);
        let cr = concat_lines(rest);
        assert(c == l0.push('\n') + cr);
        assert forall|a: int, b: int| 0 <= a < rest.len() && 0 <= b < rest[a].len() implies rest[a][b]
            != '\n' by {
            assert(rest[a] == ls[a + 1]);
        }
        lemma_read_concat(rest, if is_header(trim(l0)) {
            is_debug_header(trim(l0))
        } else {
            d
        });
        lemma_read_concat(rest, d);
        // the first line of `c` is `l0`, up to one trailing '\r'
        assert forall|j: int| 0 <= j < c.len() && j < l0.len() implies c[j] != '\n' by {
            assert(c[j] == l0[j]);
            assert(ls[0] == l0);
        }
        assert(c[l0.len() as int] == '\n');
        lemma_index_of_is(c, '\n', l0.len() as int);
        assert(c.take(l0.len() as int) =~= l0);
        assert(c.skip(l0.len() as int + 1) =~= cr);
        let lc = lines(c);
        assert(lc == seq![strip_cr(l0)] + lines(cr));
        assert(lc[0] == strip_cr(l0));
        assert(lc.drop_first() =~= lines(cr));
        if l0.len() > 0 && l0.last() == '\r' {
            lemma_trim_push_ws(l0.drop_last(), '\r');
            assert(l0.drop_last().push('\r') =~= l0);
        }
        assert(trim(lc[0]) == trim(l0));
    }
}

/// A scan that meets no `LogLevel2` key in `p` continues after `p` in the
/// section state `p` ends in.
proof fn lemma_read_prefix(p: Seq<Seq<char>>, r: Seq<Seq<char>>, d: bool)
    requires
        key_line_index(p, d) == -1,
    ensures
        read_level_from(p + r, d) == read_level_from(r, state_after(p, d)),
    decreases p.len(),
{
    if p.len() == 0 {
        assert(p + r =~= r);
    } else {
        let t = trim(p[0]);
        let d2 = if is_header(t) {
            is_debug_header(t)
        } else {
            d
        };
        assert((p + r)[0] == p[0]);
        assert((p + r).drop_first() =~= p.drop_first() + r);
        lemma_read_prefix(p.drop_first(), r, d2);
    }
}

/// A prefix of a key-free scan is key-free.
proof fn lemma_key_prefix(p: Seq<Seq<char>>, r: Seq<Seq<char>>, d: bool)
    requires
        key_line_index(p + r, d) == -1,
    ensures
        key_line_index(p, d) == -1,
    decreases p.len(),
{
    if p.len() > 0 {
        let t = trim(p[0]);
        let d2 = if is_header(t) {
            is_debug_header(t)
        } else {
            d
        };
        assert((p + r)[0] == p[0]);
        assert((p + r).drop_first() =~= p.drop_first() + r);
        lemma_key_prefix(p.drop_first(), r, d2);
    }
}

/// Replacing the answering line by `x` makes the scan answer from `x`.
proof fn lemma_read_replaced(ls: Seq<Seq<char>>, d: bool, x: Seq<char>)
    requires
        key_line_index(ls, d) >= 0,
    ensures
        read_level_from(ls.update(key_line_index(ls, d), x), d) == read_level_from(
            seq![x] + ls.skip(key_line_index(ls, d) + 1),
            true,
        ),
    decreases ls.len(),
{
    let k = key_line_index(ls, d);
    lemma_key_line_index_range(ls, d);
    let u = ls.update(k, x);
    let t = trim(ls[0]);
    if k == 0 {
        assert(u =~= seq![x] + ls.skip(1));
    } else {
        let d2 = if is_header(t) {
            is_debug_header(t)
        } else {
            d
        };
        assert(u[0] == ls[0]);
        assert(u.drop_first() =~= ls.drop_first().update(k - 1, x));
        assert(ls.drop_first().skip(k) =~= ls.skip(k + 1));
        lemma_read_replaced(ls.drop_first(), d2, x);
    }
}

/// The set line reads back as the level.
proof fn lemma_read_level_line(level: int, r: Seq<Seq<char>>)
    requires
        i64::MIN <= level <= i64::MAX,
    ensures
        read_level_from(seq![level_line(level)] + r, true) == Some(level),
{
    reveal_strlit("LogLevel2=");
    reveal_strlit("loglevel2");
    let l = level_line(level);
    let v = decimal_int(level);
    let ls = seq![l] + r;
    assert(ls[0] == l);
    let key: Seq<char> = "LogLevel2="@;
    assert(key.len() == 10);
    assert(l.len() == 10 + v.len());
    // the value is a signed decimal: never empty, no whitespace at its ends
    if level < 0 {
        lemma_decimal((-level) as nat);
        assert(v == seq!['-'] + decimal((-level) as nat));
        assert(v.last() == decimal((-level) as nat).last());
        assert(crate::num::is_digit(decimal((-level) as nat).last()));
    } else {
        lemma_decimal(level as nat);
        assert(crate::num::is_digit(v.last()));
    }
    assert(l.last() == v.last());
    assert(l[0] == 'L');
    lemma_trim_identity(l);
    assert(trim(l) == l);
    assert(!is_header(l));
    // `=` first appears after the key name
    assert forall|j: int| 0 <= j < l.len() && j < 9 implies l[j] != '=' by {
        assert(l[j] == key[j]);
    }
    assert(l[9] == '=');
    lemma_index_of_is(l, '=', 9);
    let name = l.take(9);
    assert(name[0] == 'L' && name[8] == '2');
    lemma_trim_identity(name);
    assert(eq_ignore_case(name, "loglevel2"@));
    assert(is_level_key_line(l));
    // the value reads back
    assert(l.skip(10) =~= v);
    lemma_trim_identity(v);
    lemma_parse_decimal_int(level);
}

/// Setting the trace level and reading it back gives the level that was set.
pub proof fn lemma_set_then_read(cfg: Seq<char>, level: i64)
    ensures
        read_log_level_spec(set_log_level_spec(cfg, level as int)) == Some(level as int),
{
    reveal_strlit("[Debug]");
    reveal_strlit("[debug]");
    reveal_strlit("LogLevel2=");
    let ls = lines(cfg);
    let l = level_line(level as int);
    let out = updated_lines(ls, level as int);
    lemma_lines_no_newlines(cfg);
    // every written line is newline-free
    assert forall|j: int| 0 <= j < l.len() implies l[j] != '\n' by {
        if j >= 10 {
            if (level as int) < 0 {
                lemma_decimal((-(level as int)) as nat);
            } else {
                lemma_decimal(level as nat);
            }
            assert(l[j] == decimal_int(level as int)[j - 10]);
        }
    }
    assert(no_newlines(out)) by {
        assert forall|a: int, b: int| 0 <= a < out.len() && 0 <= b < out[a].len() implies out[a][b]
            != '\n' by {
            lemma_out_line(ls, level as int, a);
        }
    }
    assert(out.len() > 0) by {
        lemma_out_line(ls, level as int, 0);
    }
    lemma_read_concat(out, false);
    let k = key_line_index(ls, false);
    if k >= 0 {
        lemma_read_replaced(ls, false, l);
        lemma_read_level_line(level as int, ls.skip(k + 1));
    } else {
        let h = last_debug_header(ls);
        if h >= 0 {
            lemma_last_debug_header(ls);
            let p = ls.take(h + 1);
            assert(ls =~= p + ls.skip(h + 1));
            lemma_key_prefix(p, ls.skip(h + 1), false);
            assert(p =~= ls.take(h).push(ls[h]));
            lemma_state_after_push(ls.take(h), ls[h], false);
            lemma_debug_header_is_header(trim(ls[h]));
            assert(out =~= p + (seq![l] + ls.skip(h + 1)));
            lemma_read_prefix(p, seq![l] + ls.skip(h + 1), false);
            lemma_read_level_line(level as int, ls.skip(h + 1));
        } else {
            let s = state_after(ls, false);
            let hd: Seq<char> = "[Debug]"@;
            assert(trim(hd) == hd) by {
                lemma_trim_identity(hd);
            }
            assert(is_header(hd));
            assert(is_debug_header(hd));
            let tail2 = seq![hd, l];
            assert(read_level_from(tail2, s) == read_level_from(seq![l], true)) by {
                assert(tail2[0] == hd);
                assert(tail2.drop_first() =~= seq![l]);
            }
            lemma_read_level_line(level as int, Seq::<Seq<char>>::empty());
            assert(seq![l] + Seq::<Seq<char>>::empty() =~= seq![l]);
            if ls.len() > 0 && trim(ls.last()).len() > 0 {
                let e = Seq::<char>::empty();
                let tail3 = seq![e, hd, l];
                assert(out =~= ls + tail3);
                assert(trim(e) =~= e);
                assert(index_of(e, '=') == -1);
                assert(read_level_from(tail3, s) == read_level_from(tail2, s)) by {
                    assert(tail3[0] == e);
                    assert(tail3.drop_first() =~= tail2);
                }
                lemma_read_prefix(ls, tail3, false);
            } else {
                assert(out =~= ls + tail2);
                lemma_read_prefix(ls, tail2, false);
            }
        }
    }
}

/// The last `[Debug]` header really is one.
proof fn lemma_last_debug_header(ls: Seq<Seq<char>>)
    ensures
        -1 <= last_debug_header(ls) < ls.len(),
        last_debug_header(ls) >= 0 ==> is_debug_header(trim(ls[last_debug_header(ls)])),
    decreases ls.len(),
{
    if ls.len() > 0 && !is_debug_header(trim(ls.last())) {
        lemma_last_debug_header(ls.drop_last());
    }
}

/// Each line of the updated config is an input line or a written line.
proof fn lemma_out_line(ls: Seq<Seq<char>>, level: int, a: int)
    requires
        no_newlines(ls),
        forall|j: int| 0 <= j < level_line(level).len() ==> level_line(level)[j] != '\n',
    ensures
        updated_lines(ls, level).len() > 0,
        0 <= a < updated_lines(ls, level).len() ==> forall|b: int|
            0 <= b < updated_lines(ls, level)[a].len() ==> updated_lines(ls, level)[a][b] != '\n',
{
    reveal_strlit("[Debug]");
    let l = level_line(level);
    let out = updated_lines(ls, level);
    let k = key_line_index(ls, false);
    lemma_key_line_index_range(ls, false);
    lemma_last_debug_header(ls);
    if 0 <= a < out.len() {
        let h = last_debug_header(ls);
        if k < 0 && h < 0 {
            let hd: Seq<char> = "[Debug]"@;
            assert forall|b: int| 0 <= b < hd.len() implies hd[b] != '\n' by {
            }
        }
    }
}

proof fn lemma_key_line_index_range(ls: Seq<Seq<char>>, d: bool)
    ensures
        -1 <= key_line_index(ls, d) < ls.len(),
    decreases ls.len(),
{
    if ls.len() > 0 {
        let t = trim(ls[0]);
        lemma_key_line_index_range(ls.drop_first(), if is_header(t) {
            is_debug_header(t)
        } else {
            d
        });
    }
}

// ---------------------------------------------------------------------------
// the last-write-wins law

/// No line holds the character `c`.
pub open spec fn free_of(ls: Seq<Seq<char>>, c: char) -> bool {
    forall|i: int, j: int| 0 <= i < ls.len() && 0 <= j < ls[i].len() ==> ls[i][j] != c
}

/// Lines of a text without `c` hold no `c`.
proof fn lemma_lines_free_of(s: Seq<char>, c: char)
    requires
        !s.contains(c),
    ensures
        free_of(lines(s), c),
    decreases s.len(),
{
    if s.len() > 0 {
        let i = index_of(s, '\n');
        lemma_index_of(s, '\n');
        if 0 <= i < s.len() {
            let rest = s.skip(i + 1);
            assert forall|j: int| 0 <= j < rest.len() implies rest[j] != c by {
                assert(rest[j] == s[i + 1 + j]);
            }
            lemma_lines_free_of(rest, c);
            let first = strip_cr(s.take(i));
            assert forall|j: int| 0 <= j < first.len() implies first[j] != c by {
                assert(first[j] == s[j]);
            }
            let ls = lines(s);
            assert forall|a: int, b: int| 0 <= a < ls.len() && 0 <= b < ls[a].len() implies ls[a][b]
                != c by {
                if a > 0 {
                    assert(ls[a] == lines(rest)[a - 1]);
                }
            }
        } else {
            assert forall|b: int| 0 <= b < s.len() implies s[b] != c by {}
        }
    }
}

/// Splitting joined lines that hold no newline and no carriage return
/// gives the lines back.
proof fn lemma_lines_concat(ls: Seq<Seq<char>>)
    requires
        free_of(ls, '\n'),
        free_of(ls, '\r'),
    ensures
        lines(concat_lines(ls)) == ls,
    decreases ls.len(),
{
    if ls.len() > 0 {
        let l0 = ls[0];
        let rest = ls.drop_first();
        let c = concat_lines(ls);
        let cr = concat_lines(rest);
        assert(c == l0.push('\n') + cr);
        assert forall|a: int, b: int| 0 <= a < rest.len() && 0 <= b < rest[a].len() implies rest[a][b]
            != '\n' && rest[a][b] != '\r' by {
            assert(rest[a] == ls[a + 1]);
        }
        lemma_lines_concat(rest);
        assert forall|j: int| 0 <= j < c.len() && j < l0.len() implies c[j] != '\n' by {
            assert(c[j] == l0[j]);
        }
        assert(c[l0.len() as int] == '\n');
        lemma_index_of_is(c, '\n', l0.len() as int);
        assert(c.take(l0.len() as int) =~= l0);
        assert(c.skip(l0.len() as int + 1) =~= cr);
        if l0.len() > 0 {
            assert(l0.last() != '\r');
        }
        assert(strip_cr(l0) == l0);
        assert(lines(c) =~= seq![l0] + rest);
        assert(seq![l0] + rest =~= ls);
    }
}

/// Where the scan of `p + r` meets its `LogLevel2` key.
proof fn lemma_key_index_concat(p: Seq<Seq<char>>, r: Seq<Seq<char>>, d: bool)
    ensures
        key_line_index(p + r, d) == (if key_line_index(p, d) >= 0 {
            key_line_index(p, d)
        } else if key_line_index(r, state_after(p, d)) >= 0 {
            p.len() + key_line_index(r, state_after(p, d))
        } else {
            -1
        }),
    decreases p.len(),
{
    if p.len() == 0 {
        assert(p + r =~= r);
    } else {
        let t = trim(p[0]);
        let d2 = if is_header(t) {
            is_debug_header(t)
        } else {
            d
        };
        assert((p + r)[0] == p[0]);
        assert((p + r).drop_first() =~= p.drop_first() + r);
        lemma_key_index_concat(p.drop_first(), r, d2);
    }
}

/// The written `LogLevel2=<level>` line is a trimmed key line.
proof fn lemma_level_line_is_key(level: int)
    requires
        i64::MIN <= level <= i64::MAX,
    ensures
        trim(level_line(level)) == level_line(level),
        !is_header(level_line(level)),
        is_level_key_line(level_line(level)),
{
    reveal_strlit("LogLevel2=");
    reveal_strlit("loglevel2");
    let l = level_line(level);
    let v = decimal_int(level);
    let key: Seq<char> = "LogLevel2="@;
    if level < 0 {
        lemma_decimal((-level) as nat);
        assert(v.last() == decimal((-level) as nat).last());
        assert(crate::num::is_digit(decimal((-level) as nat).last()));
    } else {
        lemma_decimal(level as nat);
        assert(crate::num::is_digit(v.last()));
    }
    assert(l.last() == v.last());
    assert(l[0] == 'L');
    lemma_trim_identity(l);
    assert forall|j: int| 0 <= j < l.len() && j < 9 implies l[j] != '=' by {
        assert(l[j] == key[j]);
    }
    assert(l[9] == '=');
    lemma_index_of_is(l, '=', 9);
    let name = l.take(9);
    assert(name[0] == 'L' && name[8] == '2');
    lemma_trim_identity(name);
    assert(eq_ignore_case(name, "loglevel2"@));
}

/// One edit, then a second: the second lands where the first did.
proof fn lemma_update_twice(ls: Seq<Seq<char>>, a: i64, b: i64)
    ensures
        updated_lines(updated_lines(ls, a as int), b as int) == updated_lines(ls, b as int),
{
    reveal_strlit("[Debug]");
    reveal_strlit("[debug]");
    let la = level_line(a as int);
    let lb = level_line(b as int);
    lemma_level_line_is_key(a as int);
    let u = updated_lines(ls, a as int);
    let k = key_line_index(ls, false);
    lemma_key_line_index_range(ls, false);
    if k >= 0 {
        let p = ls.take(k);
        let q = ls.skip(k);
        assert(ls =~= p + q);
        lemma_key_index_concat(p, q, false);
        lemma_key_line_index_range(p, false);
        assert(p.len() == k);
        let s = state_after(p, false);
        assert(key_line_index(p, false) == -1);
        assert(key_line_index(q, s) == 0);
        assert(q[0] == ls[k]);
        let r = seq![la] + ls.skip(k + 1);
        assert(u =~= p + r);
        lemma_key_index_concat(p, r, false);
        assert(r[0] == la);
        assert(key_line_index(r, s) == 0);
        assert(u.update(k, lb) =~= ls.update(k, lb));
    } else {
        let h = last_debug_header(ls);
        lemma_last_debug_header(ls);
        if h >= 0 {
            let p = ls.take(h + 1);
            assert(ls =~= p + ls.skip(h + 1));
            lemma_key_prefix(p, ls.skip(h + 1), false);
            assert(p =~= ls.take(h).push(ls[h]));
            lemma_state_after_push(ls.take(h), ls[h], false);
            lemma_debug_header_is_header(trim(ls[h]));
            let r = seq![la] + ls.skip(h + 1);
            assert(u =~= p + r);
            lemma_key_index_concat(p, r, false);
            assert(r[0] == la);
            assert(key_line_index(r, true) == 0);
            assert(u.update(h + 1, lb) =~= ls.insert(h + 1, lb));
        } else {
            let hd: Seq<char> = "[Debug]"@;
            lemma_trim_identity(hd);
            assert(is_header(hd));
            assert(is_debug_header(hd));
            let base = if ls.len() > 0 && trim(ls.last()).len() > 0 {
                ls.push(Seq::<char>::empty())
            } else {
                ls
            };
            let e = Seq::<char>::empty();
            assert(key_line_index(base, false) == -1) by {
                if base.len() > ls.len() {
                    assert(base =~= ls + seq![e]);
                    lemma_key_index_concat(ls, seq![e], false);
                    assert(trim(e) =~= e);
                    assert(index_of(e, '=') == -1);
                    assert(seq![e].drop_first() =~= Seq::<Seq<char>>::empty());
                    let s0 = state_after(ls, false);
                    assert(seq![e][0] == e);
                    assert(key_line_index(Seq::<Seq<char>>::empty(), s0) == -1);
                    assert(key_line_index(seq![e], s0) == -1);
                }
            }
            let r = seq![hd, la];
            assert(u =~= base + r);
            lemma_key_index_concat(base, r, false);
            assert(r[0] == hd);
            assert(r.drop_first() =~= seq![la]);
            assert(trim(hd) == hd);
            assert(seq![la][0] == la);
            assert(key_line_index(seq![la], true) == 0);
            assert(key_line_index(r, state_after(base, false)) == 1);
            assert(u.update(base.len() as int + 1, lb) =~= base.push(hd).push(lb));
        }
    }
}

/// Setting the trace level twice is setting it once with the last level:
/// the last write wins and nothing accumulates (for config text without
/// carriage returns, which the rewrite normalises away).
pub proof fn lemma_set_twice(cfg: Seq<char>, a: i64, b: i64)
    requires
        !cfg.contains('\r'),
    ensures
        set_log_level_spec(set_log_level_spec(cfg, a as int), b as int) == set_log_level_spec(
            cfg,
            b as int,
        ),
{
    reveal_strlit("[Debug]");
    reveal_strlit("LogLevel2=");
    let ls = lines(cfg);
    let l = level_line(a as int);
    let out = updated_lines(ls, a as int);
    lemma_lines_no_newlines(cfg);
    lemma_lines_free_of(cfg, '\r');
    let digits_ok = forall|j: int| 0 <= j < l.len() ==> l[j] != '\n' && l[j] != '\r';
    assert(digits_ok) by {
        assert forall|j: int| 0 <= j < l.len() implies l[j] != '\n' && l[j] != '\r' by {
            if j >= 10 {
                if (a as int) < 0 {
                    lemma_decimal((-(a as int)) as nat);
                    if j >= 11 {
                        assert(crate::num::is_digit(decimal((-(a as int)) as nat)[j - 11]));
                    }
                } else {
                    lemma_decimal(a as nat);
                    assert(crate::num::is_digit(decimal(a as nat)[j - 10]));
                }
                assert(l[j] == decimal_int(a as int)[j - 10]);
            }
        }
    }
    assert(free_of(out, '\n') && free_of(out, '\r') && out.len() > 0) by {
        lemma_out_line(ls, a as int, 0);
        assert forall|x: int, y: int| 0 <= x < out.len() && 0 <= y < out[x].len() implies out[x][y]
            != '\n' && out[x][y] != '\r' by {
            lemma_out_line(ls, a as int, x);
            lemma_key_line_index_range(ls, false);
            lemma_last_debug_header(ls);
            let hd: Seq<char> = "[Debug]"@;
            assert forall|z: int| 0 <= z < hd.len() implies hd[z] != '\r' by {}
        }
    }
    lemma_lines_concat(out);
    lemma_update_twice(ls, a, b);
}

} // verus!
