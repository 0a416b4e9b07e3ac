//! Column descriptions from the agent's C++ table headers. A `DbSa<Name>.h`
//! header names its table in `GetTableName`, includes the `Struc*.h` file
//! that declares the row struct, and binds each column to a field of that
//! struct; the comment lines above a field describe its column.

use vstd::prelude::*;
use crate::cli::starts_with;
use crate::db::{clean_name, ends_with, is_process_tree, remove_char, upper_chars, upper_text};
use crate::text::{chars_of, contains, contains_chars, find_char, find_pat, find_pattern, index_of,
    joined, lines, match_at, matches_at, push_str, split_lines, string_of, string_of_range, trim,
    trim_chars, views};

verus! {

// ---------------------------------------------------------------------------
// identifiers

/// A character of a C++ identifier.
pub open spec fn ident_char(c: char) -> bool {
    ('a' <= c && c <= 'z') || ('A' <= c && c <= 'Z') || ('0' <= c && c <= '9') || c == '_'
}

fn is_ident_char(c: char) -> (r: bool)
    ensures
        r == ident_char(c),
{
    ('a' <= c && c <= 'z') || ('A' <= c && c <= 'Z') || ('0' <= c && c <= '9') || c == '_'
}

/// Length of the identifier at the start of `s`.
pub open spec fn lead_len(s: Seq<char>) -> nat
    decreases s.len(),
{
    if s.len() == 0 || !ident_char(s[0]) {
        0
    } else {
        1 + lead_len(s.drop_first())
    }
}

/// The identifier at the start of `s` (the first piece of `s` split at
/// non-identifier characters).
pub open spec fn leading_ident(s: Seq<char>) -> Seq<char> {
    s.take(lead_len(s) as int)
}

proof fn lemma_lead_len_is(s: Seq<char>, k: int)
    requires
        0 <= k <= s.len(),
        forall|j: int| 0 <= j < k ==> ident_char(#[trigger] s[j]),
        k == s.len() || !ident_char(s[k]),
    ensures
        lead_len(s) == k,
    decreases k,
{
    if k > 0 {
        assert forall|j: int| 0 <= j < k - 1 implies ident_char(#[trigger] s.drop_first()[j]) by {
            assert(s.drop_first()[j] == s[j + 1]);
        }
        if k < s.len() {
            assert(s.drop_first()[k - 1] == s[k]);
        }
        lemma_lead_len_is(s.drop_first(), k - 1);
    }
}

/// Length of the identifier at the end of `s`.
pub open spec fn tail_len(s: Seq<char>) -> nat
    decreases s.len(),
{
    if s.len() == 0 || !ident_char(s.last()) {
        0
    } else {
        1 + tail_len(s.drop_last())
    }
}

/// The last identifier in `s` (the last non-empty piece of `s` split at
/// non-identifier characters), if any.
pub open spec fn last_ident(s: Seq<char>) -> Option<Seq<char>>
    decreases s.len(),
{
    if s.len() == 0 {
        None
    } else if !ident_char(s.last()) {
        last_ident(s.drop_last())
    } else {
        Some(s.skip(s.len() - tail_len(s)))
    }
}

proof fn lemma_tail_len_bound(s: Seq<char>)
    ensures
        tail_len(s) <= s.len(),
    decreases s.len(),
{
    if s.len() > 0 && ident_char(s.last()) {
        lemma_tail_len_bound(s.drop_last());
    }
}

/// The identifier starting at `from` in `s`, as an end index.
fn lead_end(s: &[char], from: usize) -> (e: usize)
    requires
        from <= s@.len(),
    ensures
        from <= e <= s@.len(),
        s@.subrange(from as int, e as int) == leading_ident(s@.skip(from as int)),
{
    let mut e = from;
    while e < s.len() && is_ident_char(s[e])
        invariant
            from <= e <= s@.len(),
            forall|j: int| from <= j < e ==> ident_char(#[trigger] s@[j]),
        decreases s.len() - e,
    {
        e += 1;
    }
    proof {
        let t = s@.skip(from as int);
        assert forall|j: int| 0 <= j < e - from implies ident_char(#[trigger] t[j]) by {
            assert(t[j] == s@[from + j]);
        }
        if e < s@.len() {
            assert(t[e - from] == s@[e as int]);
        }
        lemma_lead_len_is(t, e - from);
        assert(t.take(e - from) =~= s@.subrange(from as int, e as int));
    }
    e
}

/// The range of the last identifier in `s[..to]`.
fn last_ident_range(s: &[char], to: usize) -> (r: Option<(usize, usize)>)
    requires
        to <= s@.len(),
    ensures
        match last_ident(s@.take(to as int)) {
            Some(t) => r matches Some((a, b)) && a < b <= to && s@.subrange(a as int, b as int) == t,
            None => r is None,
        },
{
    let mut e = to;
    while e > 0 && !is_ident_char(s[e - 1])
        invariant
            e <= to <= s@.len(),
            last_ident(s@.take(to as int)) == last_ident(s@.take(e as int)),
        decreases e,
    {
        assert(s@.take(e as int).drop_last() =~= s@.take(e - 1));
        assert(s@.take(e as int).last() == s@[e - 1]);
        e -= 1;
    }
    if e == 0 {
        assert(s@.take(0).len() == 0);
        return None;
    }
    let mut b = e;
    while b > 0 && is_ident_char(s[b - 1])
        invariant
            0 < e <= to <= s@.len(),
            b <= e,
            ident_char(s@[e - 1]),
            tail_len(s@.take(e as int)) == (e - b) + tail_len(s@.take(b as int)),
        decreases b,
    {
        assert(s@.take(b as int).drop_last() =~= s@.take(b - 1));
        assert(s@.take(b as int).last() == s@[b - 1]);
        b -= 1;
    }
    proof {
        if b > 0 {
            assert(s@.take(b as int).last() == s@[b - 1]);
        }
        assert(tail_len(s@.take(b as int)) == 0);
        assert(s@.take(e as int).last() == s@[e - 1]);
        assert(s@.take(e as int).skip(b as int) =~= s@.subrange(b as int, e as int));
    }
    Some((b, e))
}

// ---------------------------------------------------------------------------
// which table a header describes

/// The text between `_T("` and the next `"`, if the line has both.
pub open spec fn t_literal(line: Seq<char>) -> Option<Seq<char>> {
    let i = find_pat(line, "_T(\""@);
    if i < 0 {
        None
    } else {
        let rest = line.skip(i + 4);
        let e = index_of(rest, '"');
        if e < 0 {
            None
        } else {
            Some(rest.take(e))
        }
    }
}

/// Executable `t_literal`, as a range.
fn t_literal_range(line: &Vec<char>) -> (r: Option<(usize, usize)>)
    ensures
        match t_literal(line@) {
            Some(t) => r matches Some((a, b)) && a <= b <= line@.len() && line@.subrange(
                a as int,
                b as int,
            ) == t,
            None => r is None,
        },
{
    let pat = chars_of("_T(\"");
    proof {
        reveal_strlit("_T(\"");
    }
    match find_pattern(line, &pat) {
        Some(i) => {
            let n = line.len();
            assert(line@.skip(i + 4) =~= line@.subrange(i + 4, n as int));
            match find_char(line, i + 4, n, '"') {
                Some(e) => {
                    assert(line@.skip(i + 4).take(e - (i + 4)) =~= line@.subrange(i + 4, e as int));
                    Some((i + 4, e))
                },
                None => None,
            }
        },
        None => None,
    }
}

/// The names given in `GetTableName` lines, in order (before uppercasing).
pub open spec fn declared_names(ls: Seq<Seq<char>>) -> Seq<Seq<char>>
    decreases ls.len(),
{
    if ls.len() == 0 {
        Seq::empty()
    } else {
        let rest = declared_names(ls.drop_last());
        let l = ls.last();
        if contains(l, "GetTableName"@) {
            match t_literal(l) {
                Some(n) => rest.push(n),
                None => rest,
            }
        } else {
            rest
        }
    }
}

/// The name in the body of a multi-line `GetTableName`: the first `_T("..")`
/// after it, unless a `}` closes the body first (`{` lines are skipped).
pub open spec fn body_name(ls: Seq<Seq<char>>, inside: bool) -> Option<Seq<char>>
    decreases ls.len(),
{
    if ls.len() == 0 {
        None
    } else {
        let l = ls[0];
        let rest = ls.drop_first();
        if contains(l, "GetTableName"@) {
            body_name(rest, true)
        } else if inside && contains(l, "{"@) {
            body_name(rest, inside)
        } else if inside && contains(l, "_T(\""@) {
            match t_literal(l) {
                Some(n) => Some(n),
                None => body_name(rest, inside),
            }
        } else if inside && contains(l, "}"@) {
            None
        } else {
            body_name(rest, inside)
        }
    }
}

/// Whether a file name is a table header: `DbSa*.h`.
pub open spec fn is_table_header(f: Seq<char>) -> bool {
    starts_with(f, "DbSa"@) && ends_with(f, ".h"@)
}

/// The table name a header's file name implies: its stem, uppercased,
/// with `SA` in front unless it starts so already.
pub open spec fn stem_table(f: Seq<char>) -> Seq<char> {
    let u = upper_text(f.subrange(4, f.len() - 2));
    if starts_with(u, "SA"@) {
        u
    } else {
        "SA"@ + u
    }
}

/// `str::to_uppercase`: the full Unicode uppercase mapping.
pub uninterp spec fn unicode_upper(s: Seq<char>) -> Seq<char>;

/// `str::to_uppercase`; the contract names the result and says no more of it.
#[verifier::external_body]
fn to_uppercase(s: &str) -> (r: String)
    ensures
        r@ == unicode_upper(s@),
{
    s.to_uppercase()
}

/// The tables a header describes: the names in `GetTableName` lines, else
/// the first name in a `GetTableName` body, else the name its file name
/// implies; the first two uppercased.
pub open spec fn header_names(f: Seq<char>, content: Seq<char>) -> Seq<Seq<char>> {
    let ls = lines(content);
    let d = declared_names(ls);
    if d.len() > 0 {
        d.map_values(|n: Seq<char>| unicode_upper(n))
    } else {
        match body_name(ls, false) {
            Some(n) => seq![unicode_upper(n)],
            None => seq![stem_table(f)],
        }
    }
}

/// The keys a table is found under: its name, and the name without
/// underscores when that differs.
pub open spec fn name_keys(names: Seq<Seq<char>>) -> Seq<Seq<char>>
    decreases names.len(),
{
    if names.len() == 0 {
        Seq::empty()
    } else {
        let rest = name_keys(names.drop_last());
        let t = names.last();
        let c = remove_char(t, '_');
        if c != t {
            rest.push(t).push(c)
        } else {
            rest.push(t)
        }
    }
}

/// The keys under which a header file is found: none unless it is a table
/// header.
pub open spec fn header_keys_spec(f: Seq<char>, content: Seq<char>) -> Seq<Seq<char>> {
    if is_table_header(f) {
        name_keys(header_names(f, content))
    } else {
        Seq::empty()
    }
}

fn lit_in(l: &Vec<char>, lit: &str) -> (r: bool)
    ensures
        r == contains(l@, lit@),
{
    contains_chars(l, &chars_of(lit))
}

/// The names of the `GetTableName` lines.
fn declared_list(ls: &Vec<Vec<char>>) -> (r: Vec<Vec<char>>)
    ensures
        r@.map_values(|v: Vec<char>| v@) == declared_names(ls@.map_values(|v: Vec<char>| v@)),
{
    let ghost lv = ls@.map_values(|v: Vec<char>| v@);
    let mut out: Vec<Vec<char>> = Vec::new();
    let mut i: usize = 0;
    while i < ls.len()
        invariant
            lv == ls@.map_values(|v: Vec<char>| v@),
            i <= ls@.len(),
            out@.map_values(|v: Vec<char>| v@) == declared_names(lv.take(i as int)),
        decreases ls.len() - i,
    {
        let l = &ls[i];
        assert(lv.take(i + 1).drop_last() =~= lv.take(i as int));
        assert(lv.take(i + 1).last() == l@);
        let ghost before = out@;
        if lit_in(l, "GetTableName") {
            match t_literal_range(l) {
                Some((a, b)) => {
                    let mut n: Vec<char> = Vec::new();
                    let mut k = a;
                    while k < b
                        invariant
                            a <= k <= b <= l@.len(),
                            n@ == l@.subrange(a as int, k as int),
                        decreases b - k,
                    {
                        n.push(l[k]);
                        k += 1;
                    }
                    out.push(n);
                    assert(out@.map_values(|v: Vec<char>| v@) =~= before.map_values(|v: Vec<char>| v@).push(
                        l@.subrange(a as int, b as int),
                    ));
                },
                None => {},
            }
        }
        i += 1;
    }
    assert(lv.take(i as int) =~= lv);
    out
}

/// The name in a multi-line `GetTableName` body.
fn body_name_range(ls: &Vec<Vec<char>>) -> (r: Option<(usize, usize, usize)>)
    ensures
        match body_name(ls@.map_values(|v: Vec<char>| v@), false) {
            Some(t) => r matches Some((i, a, b)) && i < ls@.len() && a <= b <= ls@[i as int]@.len()
                && ls@[i as int]@.subrange(a as int, b as int) == t,
            None => r is None,
        },
{
    let ghost lv = ls@.map_values(|v: Vec<char>| v@);
    let mut inside = false;
    let mut i: usize = 0;
    assert(lv.skip(0) =~= lv);
    while i < ls.len()
        invariant
            lv == ls@.map_values(|v: Vec<char>| v@),
            i <= ls@.len(),
            body_name(lv, false) == body_name(lv.skip(i as int), inside),
        decreases ls.len() - i,
    {
        let l = &ls[i];
        assert(lv.skip(i as int)[0] == l@);
        assert(lv.skip(i as int).drop_first() =~= lv.skip(i + 1));
        if lit_in(l, "GetTableName") {
            inside = true;
        } else if inside && lit_in(l, "{") {
        } else if inside && lit_in(l, "_T(\"") {
            match t_literal_range(l) {
                Some((a, b)) => {
                    return Some((i, a, b));
                },
                None => {},
            }
        } else if inside && lit_in(l, "}") {
            return None;
        }
        i += 1;
    }
    None
}

/// `remove_char(s, '_')`.
fn without_underscores(s: &Vec<char>) -> (r: Vec<char>)
    ensures
        r@ == remove_char(s@, '_'),
{
    let mut r: Vec<char> = Vec::new();
    let mut i: usize = 0;
    while i < s.len()
        invariant
            i <= s@.len(),
            r@ == remove_char(s@.take(i as int), '_'),
        decreases s.len() - i,
    {
        proof {
            reveal_with_fuel(Seq::filter, 1);
            assert(s@.take(i + 1).drop_last() =~= s@.take(i as int));
        }
        if s[i] != '_' {
            r.push(s[i]);
        }
        i += 1;
    }
    assert(s@.take(i as int) =~= s@);
    r
}

/// Whether a file name is a table header (`is_table_header`).
fn is_header_name(f: &Vec<char>) -> (r: bool)
    ensures
        r == is_table_header(f@),
{
    let dbsa = chars_of("DbSa");
    let dot_h = chars_of(".h");
    proof {
        reveal_strlit("DbSa");
        reveal_strlit(".h");
    }
    let r = match_at(f, 0, &dbsa) && f.len() >= 2 && match_at(f, f.len() - 2, &dot_h);
    proof {
        assert(starts_with(f@, "DbSa"@) == matches_at(f@, 0, "DbSa"@)) by {
            if "DbSa"@.len() <= f@.len() {
                assert(f@.take(4) =~= f@.subrange(0, 4));
            }
        }
        if f@.len() >= 2 {
            assert(ends_with(f@, ".h"@) == matches_at(f@, f@.len() - 2, ".h"@)) by {
                assert(f@.skip(f@.len() - 2) =~= f@.subrange(f@.len() - 2, f@.len() as int));
            }
        }
    }
    r
}

/// The table name a header's file name implies (`stem_table`).
fn stem_name(f: &Vec<char>) -> (r: String)
    requires
        is_table_header(f@),
    ensures
        r@ == stem_table(f@),
{
    proof {
        reveal_strlit("DbSa");
        reveal_strlit(".h");
    }
    assert(f@.len() >= 6) by {
        if f@.len() < 6 {
            assert(f@.take(4)[3] == f@[3]);
            assert(f@.take(4)[2] == f@[2]);
            assert(f@.skip(f@.len() - 2)[0] == f@[f@.len() - 2]);
            assert("DbSa"@[2] == 'S' && "DbSa"@[3] == 'a' && ".h"@[0] == '.');
        }
    }
    let mid = string_of_range(f, 4, f.len() - 2);
    let stem = upper_chars(&chars_of(mid.as_str()));
    let sa = chars_of("SA");
    proof {
        reveal_strlit("SA");
        assert(starts_with(stem@, "SA"@) == matches_at(stem@, 0, "SA"@)) by {
            if 2 <= stem@.len() {
                assert(stem@.take(2) =~= stem@.subrange(0, 2));
            }
        }
    }
    let mut t = String::new();
    if !match_at(&stem, 0, &sa) {
        push_str(&mut t, "SA");
    }
    let st = string_of(&stem);
    push_str(&mut t, st.as_str());
    t
}

/// The uppercased names of `GetTableName` lines.
fn upper_names(declared: &Vec<Vec<char>>) -> (r: Vec<String>)
    ensures
        views(r@) == declared@.map_values(|v: Vec<char>| v@).map_values(|n: Seq<char>| unicode_upper(n)),
{
    let ghost dv = declared@.map_values(|v: Vec<char>| v@);
    let mut names: Vec<String> = Vec::new();
    let mut i: usize = 0;
    while i < declared.len()
        invariant
            dv == declared@.map_values(|v: Vec<char>| v@),
            i <= declared@.len(),
            views(names@) == dv.take(i as int).map_values(|n: Seq<char>| unicode_upper(n)),
        decreases declared.len() - i,
    {
        let n = string_of(&declared[i]);
        let u = to_uppercase(n.as_str());
        let ghost before = views(names@);
        names.push(u);
        assert(dv[i as int] == declared@[i as int]@);
        assert(dv.take(i + 1) =~= dv.take(i as int).push(dv[i as int]));
        assert(dv.take(i + 1).map_values(|n: Seq<char>| unicode_upper(n)) =~= dv.take(i as int).map_values(
            |n: Seq<char>| unicode_upper(n),
        ).push(unicode_upper(dv[i as int])));
        assert(views(names@) =~= before.push(u@));
        assert(views(names@) =~= dv.take(i + 1).map_values(|n: Seq<char>| unicode_upper(n)));
        i += 1;
    }
    assert(dv.take(i as int) =~= dv);
    names
}

/// The tables a header describes (`header_names`).
fn header_name_list(f: &Vec<char>, content: &str) -> (r: Vec<String>)
    requires
        is_table_header(f@),
    ensures
        views(r@) == header_names(f@, content@),
{
    let text = chars_of(content);
    let ls = split_lines(&text);
    let ghost lv = ls@.map_values(|v: Vec<char>| v@);
    assert(lv =~= lines(content@));
    let declared = declared_list(&ls);
    if declared.len() > 0 {
        return upper_names(&declared);
    }
    let mut names: Vec<String> = Vec::new();
    match body_name_range(&ls) {
        Some((i, a, b)) => {
            let n = string_of_range(&ls[i], a, b);
            names.push(to_uppercase(n.as_str()));
            assert(views(names@) =~= seq![unicode_upper(ls@[i as int]@.subrange(a as int, b as int))]);
        },
        None => {
            names.push(stem_name(f));
            assert(views(names@) =~= seq![stem_table(f@)]);
        },
    }
    names
}

/// The keys of a list of table names (`name_keys`).
fn keys_of(names: &Vec<String>) -> (r: Vec<String>)
    ensures
        views(r@) == name_keys(views(names@)),
{
    let mut keys: Vec<String> = Vec::new();
    let mut i: usize = 0;
    while i < names.len()
        invariant
            i <= names@.len(),
            views(keys@) == name_keys(views(names@).take(i as int)),
        decreases names.len() - i,
    {
        let t = chars_of(names[i].as_str());
        let c = without_underscores(&t);
        assert(views(names@).take(i + 1).drop_last() =~= views(names@).take(i as int));
        assert(views(names@).take(i + 1).last() == t@);
        let ghost before = views(keys@);
        keys.push(names[i].clone());
        if !crate::text::seq_eq(&c, &t) {
            keys.push(string_of(&c));
        }
        assert(views(keys@) =~= name_keys(views(names@).take(i + 1)));
        i += 1;
    }
    assert(views(names@).take(i as int) =~= views(names@));
    keys
}

/// The keys under which a header file is found, by its file name and
/// contents (see `header_keys_spec`).
pub fn header_keys(file_name: &str, content: &str) -> (r: Vec<String>)
    ensures
        views(r@) == header_keys_spec(file_name@, content@),
{
    let f = chars_of(file_name);
    if !is_header_name(&f) {
        let keys: Vec<String> = Vec::new();
        assert(views(keys@) =~= Seq::<Seq<char>>::empty());
        return keys;
    }
    let names = header_name_list(&f, content);
    keys_of(&names)
}

// ---------------------------------------------------------------------------
// the struct header a table header includes

/// The quoted file of an `#include` line that mentions `Struc`.
pub open spec fn include_target(line: Seq<char>) -> Option<Seq<char>> {
    if starts_with(trim(line), "#include"@) && contains(line, "Struc"@) {
        let i = index_of(line, '"');
        if i < 0 {
            None
        } else {
            let rest = line.skip(i + 1);
            let e = index_of(rest, '"');
            if e < 0 {
                None
            } else {
                Some(rest.take(e))
            }
        }
    } else {
        None
    }
}

/// The `Struc` includes of a header, in order.
pub open spec fn struc_includes_spec(ls: Seq<Seq<char>>) -> Seq<Seq<char>>
    decreases ls.len(),
{
    if ls.len() == 0 {
        Seq::empty()
    } else {
        let rest = struc_includes_spec(ls.drop_last());
        match include_target(ls.last()) {
            Some(t) => rest.push(t),
            None => rest,
        }
    }
}

/// The files a header includes that may declare its row struct, in order;
/// the first that exists next to the header is the one.
pub fn struc_includes(content: &str) -> (r: Vec<String>)
    ensures
        views(r@) == struc_includes_spec(lines(content@)),
{
    let text = chars_of(content);
    let ls = split_lines(&text);
    let ghost lv = ls@.map_values(|v: Vec<char>| v@);
    assert(lv =~= lines(content@));
    let inc = chars_of("#include");
    proof {
        reveal_strlit("#include");
    }
    let mut out: Vec<String> = Vec::new();
    let mut i: usize = 0;
    while i < ls.len()
        invariant
            lv == ls@.map_values(|v: Vec<char>| v@),
            inc@ == "#include"@,
            i <= ls@.len(),
            views(out@) == struc_includes_spec(lv.take(i as int)),
        decreases ls.len() - i,
    {
        let l = &ls[i];
        assert(lv.take(i + 1).drop_last() =~= lv.take(i as int));
        assert(lv.take(i + 1).last() == l@);
        let ghost before = views(out@);
        let t = trim_chars(l);
        proof {
            assert(starts_with(t@, "#include"@) == matches_at(t@, 0, "#include"@)) by {
                if 8 <= t@.len() {
                    assert(t@.take(8) =~= t@.subrange(0, 8));
                }
            }
        }
        if match_at(&t, 0, &inc) && lit_in(l, "Struc") {
            let n = l.len();
            assert(l@.subrange(0, n as int) =~= l@);
            match find_char(l, 0, n, '"') {
                Some(q) => {
                    assert(l@.skip(q + 1) =~= l@.subrange(q + 1, n as int));
                    match find_char(l, q + 1, n, '"') {
                        Some(e) => {
                            assert(l@.skip(q + 1).take(e - (q + 1)) =~= l@.subrange(q + 1, e as int));
                            out.push(string_of_range(l, q + 1, e));
                            assert(views(out@) =~= before.push(l@.subrange(q + 1, e as int)));
                        },
                        None => {},
                    }
                },
                None => {},
            }
        }
        i += 1;
    }
    assert(lv.take(i as int) =~= lv);
    out
}


// ---------------------------------------------------------------------------
// columns bound to struct fields

/// The column and struct field an `ADO_` binding line names: the
/// identifier after `m_struc.`, and the last identifier before `_ORD`
/// (uppercased).
pub open spec fn column_field(line: Seq<char>) -> Option<(Seq<char>, Seq<char>)> {
    if contains(line, "ADO_"@) && contains(line, "m_struc."@) {
        let si = find_pat(line, "m_struc."@);
        let field = leading_ident(line.skip(si + 8));
        if field.len() == 0 {
            None
        } else {
            let oi = find_pat(line, "_ORD"@);
            if oi < 0 {
                None
            } else {
                match last_ident(line.take(oi)) {
                    Some(col) => Some((upper_text(col), field)),
                    None => None,
                }
            }
        }
    } else {
        None
    }
}

/// The bindings of a table header's lines, in order.
pub open spec fn column_fields_spec(ls: Seq<Seq<char>>) -> Seq<(Seq<char>, Seq<char>)>
    decreases ls.len(),
{
    if ls.len() == 0 {
        Seq::empty()
    } else {
        let rest = column_fields_spec(ls.drop_last());
        match column_field(ls.last()) {
            Some(p) => rest.push(p),
            None => rest,
        }
    }
}

/// The views of a list of string pairs.
pub open spec fn pair_views(v: Seq<(String, String)>) -> Seq<(Seq<char>, Seq<char>)> {
    v.map_values(|p: (String, String)| (p.0@, p.1@))
}

/// Executable `column_field`.
fn column_field_of(l: &Vec<char>) -> (r: Option<(String, String)>)
    ensures
        match column_field(l@) {
            Some(p) => r matches Some(q) && q.0@ == p.0 && q.1@ == p.1,
            None => r is None,
        },
{
    if !(lit_in(l, "ADO_") && lit_in(l, "m_struc.")) {
        return None;
    }
    let ms = chars_of("m_struc.");
    proof {
        reveal_strlit("m_struc.");
    }
    let si = match find_pattern(l, &ms) {
        Some(si) => si,
        None => {
            return None;
        },
    };
    assert(ms@.len() == 8);
    assert(matches_at(l@, si as int, ms@));
    let n = l.len();
    assert(si + 8 <= n);
    let fe = lead_end(l, si + 8);
    if fe == si + 8 {
        return None;
    }
    let ord = chars_of("_ORD");
    match find_pattern(l, &ord) {
        Some(oi) => match last_ident_range(l, oi) {
            Some((a, b)) => {
                let col = string_of_range(l, a, b);
                let up = upper_chars(&chars_of(col.as_str()));
                Some((string_of(&up), string_of_range(l, si + 8, fe)))
            },
            None => None,
        },
        None => None,
    }
}

/// The column-to-field bindings of a table header, in order.
pub fn column_fields(dbsa: &str) -> (r: Vec<(String, String)>)
    ensures
        pair_views(r@) == column_fields_spec(lines(dbsa@)),
{
    let text = chars_of(dbsa);
    let ls = split_lines(&text);
    let ghost lv = ls@.map_values(|v: Vec<char>| v@);
    assert(lv =~= lines(dbsa@));
    let mut out: Vec<(String, String)> = Vec::new();
    let mut i: usize = 0;
    while i < ls.len()
        invariant
            lv == ls@.map_values(|v: Vec<char>| v@),
            i <= ls@.len(),
            pair_views(out@) == column_fields_spec(lv.take(i as int)),
        decreases ls.len() - i,
    {
        assert(lv.take(i + 1).drop_last() =~= lv.take(i as int));
        assert(lv.take(i + 1).last() == ls@[i as int]@);
        let ghost before = pair_views(out@);
        match column_field_of(&ls[i]) {
            Some(p) => {
                out.push(p);
                assert(pair_views(out@) =~= before.push(column_field(ls@[i as int]@).unwrap()));
            },
            None => {},
        }
        i += 1;
    }
    assert(lv.take(i as int) =~= lv);
    out
}

// ---------------------------------------------------------------------------
// struct fields and their comments

/// The comment text of a `//` line worth keeping: trimmed, non-empty, and
/// neither a `*` banner nor a `COL-` marker.
pub open spec fn comment_text(t: Seq<char>) -> Option<Seq<char>> {
    let c = trim(t.skip(2));
    if c.len() > 0 && !starts_with(c, "*"@) && !starts_with(c, "COL-"@) {
        Some(c)
    } else {
        None
    }
}

/// A line that opens a declaration whose comments describe no field.
pub open spec fn opens_block(t: Seq<char>) -> bool {
    starts_with(t, "struct "@) || starts_with(t, "enum "@) || starts_with(t, "class "@) || starts_with(
        t,
        "{"@,
    )
}

/// The field a declaration line declares: the last identifier before the
/// `;` (and before any `[`).
pub open spec fn declared_field(t: Seq<char>) -> Option<Seq<char>> {
    let semi = index_of(t, ';');
    if semi < 0 {
        None
    } else {
        let b = t.take(semi);
        let k = index_of(b, '[');
        last_ident(
            if k < 0 {
                b
            } else {
                b.take(k)
            },
        )
    }
}

/// One line of a struct header: the field comments so far, and the comment
/// lines waiting for a field.
pub open spec fn comment_step(
    state: (Seq<(Seq<char>, Seq<char>)>, Seq<Seq<char>>),
    line: Seq<char>,
) -> (Seq<(Seq<char>, Seq<char>)>, Seq<Seq<char>>) {
    let (out, comments) = state;
    let t = trim(line);
    if starts_with(t, "//"@) {
        match comment_text(t) {
            Some(c) => (out, comments.push(c)),
            None => (out, comments),
        }
    } else if t.len() == 0 {
        (out, comments)
    } else if opens_block(t) {
        (out, Seq::empty())
    } else {
        let out2 = match declared_field(t) {
            Some(f) => if comments.len() > 0 && !ends_with(f, "Stat"@) {
                out.push((f, joined(comments, " "@)))
            } else {
                out
            },
            None => out,
        };
        (out2, Seq::empty())
    }
}

/// The scan of a struct header's lines.
pub open spec fn comment_scan(ls: Seq<Seq<char>>) -> (Seq<(Seq<char>, Seq<char>)>, Seq<Seq<char>>)
    decreases ls.len(),
{
    if ls.len() == 0 {
        (Seq::empty(), Seq::empty())
    } else {
        comment_step(comment_scan(ls.drop_last()), ls.last())
    }
}

fn starts_lit(t: &Vec<char>, lit: &str) -> (r: bool)
    ensures
        r == starts_with(t@, lit@),
{
    let p = chars_of(lit);
    let r = match_at(t, 0, &p);
    proof {
        if p@.len() <= t@.len() {
            assert(t@.take(p@.len() as int) =~= t@.subrange(0, p@.len() as int));
        }
    }
    r
}

/// Executable `comment_text`.
fn comment_text_of(t: &Vec<char>) -> (r: Option<String>)
    requires
        starts_with(t@, "//"@),
    ensures
        match comment_text(t@) {
            Some(c) => r matches Some(s) && s@ == c,
            None => r is None,
        },
{
    proof {
        reveal_strlit("//");
    }
    let rest = string_of_range(t, 2, t.len());
    assert(rest@ =~= t@.skip(2));
    let c = trim_chars(&chars_of(rest.as_str()));
    if c.len() > 0 && !starts_lit(&c, "*") && !starts_lit(&c, "COL-") {
        Some(string_of(&c))
    } else {
        None
    }
}

/// Executable `declared_field`, as a range of `t`.
fn declared_field_range(t: &Vec<char>) -> (r: Option<(usize, usize)>)
    ensures
        match declared_field(t@) {
            Some(f) => r matches Some((a, b)) && a <= b <= t@.len() && t@.subrange(a as int, b as int)
                == f,
            None => r is None,
        },
{
    let n = t.len();
    assert(t@.subrange(0, n as int) =~= t@);
    match find_char(t, 0, n, ';') {
        Some(semi) => {
            assert(t@.subrange(0, semi as int) =~= t@.take(semi as int));
            let end = match find_char(t, 0, semi, '[') {
                Some(k) => {
                    assert(t@.take(semi as int).take(k as int) =~= t@.take(k as int));
                    k
                },
                None => semi,
            };
            match last_ident_range(t, end) {
                Some((a, b)) => Some((a, b)),
                None => None,
            }
        },
        None => None,
    }
}

/// Whether `f` ends with `Stat`.
fn ends_stat(f: &Vec<char>) -> (r: bool)
    ensures
        r == ends_with(f@, "Stat"@),
{
    let p = chars_of("Stat");
    proof {
        reveal_strlit("Stat");
    }
    if f.len() < 4 {
        return false;
    }
    let r = match_at(f, f.len() - 4, &p);
    assert(f@.skip(f@.len() - 4) =~= f@.subrange(f@.len() - 4, f@.len() as int));
    r
}

/// Each struct field with the comment lines above it, in order; fields
/// whose names end in `Stat` are left out.
pub fn field_comments(struc: &str) -> (r: Vec<(String, String)>)
    ensures
        pair_views(r@) == comment_scan(lines(struc@)).0,
{
    let text = chars_of(struc);
    let ls = split_lines(&text);
    let ghost lv = ls@.map_values(|v: Vec<char>| v@);
    assert(lv =~= lines(struc@));
    let mut out: Vec<(String, String)> = Vec::new();
    let mut comments: Vec<String> = Vec::new();
    let mut i: usize = 0;
    while i < ls.len()
        invariant
            lv == ls@.map_values(|v: Vec<char>| v@),
            i <= ls@.len(),
            (pair_views(out@), views(comments@)) == comment_scan(lv.take(i as int)),
        decreases ls.len() - i,
    {
        assert(lv.take(i + 1).drop_last() =~= lv.take(i as int));
        assert(lv.take(i + 1).last() == ls@[i as int]@);
        let ghost ov = pair_views(out@);
        let ghost cv = views(comments@);
        let t = trim_chars(&ls[i]);
        if starts_lit(&t, "//") {
            match comment_text_of(&t) {
                Some(c) => {
                    comments.push(c);
                    assert(views(comments@) =~= cv.push(comment_text(t@).unwrap()));
                },
                None => {},
            }
        } else if t.len() == 0 {
        } else if starts_lit(&t, "struct ") || starts_lit(&t, "enum ") || starts_lit(&t, "class ")
            || starts_lit(&t, "{") {
            comments = Vec::new();
            assert(views(comments@) =~= Seq::<Seq<char>>::empty());
        } else {
            match declared_field_range(&t) {
                Some((a, b)) => {
                    let f = string_of_range(&t, a, b);
                    if comments.len() > 0 && !ends_stat(&chars_of(f.as_str())) {
                        let j = crate::text::join_strings(&comments, " ");
                        out.push((f, j));
                        assert(pair_views(out@) =~= ov.push((t@.subrange(a as int, b as int), joined(cv, " "@))));
                    }
                },
                None => {},
            }
            comments = Vec::new();
            assert(views(comments@) =~= Seq::<Seq<char>>::empty());
        }
        i += 1;
    }
    assert(lv.take(i as int) =~= lv);
    out
}

// ---------------------------------------------------------------------------
// descriptions

/// The map a list of pairs builds, later pairs replacing earlier ones.
pub open spec fn pairs_map(ps: Seq<(Seq<char>, Seq<char>)>) -> Map<Seq<char>, Seq<char>>
    decreases ps.len(),
{
    if ps.len() == 0 {
        Map::empty()
    } else {
        pairs_map(ps.drop_last()).insert(ps.last().0, ps.last().1)
    }
}

/// Columns described through their fields: column -> field -> comment.
pub open spec fn described(
    fields: Map<Seq<char>, Seq<char>>,
    comments: Map<Seq<char>, Seq<char>>,
) -> Map<Seq<char>, Seq<char>> {
    Map::new(
        |col: Seq<char>| fields.contains_key(col) && comments.contains_key(fields[col]),
        |col: Seq<char>| comments[fields[col]],
    )
}

/// A table's column descriptions: those its headers give (when they
/// could be read), and for a process-tree table the columns that rows
/// gain from `SAAPP`.
pub open spec fn descriptions_spec(name: Seq<char>, headers: Option<(Seq<char>, Seq<char>)>) -> Map<
    Seq<char>,
    Seq<char>,
> {
    let base = match headers {
        Some(h) => described(
            pairs_map(column_fields_spec(lines(h.0))),
            pairs_map(comment_scan(lines(h.1)).0),
        ),
        None => Map::empty(),
    };
    if is_process_tree(name) {
        base.insert(
            "APP_NAME"@,
            "Application exe file name (automatically correlated from SAAPP via PROCESS_ID)"@,
        ).insert("PARENTPID"@, "PID of parent process for app (correlated from SAAPP via PROCESS_ID)"@).insert(
            "PARENT_APP_NAME"@,
            "Parent application exe file name (correlated from parent SAAPP record via PARENTPID)"@,
        ).insert(
            "CHILD_APPS"@,
            "Child application exe file names across the process tree (correlated from SAAPP via CHILD_PIDS)"@,
        )
    } else {
        base
    }
}

/// The virtual process-tree columns are always described, whether or not
/// the headers could be read.
pub proof fn lemma_tree_columns_described(name: Seq<char>, headers: Option<(Seq<char>, Seq<char>)>)
    requires
        is_process_tree(name),
    ensures
        descriptions_spec(name, headers).contains_key("APP_NAME"@),
        descriptions_spec(name, headers).contains_key("PARENTPID"@),
        descriptions_spec(name, headers).contains_key("PARENT_APP_NAME"@),
        descriptions_spec(name, headers).contains_key("CHILD_APPS"@),
{
}

/// Both spellings of the process-tree table are process-tree tables.
pub proof fn lemma_process_tree_names()
    ensures
        is_process_tree("SAPROCESSTREE"@),
        is_process_tree("SAPROCESS_TREE"@),
{
    reveal_strlit("SAPROCESSTREE");
    reveal_strlit("SAPROCESS_TREE");
    let a: Seq<char> = "SAPROCESSTREE"@;
    let b: Seq<char> = "SAPROCESS_TREE"@;
    assert(upper_text(a) =~= a);
    assert(upper_text(b) =~= b);
    assert(remove_char(a, '_') =~= a) by {
        reveal_with_fuel(Seq::filter, 14);
    }
    assert(remove_char(b, '_') =~= a) by {
        reveal_with_fuel(Seq::filter, 15);
    }
    assert(clean_name(a).subrange(0, 13) =~= a);
}

proof fn lemma_pairs_map_prepend(x: (Seq<char>, Seq<char>), s: Seq<(Seq<char>, Seq<char>)>)
    ensures
        pairs_map(seq![x] + s) == if pairs_map(s).contains_key(x.0) {
            pairs_map(s)
        } else {
            pairs_map(s).insert(x.0, x.1)
        },
    decreases s.len(),
{
    if s.len() == 0 {
        assert(seq![x] + s =~= seq![x]);
        assert(seq![x].drop_last() =~= Seq::<(Seq<char>, Seq<char>)>::empty());
        assert(seq![x].last() == x);
        assert(pairs_map(Seq::<(Seq<char>, Seq<char>)>::empty()) =~= Map::empty());
        assert(pairs_map(seq![x]) =~= Map::empty().insert(x.0, x.1));
    } else {
        let t = seq![x] + s;
        assert(t.drop_last() =~= seq![x] + s.drop_last());
        assert(t.last() == s.last());
        lemma_pairs_map_prepend(x, s.drop_last());
        let m = pairs_map(s.drop_last());
        if m.contains_key(x.0) {
            assert(pairs_map(t) =~= pairs_map(s));
        } else if s.last().0 == x.0 {
            assert(pairs_map(t) =~= pairs_map(s));
        } else {
            assert(pairs_map(t) =~= pairs_map(s).insert(x.0, x.1));
        }
    }
}

/// The index of the pair that gives `k` its value in `pairs_map`.
fn lookup_pair(ps: &Vec<(String, String)>, k: &str) -> (r: Option<usize>)
    ensures
        match r {
            Some(j) => j < ps@.len() && pairs_map(pair_views(ps@)).contains_key(k@) && pairs_map(
                pair_views(ps@),
            )[k@] == ps@[j as int].1@,
            None => !pairs_map(pair_views(ps@)).contains_key(k@),
        },
{
    let ghost pv = pair_views(ps@);
    let kc = chars_of(k);
    let mut j = ps.len();
    assert(pv.take(j as int) =~= pv);
    while j > 0
        invariant
            pv == pair_views(ps@),
            kc@ == k@,
            j <= ps@.len(),
            pairs_map(pv).contains_key(k@) == pairs_map(pv.take(j as int)).contains_key(k@),
            pairs_map(pv).contains_key(k@) ==> pairs_map(pv)[k@] == pairs_map(pv.take(j as int))[k@],
        decreases j,
    {
        assert(pv.take(j as int).drop_last() =~= pv.take(j - 1));
        assert(pv.take(j as int).last() == pv[j - 1]);
        if crate::text::seq_eq(&chars_of(ps[j - 1].0.as_str()), &kc) {
            return Some(j - 1);
        }
        j -= 1;
    }
    None
}

/// Whether `k` is one of `keys`.
fn has_key(keys: &Vec<String>, k: &str) -> (r: bool)
    ensures
        r == views(keys@).contains(k@),
{
    let kc = chars_of(k);
    let mut i: usize = 0;
    while i < keys.len()
        invariant
            kc@ == k@,
            i <= keys@.len(),
            forall|j: int| 0 <= j < i ==> keys@[j]@ != k@,
        decreases keys.len() - i,
    {
        if crate::text::seq_eq(&chars_of(keys[i].as_str()), &kc) {
            assert(views(keys@)[i as int] == k@);
            return true;
        }
        i += 1;
    }
    assert forall|j: int| 0 <= j < views(keys@).len() implies views(keys@)[j] != k@ by {
        assert(views(keys@)[j] == keys@[j]@);
    }
    false
}

/// The columns the bindings describe through the field comments.
fn describe(cf: &Vec<(String, String)>, fc: &Vec<(String, String)>) -> (r: Vec<(String, String)>)
    ensures
        pairs_map(pair_views(r@)) == described(pairs_map(pair_views(cf@)), pairs_map(pair_views(fc@))),
{
    let ghost cfv = pair_views(cf@);
    let ghost fm = pairs_map(pair_views(fc@));
    let mut out: Vec<(String, String)> = Vec::new();
    let mut seen: Vec<String> = Vec::new();
    let mut i = cf.len();
    assert(pairs_map(pair_views(out@)) =~= described(pairs_map(cfv.skip(i as int)), fm)) by {
        assert(cfv.skip(i as int).len() == 0);
        assert(pair_views(out@).len() == 0);
    }
    while i > 0
        invariant
            cfv == pair_views(cf@),
            fm == pairs_map(pair_views(fc@)),
            i <= cf@.len(),
            forall|k: Seq<char>| views(seen@).contains(k) <==> pairs_map(cfv.skip(i as int)).contains_key(k),
            pairs_map(pair_views(out@)) == described(pairs_map(cfv.skip(i as int)), fm),
        decreases i,
    {
        i -= 1;
        let ghost x = cfv[i as int];
        let ghost old_m = pairs_map(cfv.skip(i + 1));
        proof {
            assert(cfv.skip(i as int) =~= seq![x] + cfv.skip(i + 1));
            lemma_pairs_map_prepend(x, cfv.skip(i + 1));
        }
        let col = &cf[i].0;
        let field = &cf[i].1;
        assert(x == (col@, field@));
        if has_key(&seen, col.as_str()) {
            assert(old_m.contains_key(col@));
        } else {
            let ghost sv = views(seen@);
            let ghost before = pair_views(out@);
            seen.push(col.clone());
            assert(views(seen@) =~= sv.push(col@));
            assert(!old_m.contains_key(col@));
            assert forall|k: Seq<char>| views(seen@).contains(k) <==> pairs_map(cfv.skip(i as int)).contains_key(
                k,
            ) by {
                if k != col@ {
                    if sv.contains(k) {
                        let j = choose|j: int| 0 <= j < sv.len() && sv[j] == k;
                        assert(views(seen@)[j] == k);
                    }
                    if views(seen@).contains(k) {
                        let j = choose|j: int| 0 <= j < views(seen@).len() && views(seen@)[j] == k;
                        assert(j < sv.len());
                        assert(sv[j] == k);
                    }
                } else {
                    assert(views(seen@)[sv.len() as int] == k);
                }
            }
            match lookup_pair(fc, field.as_str()) {
                Some(j) => {
                    out.push((col.clone(), fc[j].1.clone()));
                    assert(pair_views(out@) =~= before.push((col@, fc@[j as int].1@)));
                    assert(before.push((col@, fc@[j as int].1@)).drop_last() =~= before);
                    assert(pairs_map(pair_views(out@)) == pairs_map(before).insert(col@, fm[field@]));
                    assert(described(old_m.insert(col@, field@), fm) =~= described(old_m, fm).insert(
                        col@,
                        fm[field@],
                    ));
                },
                None => {
                    assert(described(old_m.insert(col@, field@), fm) =~= described(old_m, fm));
                },
            }
        }
    }
    assert(cfv.skip(0) =~= cfv);
    out
}

/// A table's column descriptions, from the contents of its table header
/// and struct header when both could be read (see `descriptions_spec`);
/// the app turns the pairs into a map, later pairs winning.
pub fn table_descriptions(name: &str, headers: Option<(&str, &str)>) -> (r: Vec<(String, String)>)
    ensures
        pairs_map(pair_views(r@)) == descriptions_spec(
            name@,
            match headers {
                Some(h) => Some((h.0@, h.1@)),
                None => None,
            },
        ),
{
    let ghost hv = match headers {
        Some(h) => Some((h.0@, h.1@)),
        None => None,
    };
    let ghost base = match hv {
        Some(h) => described(
            pairs_map(column_fields_spec(lines(h.0))),
            pairs_map(comment_scan(lines(h.1)).0),
        ),
        None => Map::<Seq<char>, Seq<char>>::empty(),
    };
    let mut out: Vec<(String, String)> = match headers {
        Some((dbsa, struc)) => {
            let cf = column_fields(dbsa);
            let fc = field_comments(struc);
            describe(&cf, &fc)
        },
        None => {
            let v: Vec<(String, String)> = Vec::new();
            assert(pairs_map(pair_views(v@)) =~= Map::empty());
            v
        },
    };
    assert(pairs_map(pair_views(out@)) == base);
    if crate::db::process_tree_table(name) {
        let ghost b = pair_views(out@);
        out.push((String::from_str("APP_NAME"), String::from_str(
            "Application exe file name (automatically correlated from SAAPP via PROCESS_ID)",
        )));
        out.push((String::from_str("PARENTPID"), String::from_str(
            "PID of parent process for app (correlated from SAAPP via PROCESS_ID)",
        )));
        out.push((String::from_str("PARENT_APP_NAME"), String::from_str(
            "Parent application exe file name (correlated from parent SAAPP record via PARENTPID)",
        )));
        out.push((String::from_str("CHILD_APPS"), String::from_str(
            "Child application exe file names across the process tree (correlated from SAAPP via CHILD_PIDS)",
        )));
        proof {
            let v = pair_views(out@);
            reveal_with_fuel(pairs_map, 5);
            assert(v.drop_last().drop_last().drop_last().drop_last() =~= b);
            assert(v.drop_last().drop_last().drop_last() =~= b.push(v[b.len() as int]));
            assert(v.drop_last().drop_last() =~= b.push(v[b.len() as int]).push(v[b.len() + 1int]));
            assert(v.drop_last() =~= b.push(v[b.len() as int]).push(v[b.len() + 1int]).push(v[b.len() + 2int]));
        }
    }
    out
}

} // verus!
