//! Character-level text utilities shared by every parser in the crate.
//!
//! All text is handled as sequences of Unicode scalar values (`Seq<char>`),
//! the view Verus gives to `str` and `String`.

use vstd::prelude::*;

verus! {

// ---------------------------------------------------------------------------
// conversions

/// Appends one character to a `String` (`String::push`).
#[verifier::external_body]
pub(crate) fn push_char(s: &mut String, c: char)
    ensures
        final(s)@ == old(s)@.push(c),
{
    s.push(c);
}

/// The characters of `s`, in order.
pub fn chars_of(s: &str) -> (v: Vec<char>)
    ensures
        v@ == s@,
{
    let mut v: Vec<char> = Vec::new();
    let mut it = s.chars();
    for c in iter: it
        invariant
            v@ == iter.seq().take(iter.index() as int),
    {
        v.push(c);
    }
    v
}

/// A `String` holding the characters `v[from..to]`.
pub fn string_of_range(v: &[char], from: usize, to: usize) -> (s: String)
    requires
        from <= to <= v@.len(),
    ensures
        s@ == v@.subrange(from as int, to as int),
{
    let mut s = String::new();
    let mut i = from;
    while i < to
        invariant
            from <= i <= to <= v@.len(),
            s@ == v@.subrange(from as int, i as int),
        decreases to - i,
    {
        push_char(&mut s, v[i]);
        i += 1;
    }
    s
}

/// A `String` holding exactly the characters of `v`.
pub fn string_of(v: &[char]) -> (s: String)
    ensures
        s@ == v@,
{
    let s = string_of_range(v, 0, v.len());
    assert(v@.subrange(0, v@.len() as int) =~= v@);
    s
}

/// Appends the characters of `t` to `s`.
pub fn push_str(s: &mut String, t: &str)
    ensures
        final(s)@ == old(s)@ + t@,
{
    let v = chars_of(t);
    let ghost start = s@;
    let mut i: usize = 0;
    while i < v.len()
        invariant
            i <= v@.len(),
            v@ == t@,
            s@ == start + v@.take(i as int),
        decreases v.len() - i,
    {
        push_char(s, v[i]);
        i += 1;
        assert(v@.take(i as int) =~= v@.take(i - 1).push(v@[i - 1]));
    }
    assert(v@.take(v@.len() as int) =~= v@);
}

/// Appends the characters `v[from..to]` to `s`.
pub fn push_range(s: &mut String, v: &[char], from: usize, to: usize)
    requires
        from <= to <= v@.len(),
    ensures
        final(s)@ == old(s)@ + v@.subrange(from as int, to as int),
{
    let ghost start = s@;
    let mut i = from;
    while i < to
        invariant
            from <= i <= to <= v@.len(),
            s@ == start + v@.subrange(from as int, i as int),
        decreases to - i,
    {
        push_char(s, v[i]);
        i += 1;
        assert(v@.subrange(from as int, i as int) =~= v@.subrange(from as int, i - 1).push(
            v@[i - 1],
        ));
    }
}

// ---------------------------------------------------------------------------
// whitespace

/// `char::is_whitespace`: the Unicode `White_Space` property.
pub open spec fn is_ws(c: char) -> bool {
    ||| '\t' <= c <= '\r'
    ||| c == ' '
    ||| c == '\u{85}'
    ||| c == '\u{a0}'
    ||| c == '\u{1680}'
    ||| '\u{2000}' <= c <= '\u{200a}'
    ||| c == '\u{2028}'
    ||| c == '\u{2029}'
    ||| c == '\u{202f}'
    ||| c == '\u{205f}'
    ||| c == '\u{3000}'
}

/// Executable `is_ws`.
pub fn char_is_ws(c: char) -> (b: bool)
    ensures
        b == is_ws(c),
{
    ('\t' <= c && c <= '\r') || c == ' ' || c == '\u{85}' || c == '\u{a0}' || c == '\u{1680}'
        || ('\u{2000}' <= c && c <= '\u{200a}') || c == '\u{2028}' || c == '\u{2029}' || c
        == '\u{202f}' || c == '\u{205f}' || c == '\u{3000}'
}

/// `s` without leading whitespace (`str::trim_start`).
pub open spec fn trim_start(s: Seq<char>) -> Seq<char>
    decreases s.len(),
{
    if s.len() > 0 && is_ws(s[0]) {
        trim_start(s.drop_first())
    } else {
        s
    }
}

/// `s` without trailing whitespace (`str::trim_end`).
pub open spec fn trim_end(s: Seq<char>) -> Seq<char>
    decreases s.len(),
{
    if s.len() > 0 && is_ws(s.last()) {
        trim_end(s.drop_last())
    } else {
        s
    }
}

/// `str::trim`.
pub open spec fn trim(s: Seq<char>) -> Seq<char> {
    trim_end(trim_start(s))
}

/// Whitespace-only text trims to nothing; otherwise trimming removes exactly
/// a whitespace prefix and a whitespace suffix.
proof fn lemma_trim_start_skip(s: Seq<char>, i: int)
    requires
        0 <= i <= s.len(),
        forall|j: int| 0 <= j < i ==> is_ws(#[trigger] s[j]),
    ensures
        trim_start(s) == trim_start(s.subrange(i, s.len() as int)),
    decreases i,
{
    if i > 0 {
        assert(s.drop_first().subrange(i - 1, s.drop_first().len() as int) =~= s.subrange(
            i,
            s.len() as int,
        ));
        lemma_trim_start_skip(s.drop_first(), i - 1);
    } else {
        assert(s.subrange(0, s.len() as int) =~= s);
    }
}

proof fn lemma_trim_end_skip(s: Seq<char>, k: int)
    requires
        0 <= k <= s.len(),
        forall|j: int| k <= j < s.len() ==> is_ws(#[trigger] s[j]),
    ensures
        trim_end(s) == trim_end(s.subrange(0, k)),
    decreases s.len() - k,
{
    if k < s.len() {
        assert(s.drop_last().subrange(0, k) =~= s.subrange(0, k));
        lemma_trim_end_skip(s.drop_last(), k);
    } else {
        assert(s.subrange(0, k) =~= s);
    }
}

/// The bounds `(a, b)` with `s[a..b] == trim(s)`.
pub fn trim_bounds(s: &[char], from: usize, to: usize) -> (r: (usize, usize))
    requires
        from <= to <= s@.len(),
    ensures
        from <= r.0 <= r.1 <= to,
        s@.subrange(r.0 as int, r.1 as int) == trim(s@.subrange(from as int, to as int)),
{
    let ghost t = s@.subrange(from as int, to as int);
    let mut a = from;
    while a < to && char_is_ws(s[a])
        invariant
            from <= a <= to <= s@.len(),
            forall|j: int| from <= j < a ==> is_ws(#[trigger] s@[j]),
        decreases to - a,
    {
        a += 1;
    }
    proof {
        assert forall|j: int| 0 <= j < a - from implies is_ws(#[trigger] t[j]) by {
            assert(t[j] == s@[from + j]);
        }
        lemma_trim_start_skip(t, a - from);
        assert(t.subrange(a - from, t.len() as int) =~= s@.subrange(a as int, to as int));
        if a < to {
            assert(s@.subrange(a as int, to as int)[0] == s@[a as int]);
        }
    }
    let ghost u = s@.subrange(a as int, to as int);
    assert(trim_start(t) == u);
    let mut b = to;
    while b > a && char_is_ws(s[b - 1])
        invariant
            a <= b <= to <= s@.len(),
            forall|j: int| b <= j < to ==> is_ws(#[trigger] s@[j]),
        decreases b - a,
    {
        b -= 1;
    }
    proof {
        assert forall|j: int| b - a <= j < u.len() implies is_ws(#[trigger] u[j]) by {
            assert(u[j] == s@[a + j]);
        }
        lemma_trim_end_skip(u, b - a);
        assert(u.subrange(0, b - a) =~= s@.subrange(a as int, b as int));
        let w = s@.subrange(a as int, b as int);
        if b > a {
            assert(w.last() == s@[b - 1]);
        }
    }
    (a, b)
}

/// `str::trim` on a whole string, as characters.
pub fn trim_chars(s: &[char]) -> (r: Vec<char>)
    ensures
        r@ == trim(s@),
{
    let (a, b) = trim_bounds(s, 0, s.len());
    assert(s@.subrange(0, s@.len() as int) =~= s@);
    let mut r: Vec<char> = Vec::new();
    let mut i = a;
    while i < b
        invariant
            a <= i <= b <= s@.len(),
            r@ == s@.subrange(a as int, i as int),
        decreases b - i,
    {
        r.push(s[i]);
        i += 1;
    }
    r
}

// ---------------------------------------------------------------------------
// ASCII case

/// `char::to_ascii_lowercase`.
pub open spec fn lower(c: char) -> char {
    if 'A' <= c <= 'Z' {
        ((c as u32) + 32) as char
    } else {
        c
    }
}

/// `char::to_ascii_uppercase`.
pub open spec fn upper(c: char) -> char {
    if 'a' <= c <= 'z' {
        ((c as u32) - 32) as char
    } else {
        c
    }
}

/// Executable `lower`.
pub fn to_lower(c: char) -> (r: char)
    ensures
        r == lower(c),
{
    if 'A' <= c && c <= 'Z' {
        ((c as u8) + 32) as char
    } else {
        c
    }
}

/// Executable `upper`.
pub fn to_upper(c: char) -> (r: char)
    ensures
        r == upper(c),
{
    if 'a' <= c && c <= 'z' {
        ((c as u8) - 32) as char
    } else {
        c
    }
}

/// `str::eq_ignore_ascii_case`.
pub open spec fn eq_ignore_case(a: Seq<char>, b: Seq<char>) -> bool {
    a.len() == b.len() && forall|i: int| 0 <= i < a.len() ==> lower(#[trigger] a[i]) == lower(b[i])
}

/// Executable `eq_ignore_case` on `a[from..to]` against `b`.
pub fn range_eq_ignore_case(a: &[char], from: usize, to: usize, b: &[char]) -> (r: bool)
    requires
        from <= to <= a@.len(),
    ensures
        r == eq_ignore_case(a@.subrange(from as int, to as int), b@),
{
    if to - from != b.len() {
        return false;
    }
    let mut i: usize = 0;
    while i < b.len()
        invariant
            to - from == b@.len(),
            from <= to <= a@.len(),
            i <= b@.len(),
            forall|j: int| 0 <= j < i ==> lower(#[trigger] a@[from + j]) == lower(b@[j]),
        decreases b.len() - i,
    {
        if to_lower(a[from + i]) != to_lower(b[i]) {
            assert(a@.subrange(from as int, to as int)[i as int] == a@[from + i]);
            return false;
        }
        i += 1;
    }
    proof {
        let t = a@.subrange(from as int, to as int);
        assert forall|j: int| 0 <= j < t.len() implies lower(#[trigger] t[j]) == lower(b@[j]) by {
            assert(t[j] == a@[from + j]);
        }
    }
    true
}

// ---------------------------------------------------------------------------
// searching

/// `s[i..i+p.len()] == p`.
pub open spec fn matches_at(s: Seq<char>, i: int, p: Seq<char>) -> bool {
    0 <= i && i + p.len() <= s.len() && s.subrange(i, i + p.len()) == p
}

/// `str::contains` for a string pattern.
pub open spec fn contains(s: Seq<char>, p: Seq<char>) -> bool {
    exists|i: int| matches_at(s, i, p)
}

/// Executable `matches_at`.
pub fn match_at(s: &[char], i: usize, p: &[char]) -> (r: bool)
    ensures
        r == matches_at(s@, i as int, p@),
{
    if i > s.len() || p.len() > s.len() - i {
        return false;
    }
    let n = s.len();
    let mut j: usize = 0;
    while j < p.len()
        invariant
            n == s@.len(),
            i <= s@.len(),
            i + p@.len() <= s@.len(),
            j <= p@.len(),
            forall|k: int| 0 <= k < j ==> s@[i + k] == #[trigger] p@[k],
        decreases p.len() - j,
    {
        if s[i + j] != p[j] {
            assert(s@.subrange(i as int, i + p@.len())[j as int] == s@[i + j]);
            return false;
        }
        j += 1;
    }
    assert(s@.subrange(i as int, i + p@.len()) =~= p@);
    true
}

/// First `i >= from` with `matches_at(s, i, p)`, if any.
pub fn find_from(s: &[char], from: usize, p: &[char]) -> (r: Option<usize>)
    requires
        from <= s@.len(),
    ensures
        match r {
            Some(i) => from <= i && matches_at(s@, i as int, p@) && forall|j: int|
                from <= j < i ==> !matches_at(s@, j, p@),
            None => forall|j: int| from <= j ==> !matches_at(s@, j, p@),
        },
{
    let mut i = from;
    loop
        invariant
            from <= i <= s@.len(),
            forall|j: int| from <= j < i ==> !matches_at(s@, j, p@),
        decreases s@.len() - i,
    {
        if match_at(s, i, p) {
            return Some(i);
        }
        if i == s.len() {
            assert forall|j: int| from <= j implies !matches_at(s@, j, p@) by {
                if j > i {
                }
            }
            return None;
        }
        i += 1;
    }
}

/// Executable `contains`.
pub fn contains_chars(s: &[char], p: &[char]) -> (r: bool)
    ensures
        r == contains(s@, p@),
{
    match find_from(s, 0, p) {
        Some(i) => true,
        None => {
            assert forall|j: int| !matches_at(s@, j, p@) by {
                if j >= 0 {
                }
            }
            false
        },
    }
}

/// Index of the first occurrence of `p` in `s`, or `-1` (`str::find` for a
/// string pattern).
#[verifier::opaque]
pub open spec fn find_pat(s: Seq<char>, p: Seq<char>) -> int {
    if contains(s, p) {
        choose|i: int| matches_at(s, i, p) && forall|j: int| 0 <= j < i ==> !matches_at(s, j, p)
    } else {
        -1
    }
}

/// The first occurrence is `find_pat`.
pub proof fn lemma_find_pat_is(s: Seq<char>, p: Seq<char>, i: int)
    requires
        matches_at(s, i, p),
        forall|j: int| 0 <= j < i ==> !matches_at(s, j, p),
    ensures
        find_pat(s, p) == i,
{
    reveal(find_pat);
    assert(contains(s, p));
    let k = choose|k: int| matches_at(s, k, p) && forall|j: int| 0 <= j < k ==> !matches_at(s, j, p);
    assert(matches_at(s, k, p) && forall|j: int| 0 <= j < k ==> !matches_at(s, j, p));
    if k < i {
        assert(!matches_at(s, k, p));
    }
    if i < k {
        assert(!matches_at(s, i, p));
    }
}

/// Executable `find_pat`.
pub fn find_pattern(s: &[char], p: &[char]) -> (r: Option<usize>)
    ensures
        match r {
            Some(i) => find_pat(s@, p@) == i && matches_at(s@, i as int, p@),
            None => find_pat(s@, p@) == -1 && !contains(s@, p@),
        },
{
    match find_from(s, 0, p) {
        Some(i) => {
            proof {
                lemma_find_pat_is(s@, p@, i as int);
            }
            Some(i)
        },
        None => {
            assert forall|j: int| !matches_at(s@, j, p@) by {
                if j >= 0 {
                }
            }
            proof {
                reveal(find_pat);
            }
            None
        },
    }
}

/// Index of the first `c` in `s`, or `-1` (`str::find` for a char).
pub open spec fn index_of(s: Seq<char>, c: char) -> int
    decreases s.len(),
{
    if s.len() == 0 {
        -1
    } else if s[0] == c {
        0
    } else {
        let r = index_of(s.drop_first(), c);
        if r < 0 {
            -1
        } else {
            r + 1
        }
    }
}

/// `index_of` is the first occurrence.
pub proof fn lemma_index_of(s: Seq<char>, c: char)
    ensures
        -1 <= index_of(s, c) < s.len(),
        index_of(s, c) >= 0 ==> s[index_of(s, c)] == c,
        forall|j: int| 0 <= j < s.len() && (index_of(s, c) < 0 || j < index_of(s, c)) ==> s[j]
            != c,
    decreases s.len(),
{
    if s.len() > 0 && s[0] != c {
        lemma_index_of(s.drop_first(), c);
        assert forall|j: int|
            0 <= j < s.len() && (index_of(s, c) < 0 || j < index_of(s, c)) implies s[j] != c by {
            if j > 0 {
                assert(s[j] == s.drop_first()[j - 1]);
            }
        }
    }
}

/// The characterization of `index_of` by its first occurrence.
pub proof fn lemma_index_of_is(s: Seq<char>, c: char, i: int)
    requires
        -1 <= i < s.len(),
        i >= 0 ==> s[i] == c,
        forall|j: int| 0 <= j < s.len() && (i < 0 || j < i) ==> s[j] != c,
    ensures
        index_of(s, c) == i,
{
    lemma_index_of(s, c);
    let k = index_of(s, c);
    if k >= 0 && (i < 0 || k < i) {
        assert(s[k] != c);
    }
    if i >= 0 && (k < 0 || i < k) {
        assert(s[i] != c);
    }
}

/// Executable `index_of` on `s[from..to]`, as an absolute index.
pub fn find_char(s: &[char], from: usize, to: usize, c: char) -> (r: Option<usize>)
    requires
        from <= to <= s@.len(),
    ensures
        match r {
            Some(i) => from <= i < to && index_of(s@.subrange(from as int, to as int), c) == i
                - from,
            None => index_of(s@.subrange(from as int, to as int), c) == -1,
        },
{
    let ghost t = s@.subrange(from as int, to as int);
    let mut i = from;
    while i < to
        invariant
            from <= i <= to <= s@.len(),
            t == s@.subrange(from as int, to as int),
            forall|j: int| from <= j < i ==> s@[j] != c,
        decreases to - i,
    {
        if s[i] == c {
            proof {
                assert forall|j: int| 0 <= j < t.len() && (j < i - from) implies t[j] != c by {
                    assert(t[j] == s@[from + j]);
                }
                lemma_index_of_is(t, c, i - from);
            }
            return Some(i);
        }
        i += 1;
    }
    proof {
        assert forall|j: int| 0 <= j < t.len() implies t[j] != c by {
            assert(t[j] == s@[from + j]);
        }
        lemma_index_of_is(t, c, -1);
    }
    None
}

// ---------------------------------------------------------------------------
// words and lines

/// Length of the leading run of non-whitespace characters.
pub open spec fn word_len(s: Seq<char>) -> nat
    decreases s.len(),
{
    if s.len() > 0 && !is_ws(s[0]) {
        1 + word_len(s.drop_first())
    } else {
        0
    }
}

/// `str::split_whitespace`: the maximal runs of non-whitespace characters.
pub open spec fn words(s: Seq<char>) -> Seq<Seq<char>>
    decreases s.len(),
{
    if s.len() == 0 {
        seq![]
    } else if is_ws(s[0]) {
        words(s.drop_first())
    } else {
        let k = word_len(s);
        if 0 < k <= s.len() {
            seq![s.take(k as int)] + words(s.skip(k as int))
        } else {
            seq![]
        }
    }
}

proof fn lemma_word_len(s: Seq<char>, k: int)
    requires
        0 <= k <= s.len(),
        forall|j: int| 0 <= j < k ==> !is_ws(#[trigger] s[j]),
        k == s.len() || is_ws(s[k]),
    ensures
        word_len(s) == k,
    decreases k,
{
    if k > 0 {
        assert forall|j: int| 0 <= j < k - 1 implies !is_ws(#[trigger] s.drop_first()[j]) by {
            assert(s.drop_first()[j] == s[j + 1]);
        }
        if k - 1 < s.drop_first().len() {
            assert(s.drop_first()[k - 1] == s[k]);
        }
        lemma_word_len(s.drop_first(), k - 1);
    }
}

/// The whitespace-separated tokens of `s`.
pub fn split_ws(s: &[char]) -> (r: Vec<Vec<char>>)
    ensures
        r@.len() == words(s@).len(),
        forall|i: int| 0 <= i < r@.len() ==> #[trigger] r@[i]@ == words(s@)[i],
{
    let n = s.len();
    let mut r: Vec<Vec<char>> = Vec::new();
    let ghost done: Seq<Seq<char>> = seq![];
    let mut i: usize = 0;
    assert(s@.skip(0) =~= s@);
    while i < n
        invariant
            n == s@.len(),
            i <= n,
            r@.len() == done.len(),
            forall|k: int| 0 <= k < r@.len() ==> #[trigger] r@[k]@ == done[k],
            words(s@) == done + words(s@.skip(i as int)),
        decreases n - i,
    {
        let ghost rest = s@.skip(i as int);
        if char_is_ws(s[i]) {
            assert(rest[0] == s@[i as int]);
            assert(rest.drop_first() =~= s@.skip(i + 1));
            i += 1;
        } else {
            let mut j = i;
            let mut w: Vec<char> = Vec::new();
            while j < n && !char_is_ws(s[j])
                invariant
                    n == s@.len(),
                    i <= j <= n,
                    w@ == s@.subrange(i as int, j as int),
                    forall|m: int| i <= m < j ==> !is_ws(#[trigger] s@[m]),
                decreases n - j,
            {
                w.push(s[j]);
                j += 1;
            }
            proof {
                assert forall|m: int| 0 <= m < j - i implies !is_ws(#[trigger] rest[m]) by {
                    assert(rest[m] == s@[i + m]);
                }
                if j < n {
                    assert(rest[j - i] == s@[j as int]);
                }
                lemma_word_len(rest, j - i);
                assert(rest[0] == s@[i as int]);
                assert(rest.take(j - i) =~= w@);
                assert(rest.skip(j - i) =~= s@.skip(j as int));
                done = done.push(w@);
                assert(words(s@) == done + words(s@.skip(j as int)));
            }
            r.push(w);
            i = j;
        }
    }
    proof {
        assert(s@.skip(n as int).len() == 0);
        assert(done + seq![] =~= done);
    }
    r
}

/// Strips one trailing carriage return.
pub open spec fn strip_cr(s: Seq<char>) -> Seq<char> {
    if s.len() > 0 && s.last() == '\r' {
        s.drop_last()
    } else {
        s
    }
}

/// `str::lines`: split at `\n`, dropping one `\r` before each `\n`; the final
/// line ending is optional.
pub open spec fn lines(s: Seq<char>) -> Seq<Seq<char>>
    decreases s.len(),
{
    if s.len() == 0 {
        seq![]
    } else {
        let i = index_of(s, '\n');
        if 0 <= i < s.len() {
            seq![strip_cr(s.take(i))] + lines(s.skip(i + 1))
        } else {
            seq![s]
        }
    }
}

/// The lines of `s` (`str::lines`).
pub fn split_lines(s: &[char]) -> (r: Vec<Vec<char>>)
    ensures
        r@.len() == lines(s@).len(),
        forall|i: int| 0 <= i < r@.len() ==> #[trigger] r@[i]@ == lines(s@)[i],
{
    let n = s.len();
    let mut r: Vec<Vec<char>> = Vec::new();
    let ghost done: Seq<Seq<char>> = seq![];
    let mut start: usize = 0;
    assert(s@.skip(0) =~= s@);
    while start < n
        invariant
            n == s@.len(),
            start <= n,
            r@.len() == done.len(),
            forall|k: int| 0 <= k < r@.len() ==> #[trigger] r@[k]@ == done[k],
            lines(s@) == done + lines(s@.skip(start as int)),
        decreases n - start,
    {
        let ghost rest = s@.skip(start as int);
        assert(rest =~= s@.subrange(start as int, n as int));
        match find_char(s, start, n, '\n') {
            Some(e) => {
                let mut end = e;
                if end > start && s[end - 1] == '\r' {
                    end -= 1;
                }
                let mut w: Vec<char> = Vec::new();
                let mut j = start;
                while j < end
                    invariant
                        start <= j <= end <= n,
                        n == s@.len(),
                        w@ == s@.subrange(start as int, j as int),
                    decreases end - j,
                {
                    w.push(s[j]);
                    j += 1;
                }
                proof {
                    let t = rest.take(e - start);
                    assert(t =~= s@.subrange(start as int, e as int));
                    if e > start && s@[e - 1] == '\r' {
                        assert(t.last() == s@[e - 1]);
                        assert(t.drop_last() =~= w@);
                    } else {
                        if e > start {
                            assert(t.last() == s@[e - 1]);
                        }
                        assert(t =~= w@);
                    }
                    assert(rest.skip(e - start + 1) =~= s@.skip(e + 1));
                    done = done.push(w@);
                }
                r.push(w);
                start = e + 1;
            },
            None => {
                let mut w: Vec<char> = Vec::new();
                let mut j = start;
                while j < n
                    invariant
                        start <= j <= n,
                        n == s@.len(),
                        w@ == s@.subrange(start as int, j as int),
                    decreases n - j,
                {
                    w.push(s[j]);
                    j += 1;
                }
                proof {
                    assert(w@ =~= rest);
                    assert(lines(rest) == seq![rest]);
                    assert(s@.skip(n as int).len() == 0);
                    done = done.push(w@);
                }
                r.push(w);
                start = n;
            },
        }
    }
    proof {
        assert(s@.skip(n as int).len() == 0);
        assert(done + seq![] =~= done);
    }
    r
}

// ---------------------------------------------------------------------------
// ASCII-case-insensitive search

/// `p` (lowercase ASCII) occurs at `i` in `s` when `s` is ASCII-lowercased.
pub open spec fn matches_ci_at(s: Seq<char>, i: int, p: Seq<char>) -> bool {
    0 <= i && i + p.len() <= s.len() && forall|j: int|
        0 <= j < p.len() ==> lower(#[trigger] s[i + j]) == p[j]
}

/// `p` occurs somewhere in `s` when `s` is ASCII-lowercased.
pub open spec fn contains_ci(s: Seq<char>, p: Seq<char>) -> bool {
    exists|i: int| matches_ci_at(s, i, p)
}

fn match_ci_at(s: &[char], i: usize, p: &[char]) -> (r: bool)
    ensures
        r == matches_ci_at(s@, i as int, p@),
{
    if i > s.len() || p.len() > s.len() - i {
        return false;
    }
    let n = s.len();
    let mut j: usize = 0;
    while j < p.len()
        invariant
            n == s@.len(),
            i + p@.len() <= s@.len(),
            j <= p@.len(),
            forall|k: int| 0 <= k < j ==> lower(#[trigger] s@[i + k]) == p@[k],
        decreases p.len() - j,
    {
        if to_lower(s[i + j]) != p[j] {
            return false;
        }
        j += 1;
    }
    true
}

/// Executable `contains_ci`.
pub fn contains_ignore_case(s: &[char], p: &[char]) -> (r: bool)
    ensures
        r == contains_ci(s@, p@),
{
    let mut i: usize = 0;
    loop
        invariant
            i <= s@.len(),
            forall|j: int| 0 <= j < i ==> !matches_ci_at(s@, j, p@),
        decreases s@.len() - i,
    {
        if match_ci_at(s, i, p) {
            return true;
        }
        if i == s.len() {
            assert forall|j: int| !matches_ci_at(s@, j, p@) by {
                if j > i {
                }
            }
            return false;
        }
        i += 1;
    }
}

/// `s` with every trailing `c` removed (`str::trim_end_matches`).
pub open spec fn strip_trailing(s: Seq<char>, c: char) -> Seq<char>
    decreases s.len(),
{
    if s.len() > 0 && s.last() == c {
        strip_trailing(s.drop_last(), c)
    } else {
        s
    }
}

/// End index `e` with `s[from..e] == strip_trailing(s[from..to], c)`.
pub fn strip_trailing_end(s: &[char], from: usize, to: usize, c: char) -> (e: usize)
    requires
        from <= to <= s@.len(),
    ensures
        from <= e <= to,
        s@.subrange(from as int, e as int) == strip_trailing(s@.subrange(from as int, to as int), c),
{
    let mut e = to;
    while e > from && s[e - 1] == c
        invariant
            from <= e <= to <= s@.len(),
            strip_trailing(s@.subrange(from as int, to as int), c) == strip_trailing(
                s@.subrange(from as int, e as int),
                c,
            ),
        decreases e - from,
    {
        assert(s@.subrange(from as int, e as int).drop_last() =~= s@.subrange(from as int, e - 1));
        e -= 1;
    }
    if e > from {
        assert(s@.subrange(from as int, e as int).last() == s@[e - 1]);
    }
    e
}

// ---------------------------------------------------------------------------
// order and equality

/// Lexicographic order of texts by character (the order of `str`'s `Ord`,
/// since UTF-8 preserves code point order).
pub open spec fn text_lt(a: Seq<char>, b: Seq<char>) -> bool
    decreases a.len(),
{
    if a.len() == 0 {
        b.len() > 0
    } else if b.len() == 0 {
        false
    } else if a[0] != b[0] {
        a[0] < b[0]
    } else {
        text_lt(a.drop_first(), b.drop_first())
    }
}

pub proof fn lemma_text_lt_irrefl(a: Seq<char>)
    ensures
        !text_lt(a, a),
    decreases a.len(),
{
    if a.len() > 0 {
        lemma_text_lt_irrefl(a.drop_first());
    }
}

pub proof fn lemma_text_lt_trans(a: Seq<char>, b: Seq<char>, c: Seq<char>)
    requires
        text_lt(a, b),
        text_lt(b, c),
    ensures
        text_lt(a, c),
    decreases a.len(),
{
    if a.len() > 0 && b.len() > 0 && c.len() > 0 && a[0] == b[0] && b[0] == c[0] {
        lemma_text_lt_trans(a.drop_first(), b.drop_first(), c.drop_first());
    }
}

/// Compares texts in `text_lt` order.
pub fn text_less(a: &[char], b: &[char]) -> (r: bool)
    ensures
        r == text_lt(a@, b@),
{
    let mut i: usize = 0;
    assert(a@.skip(0) =~= a@);
    assert(b@.skip(0) =~= b@);
    while i < a.len() && i < b.len() && a[i] == b[i]
        invariant
            i <= a@.len(),
            i <= b@.len(),
            text_lt(a@, b@) == text_lt(a@.skip(i as int), b@.skip(i as int)),
        decreases a.len() - i,
    {
        assert(a@.skip(i as int).drop_first() =~= a@.skip(i + 1));
        assert(b@.skip(i as int).drop_first() =~= b@.skip(i + 1));
        assert(a@.skip(i as int)[0] == a@[i as int]);
        assert(b@.skip(i as int)[0] == b@[i as int]);
        i += 1;
    }
    if i < a.len() {
        assert(a@.skip(i as int)[0] == a@[i as int]);
    }
    if i < b.len() {
        assert(b@.skip(i as int)[0] == b@[i as int]);
    }
    if i == a.len() {
        i < b.len()
    } else if i == b.len() {
        false
    } else {
        a[i] < b[i]
    }
}

/// Two character sequences are equal.
pub fn seq_eq(a: &[char], b: &[char]) -> (r: bool)
    ensures
        r == (a@ == b@),
{
    if a.len() != b.len() {
        return false;
    }
    let mut i: usize = 0;
    while i < a.len()
        invariant
            a@.len() == b@.len(),
            i <= a@.len(),
            forall|k: int| 0 <= k < i ==> a@[k] == b@[k],
        decreases a.len() - i,
    {
        if a[i] != b[i] {
            return false;
        }
        i += 1;
    }
    assert(a@ =~= b@);
    true
}

// ---------------------------------------------------------------------------
// joining

/// `parts.join(sep)`.
pub open spec fn joined(parts: Seq<Seq<char>>, sep: Seq<char>) -> Seq<char>
    decreases parts.len(),
{
    if parts.len() == 0 {
        Seq::<char>::empty()
    } else if parts.len() == 1 {
        parts[0]
    } else {
        joined(parts.drop_last(), sep) + sep + parts.last()
    }
}

/// The views of a vector of strings.
pub open spec fn views(v: Seq<String>) -> Seq<Seq<char>> {
    v.map_values(|s: String| s@)
}

/// `parts.join(sep)` of a vector of strings.
pub fn join_strings(parts: &Vec<String>, sep: &str) -> (r: String)
    ensures
        r@ == joined(views(parts@), sep@),
{
    let mut out = String::new();
    let mut i: usize = 0;
    while i < parts.len()
        invariant
            i <= parts@.len(),
            out@ == joined(views(parts@).take(i as int), sep@),
        decreases parts.len() - i,
    {
        let ghost pre = views(parts@).take(i as int);
        if i > 0 {
            push_str(&mut out, sep);
        }
        push_str(&mut out, parts[i].as_str());
        i += 1;
        proof {
            let now = views(parts@).take(i as int);
            assert(now.drop_last() =~= pre);
            if i == 1 {
                assert(pre.len() == 0);
                assert(out@ =~= now[0]);
            }
        }
    }
    assert(views(parts@).take(parts@.len() as int) =~= views(parts@));
    out
}

} // verus!
