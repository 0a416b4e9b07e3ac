//! What the subcommands print: padded columns, the grouped error summary,
//! the raw-match window of `lsman errors --raw`, and database grids.

use vstd::prelude::*;
use crate::cli::clip_spec;
use crate::db::{Cell, CellView, Row, field, row_view};
use crate::num::{decimal, decimal_int, push_decimal, push_decimal_i64};
use crate::report::{or_text, ErrorScan};
use crate::resolve::Resolved;
use crate::text::{chars_of, is_ws, push_char, push_str, string_of_range, trim_end};
use crate::triage::ErrorGroup;

verus! {

// ---------------------------------------------------------------------------
// padding

/// `{:<w}`: `s` followed by spaces up to `w` characters.
pub open spec fn pad_right(s: Seq<char>, w: nat) -> Seq<char> {
    if s.len() >= w {
        s
    } else {
        s + Seq::new((w - s.len()) as nat, |_i: int| ' ')
    }
}

/// `{:>w}`: spaces up to `w` characters, then `s`.
pub open spec fn pad_left(s: Seq<char>, w: nat) -> Seq<char> {
    if s.len() >= w {
        s
    } else {
        Seq::new((w - s.len()) as nat, |_i: int| ' ') + s
    }
}

/// Appends `n` spaces.
fn push_spaces(s: &mut String, n: usize)
    ensures
        final(s)@ == old(s)@ + Seq::new(n as nat, |_i: int| ' '),
{
    let mut k: usize = 0;
    while k < n
        invariant
            k <= n,
            s@ == old(s)@ + Seq::new(k as nat, |_i: int| ' '),
        decreases n - k,
    {
        push_char(s, ' ');
        k += 1;
        assert(s@ =~= old(s)@ + Seq::new(k as nat, |_i: int| ' '));
    }
}

/// Appends `pad_right(t, w)`.
pub fn push_padded_right(s: &mut String, t: &str, w: usize)
    ensures
        final(s)@ == old(s)@ + pad_right(t@, w as nat),
{
    let n = t.unicode_len();
    push_str(s, t);
    if n < w {
        push_spaces(s, w - n);
    }
    assert(s@ =~= old(s)@ + pad_right(t@, w as nat));
}

/// Appends `pad_left(t, w)`.
pub fn push_padded_left(s: &mut String, t: &str, w: usize)
    ensures
        final(s)@ == old(s)@ + pad_left(t@, w as nat),
{
    let n = t.unicode_len();
    if n < w {
        push_spaces(s, w - n);
    }
    push_str(s, t);
    assert(s@ =~= old(s)@ + pad_left(t@, w as nat));
}

// ---------------------------------------------------------------------------
// `lsman errors --raw`: the last matches of a log

/// The last `n` elements of `s`.
pub open spec fn last_of<A>(s: Seq<A>, n: nat) -> Seq<A> {
    if s.len() > n {
        s.skip(s.len() - n)
    } else {
        s
    }
}

/// The matching lines of one log: how many there were, and the last
/// `max` of them with their 1-based line numbers.
pub struct RawMatches {
    max: usize,
    kept: Vec<(usize, String)>,
    count: usize,
    seen: Ghost<Seq<(usize, Seq<char>)>>,
}

impl RawMatches {
    /// The matches added so far.
    pub closed spec fn all(&self) -> Seq<(usize, Seq<char>)> {
        self.seen@
    }

    /// How many lines are kept.
    pub closed spec fn limit(&self) -> nat {
        self.max as nat
    }

    /// The window's invariant.
    pub closed spec fn wf(&self) -> bool {
        &&& self.count == self.seen@.len()
        &&& self.kept@.map_values(|m: (usize, String)| (m.0, m.1@)) == last_of(
            self.seen@,
            self.max as nat,
        )
    }

    /// No matches yet; at most `max` are kept.
    pub fn new(max: usize) -> (r: Self)
        ensures
            r.wf(),
            r.all() == Seq::<(usize, Seq<char>)>::empty(),
            r.limit() == max,
    {
        let r = RawMatches { max, kept: Vec::new(), count: 0, seen: Ghost(Seq::empty()) };
        assert(r.kept@.map_values(|m: (usize, String)| (m.0, m.1@)) =~= last_of(
            Seq::<(usize, Seq<char>)>::empty(),
            max as nat,
        ));
        r
    }

    /// Record a matching line.
    pub fn add(&mut self, line_no: usize, line: String)
        requires
            old(self).wf(),
            old(self).all().len() < usize::MAX,
        ensures
            final(self).wf(),
            final(self).all() == old(self).all().push((line_no, line@)),
            final(self).limit() == old(self).limit(),
    {
        let ghost before = self.seen@;
        let ghost lv = line@;
        self.count = self.count + 1;
        self.seen = Ghost(before.push((line_no, lv)));
        if self.max == 0 {
            assert(self.kept@.map_values(|m: (usize, String)| (m.0, m.1@)) =~= last_of(
                self.seen@,
                0,
            ));
            return;
        }
        let ghost kept0 = self.kept@.map_values(|m: (usize, String)| (m.0, m.1@));
        if self.kept.len() == self.max {
            self.kept.remove(0);
        }
        self.kept.push((line_no, line));
        proof {
            let all = before.push((line_no, lv));
            let m = self.max as nat;
            let kv = self.kept@.map_values(|m: (usize, String)| (m.0, m.1@));
            if kept0.len() == m {
                assert(before.len() >= m);
                assert(kv =~= kept0.drop_first().push((line_no, lv)));
                assert(last_of(all, m) =~= before.skip(before.len() - m).drop_first().push(
                    (line_no, lv),
                ));
            } else {
                assert(before.len() < m);
                assert(kv =~= before.push((line_no, lv)));
            }
            assert(kv =~= last_of(all, m));
        }
    }

    /// How many lines matched.
    pub fn count(&self) -> (r: usize)
        requires
            self.wf(),
        ensures
            r == self.all().len(),
    {
        self.count
    }

    /// The kept matches, oldest first.
    pub fn kept(&self) -> (r: &Vec<(usize, String)>)
        requires
            self.wf(),
        ensures
            r@.map_values(|m: (usize, String)| (m.0, m.1@)) == last_of(self.all(), self.limit()),
    {
        &self.kept
    }
}

/// The heading of one log's raw matches.
pub open spec fn raw_heading_spec(name: Seq<char>, count: nat, max: nat) -> Seq<char> {
    if count > max {
        "== "@ + name + " ("@ + decimal(count) + " matches, showing last "@ + decimal(max)
            + ") =="@
    } else {
        "== "@ + name + " ("@ + decimal(count) + " matches) =="@
    }
}

/// Executable `raw_heading_spec`.
pub fn raw_heading(name: &str, count: usize, max: usize) -> (r: String)
    ensures
        r@ == raw_heading_spec(name@, count as nat, max as nat),
{
    let mut s = String::from_str("== ");
    push_str(&mut s, name);
    push_str(&mut s, " (");
    push_decimal(&mut s, count as u64);
    if count > max {
        push_str(&mut s, " matches, showing last ");
        push_decimal(&mut s, max as u64);
        push_str(&mut s, ") ==");
    } else {
        push_str(&mut s, " matches) ==");
    }
    assert(s@ =~= raw_heading_spec(name@, count as nat, max as nat));
    s
}

/// One raw match: `<log>:<line number>: <line>`.
pub fn raw_line(name: &str, line_no: usize, line: &str) -> (r: String)
    ensures
        r@ == name@ + ":"@ + decimal(line_no as nat) + ": "@ + line@,
{
    let mut s = String::from_str(name);
    push_str(&mut s, ":");
    push_decimal(&mut s, line_no as u64);
    push_str(&mut s, ": ");
    push_str(&mut s, line);
    s
}

// ---------------------------------------------------------------------------
// `lsman errors`: the grouped summary

/// One row of the site table.
pub open spec fn site_row_spec(g: ErrorGroup) -> Seq<char> {
    pad_right(g.log@, 10) + " "@ + pad_right(g.site@, 34) + " "@ + pad_left(decimal(g.count as nat), 6)
        + "  "@ + pad_right(or_text(g.first_seen, "-"@), 15) + " "@ + pad_right(
        or_text(g.last_seen, "-"@),
        15,
    )
}

/// The site table's heading row.
pub open spec fn site_heading_spec() -> Seq<char> {
    pad_right("LOG"@, 10) + " "@ + pad_right("SITE"@, 34) + " "@ + pad_left("COUNT"@, 6) + "  "@
        + pad_right("FIRST SEEN"@, 15) + " "@ + pad_right("LAST SEEN"@, 15)
}

/// A row of the site table.
pub fn site_row(g: &ErrorGroup) -> (r: String)
    ensures
        r@ == site_row_spec(*g),
{
    let mut s = String::new();
    push_padded_right(&mut s, g.log.as_str(), 10);
    push_str(&mut s, " ");
    push_padded_right(&mut s, g.site.as_str(), 34);
    push_str(&mut s, " ");
    let mut c = String::new();
    push_decimal(&mut c, g.count as u64);
    push_padded_left(&mut s, c.as_str(), 6);
    push_str(&mut s, "  ");
    match &g.first_seen {
        Some(f) => push_padded_right(&mut s, f.as_str(), 15),
        None => push_padded_right(&mut s, "-", 15),
    }
    push_str(&mut s, " ");
    match &g.last_seen {
        Some(l) => push_padded_right(&mut s, l.as_str(), 15),
        None => push_padded_right(&mut s, "-", 15),
    }
    assert(s@ =~= site_row_spec(*g));
    s
}

/// The heading row of the site table.
pub fn site_heading() -> (r: String)
    ensures
        r@ == site_heading_spec(),
{
    let mut s = String::new();
    push_padded_right(&mut s, "LOG", 10);
    push_str(&mut s, " ");
    push_padded_right(&mut s, "SITE", 34);
    push_str(&mut s, " ");
    push_padded_left(&mut s, "COUNT", 6);
    push_str(&mut s, "  ");
    push_padded_right(&mut s, "FIRST SEEN", 15);
    push_str(&mut s, " ");
    push_padded_right(&mut s, "LAST SEEN", 15);
    assert(s@ =~= site_heading_spec());
    s
}

/// The first line of the summary: how many lines matched across how many
/// sites, in which window.
pub open spec fn summary_head_spec(total: nat, sites: nat, since: Option<Seq<char>>) -> Seq<char> {
    decimal(total) + " error/crash lines across "@ + decimal(sites) + " source sites"@ + match since {
        Some(s) => " in the last "@ + s,
        None => Seq::empty(),
    } + " (timestamps are UTC)"@
}

/// Executable `summary_head_spec`.
pub fn summary_head(total: usize, sites: usize, since: Option<&str>) -> (r: String)
    ensures
        r@ == summary_head_spec(
            total as nat,
            sites as nat,
            match since {
                Some(s) => Some(s@),
                None => None,
            },
        ),
{
    let mut s = String::new();
    push_decimal(&mut s, total as u64);
    push_str(&mut s, " error/crash lines across ");
    push_decimal(&mut s, sites as u64);
    push_str(&mut s, " source sites");
    match since {
        Some(l) => {
            push_str(&mut s, " in the last ");
            push_str(&mut s, l);
        },
        None => {},
    }
    push_str(&mut s, " (timestamps are UTC)");
    assert(s@ =~= summary_head_spec(
        total as nat,
        sites as nat,
        match since {
            Some(x) => Some(x@),
            None => None,
        },
    ));
    s
}

/// The line after a cut site table.
pub fn more_sites(shown: usize, total: usize) -> (r: Option<String>)
    ensures
        total > shown ==> (r matches Some(s) && s@ == "… and "@ + decimal((total - shown) as nat)
            + " more sites (raise -n)"@),
        total <= shown ==> r is None,
{
    if total > shown {
        let mut s = String::from_str("… and ");
        push_decimal(&mut s, (total - shown) as u64);
        push_str(&mut s, " more sites (raise -n)");
        Some(s)
    } else {
        None
    }
}

// ---------------------------------------------------------------------------
// `lsman db --table`: a grid of cells

/// What a grid cell shows: a resolved string (clipped), nothing for a
/// missing value or NULL, text clipped, anything else as JSON.
pub open spec fn cell_text_spec(
    value: Option<CellView>,
    col: Seq<char>,
    resolved: Map<(Seq<char>, i64), Seq<char>>,
) -> Seq<char> {
    match value {
        None => Seq::empty(),
        Some(v) => match v {
            CellView::Int(i) => if resolved.contains_key((col, i)) {
                clip_spec(resolved[(col, i)])
            } else {
                decimal_int(i as int)
            },
            CellView::Null => Seq::empty(),
            CellView::Text(t) => clip_spec(t),
            CellView::Other(t) => t,
        },
    }
}

/// The text of column `col` of a row in the grid.
pub fn render_db_cell(row: &Row, col: &str, resolved: &Resolved) -> (r: String)
    ensures
        r@ == cell_text_spec(field(row_view(*row), col@), col@, resolved@),
{
    match crate::process_tree::get_field(row, col) {
        None => String::new(),
        Some(Cell::Int(i)) => match resolved.get(col, *i) {
            Some(s) => crate::cli::clip_cell(s.as_str()),
            None => {
                let mut t = String::new();
                push_decimal_i64(&mut t, *i);
                t
            },
        },
        Some(Cell::Null) => String::new(),
        Some(Cell::Text(t)) => crate::cli::clip_cell(t.as_str()),
        Some(Cell::Other(t)) => String::from_str(t.as_str()),
    }
}

/// The heading of a grid column: marked `*` when its IDs resolved.
pub fn grid_heading(col: &str, resolved: &Resolved) -> (r: String)
    ensures
        (exists|id: i64| resolved@.contains_key((col@, id))) ==> r@ == col@ + "*"@,
        !(exists|id: i64| resolved@.contains_key((col@, id))) ==> r@ == col@,
{
    let mut s = String::from_str(col);
    if resolved.has_column(col) {
        push_str(&mut s, "*");
    }
    s
}

/// The widest cell of each column, in characters.
pub open spec fn column_width(grid: Seq<Seq<Seq<char>>>, c: int) -> nat
    decreases grid.len(),
{
    if grid.len() == 0 {
        0
    } else {
        let w = column_width(grid.drop_last(), c);
        let l = if 0 <= c < grid.last().len() {
            grid.last()[c].len()
        } else {
            0
        };
        if l > w {
            l
        } else {
            w
        }
    }
}

/// A grid line: every cell padded to its column's width, two spaces
/// between columns, trailing whitespace trimmed.
pub open spec fn grid_line_spec(cells: Seq<Seq<char>>, widths: Seq<nat>) -> Seq<char> {
    trim_end(padded_cells(cells, widths))
}

/// The padded cells joined by two spaces.
pub open spec fn padded_cells(cells: Seq<Seq<char>>, widths: Seq<nat>) -> Seq<char>
    decreases cells.len(),
{
    if cells.len() == 0 {
        Seq::empty()
    } else if cells.len() == 1 {
        pad_right(cells[0], widths[0])
    } else {
        padded_cells(cells.drop_last(), widths) + "  "@ + pad_right(
            cells.last(),
            widths[cells.len() - 1],
        )
    }
}

/// The lines of a grid whose rows all have one cell per column.
pub fn render_grid(grid: &Vec<Vec<String>>, ncols: usize) -> (r: Vec<String>)
    requires
        forall|k: int| 0 <= k < grid@.len() ==> (#[trigger] grid@[k])@.len() == ncols,
    ensures
        r@.len() == grid@.len(),
        forall|k: int|
            0 <= k < grid@.len() ==> (#[trigger] r@[k])@ == grid_line_spec(
                grid@[k]@.map_values(|s: String| s@),
                Seq::new(
                    ncols as nat,
                    |c: int| column_width(grid@.map_values(|row: Vec<String>| row@.map_values(|s: String| s@)), c),
                ),
            ),
{
    let ghost gv = grid@.map_values(|row: Vec<String>| row@.map_values(|s: String| s@));
    // widths
    let mut widths: Vec<usize> = Vec::new();
    let mut c: usize = 0;
    while c < ncols
        invariant
            c <= ncols,
            gv == grid@.map_values(|row: Vec<String>| row@.map_values(|s: String| s@)),
            forall|k: int| 0 <= k < grid@.len() ==> (#[trigger] grid@[k])@.len() == ncols,
            widths@.len() == c,
            forall|j: int| 0 <= j < c ==> widths@[j] == column_width(gv, j),
        decreases ncols - c,
    {
        let mut w: usize = 0;
        let mut i: usize = 0;
        while i < grid.len()
            invariant
                c < ncols,
                i <= grid@.len(),
                gv == grid@.map_values(|row: Vec<String>| row@.map_values(|s: String| s@)),
                forall|k: int| 0 <= k < grid@.len() ==> (#[trigger] grid@[k])@.len() == ncols,
                w == column_width(gv.take(i as int), c as int),
            decreases grid.len() - i,
        {
            assert(gv.take(i + 1).drop_last() =~= gv.take(i as int));
            assert(gv.take(i + 1).last() == gv[i as int]);
            assert(gv[i as int][c as int] == grid@[i as int]@[c as int]@);
            let l = grid[i][c].as_str().unicode_len();
            if l > w {
                w = l;
            }
            i += 1;
        }
        assert(gv.take(i as int) =~= gv);
        widths.push(w);
        c += 1;
    }
    let ghost wv = Seq::new(ncols as nat, |c: int| column_width(gv, c));
    let mut out: Vec<String> = Vec::new();
    let mut i: usize = 0;
    while i < grid.len()
        invariant
            i <= grid@.len(),
            gv == grid@.map_values(|row: Vec<String>| row@.map_values(|s: String| s@)),
            forall|k: int| 0 <= k < grid@.len() ==> (#[trigger] grid@[k])@.len() == ncols,
            widths@.len() == ncols,
            forall|j: int| 0 <= j < ncols ==> widths@[j] == column_width(gv, j),
            wv == Seq::new(ncols as nat, |c: int| column_width(gv, c)),
            out@.len() == i,
            forall|k: int| 0 <= k < i ==> (#[trigger] out@[k])@ == grid_line_spec(gv[k], wv),
        decreases grid.len() - i,
    {
        let row = &grid[i];
        let ghost rv = gv[i as int];
        assert(rv == row@.map_values(|s: String| s@));
        let mut line = String::new();
        let mut c: usize = 0;
        while c < row.len()
            invariant
                c <= row@.len() == ncols,
                widths@.len() == ncols,
                forall|j: int| 0 <= j < ncols ==> widths@[j] == column_width(gv, j),
                wv == Seq::new(ncols as nat, |c: int| column_width(gv, c)),
                rv == row@.map_values(|s: String| s@),
                line@ == padded_cells(rv.take(c as int), wv),
            decreases row.len() - c,
        {
            if c > 0 {
                push_str(&mut line, "  ");
            }
            push_padded_right(&mut line, row[c].as_str(), widths[c]);
            c += 1;
            proof {
                let t = rv.take(c as int);
                assert(t.drop_last() =~= rv.take(c - 1));
                assert(t.last() == row@[c - 1]@);
                assert(wv[c - 1] == widths@[c - 1]);
                if c == 1 {
                    assert(line@ =~= pad_right(t[0], wv[0]));
                }
            }
        }
        assert(rv.take(c as int) =~= rv);
        let trimmed = trim_end_string(line.as_str());
        out.push(trimmed);
        i += 1;
    }
    out
}

/// `str::trim_end` as a new string.
fn trim_end_string(s: &str) -> (r: String)
    ensures
        r@ == trim_end(s@),
{
    let v = chars_of(s);
    let mut b = v.len();
    assert(v@.take(b as int) =~= v@);
    while b > 0 && crate::text::char_is_ws(v[b - 1])
        invariant
            b <= v@.len(),
            v@ == s@,
            trim_end(s@) == trim_end(v@.take(b as int)),
        decreases b,
    {
        assert(v@.take(b as int).drop_last() =~= v@.take(b - 1));
        b -= 1;
    }
    let r = string_of_range(&v, 0, b);
    assert(r@ =~= v@.take(b as int));
    r
}

} // verus!
