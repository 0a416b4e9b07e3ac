//! The start-up animation of the terminal dashboard as a script: which
//! lines are on screen at each step, how long each step lasts, and how a
//! key press during a step is answered. Drawing and sleeping happen
//! outside; the front end plays the steps in order.

use vstd::prelude::*;
use crate::text::{chars_of, string_of_range};

verus! {

/// How a line of the animation is styled.
#[derive(Debug, Clone, Copy, PartialEq, Eq, Structural)]
pub enum LineKind {
    Blank,
    Title,
    Text,
    Art,
    Good,
    Bad,
    Warn,
}

/// A line of the animation.
#[derive(Debug)]
pub struct BootLine {
    pub text: String,
    pub kind: LineKind,
}

/// One step of the animation.
#[derive(Debug)]
pub struct BootStep {
    /// The lines to draw, or nothing (a pause only).
    pub lines: Option<Vec<BootLine>>,
    /// Whether the key hint reads "Skip" rather than "Skip Animation".
    pub short_hint: bool,
    /// Whether a key press is checked for after the step: Enter skips to
    /// the end, `q` quits.
    pub listen: bool,
    /// Whether skipping from this step draws the final frame first.
    pub skip_redraws: bool,
    /// How long the step lasts.
    pub pause_ms: u64,
}

pub type LineView = (Seq<char>, LineKind);

/// The contents of a step.
pub struct StepView {
    pub lines: Option<Seq<LineView>>,
    pub short_hint: bool,
    pub listen: bool,
    pub skip_redraws: bool,
    pub pause_ms: nat,
}

/// The view of a line.
pub open spec fn line_view(l: BootLine) -> LineView {
    (l.text@, l.kind)
}

/// The view of a step.
pub open spec fn step_view(s: BootStep) -> StepView {
    StepView {
        lines: match s.lines {
            Some(ls) => Some(ls@.map_values(|l: BootLine| line_view(l))),
            None => None,
        },
        short_hint: s.short_hint,
        listen: s.listen,
        skip_redraws: s.skip_redraws,
        pause_ms: s.pause_ms as nat,
    }
}

pub const TITLE: &'static str = "[ S Y S T R A C K   S O F T W A R E   ( C ) 2000 ]";
pub const INIT: &'static str = "> INITIALIZING MODULE...";
pub const LOADING: &'static str = "> LOADING: LSI AGENT";
pub const ART1: &'static str = "  ██╗     ███████╗██╗     █████╗  ██████╗ ███████╗███╗   ██╗████████╗";
pub const ART2: &'static str = "  ██║     ██╔════╝██║    ██╔══██╗██╔════╝ ██╔════╝████╗  ██║╚══██╔══╝";
pub const ART3: &'static str = "  ██║     ███████╗██║    ███████║██║  ███╗█████╗  ██╔██╗ ██║   ██║   ";
pub const ART4: &'static str = "  ██║     ╚════██║██║    ██╔══██║██║   ██║██╔══╝  ██║╚██╗██║   ██║   ";
pub const ART5: &'static str = "  ███████╗███████║██║    ██║  ██║╚██████╔╝███████╗██║ ╚████║   ██║   ";
pub const ART6: &'static str = "  ╚══════╝╚══════╝╚═╝    ╚═╝  ╚═╝ ╚═════╝ ╚══════╝╚═╝  ╚═══╝   ╚═╝   ";
pub const OPERATIONAL: &'static str = "> STATUS: OPERATIONAL";
pub const INOPERATIONAL: &'static str = "> STATUS: INOPERATIONAL";
pub const NO_PERMISSIONS: &'static str = "> ERROR: INSUFFICIENT PERMISSIONS";
pub const TRY_ADMIN: &'static str = "> TRY LAUNCHING AS ADMIN";
pub const PRESS_ENTER: &'static str = "> PRESS ENTER TO EXIT";

/// A blank line.
pub open spec fn blank() -> LineView {
    (Seq::empty(), LineKind::Blank)
}

/// The lines each frame adds: the header, the loading message, the logo,
/// and the status (which depends on running as root).
pub open spec fn new_lines(frame: nat, root: bool) -> Seq<LineView> {
    if frame == 0 {
        seq![(TITLE@, LineKind::Title), blank(), (INIT@, LineKind::Text)]
    } else if frame == 1 {
        seq![(LOADING@, LineKind::Text)]
    } else if frame == 2 {
        seq![
            blank(),
            (ART1@, LineKind::Art),
            (ART2@, LineKind::Art),
            (ART3@, LineKind::Art),
            (ART4@, LineKind::Art),
            (ART5@, LineKind::Art),
            (ART6@, LineKind::Art),
        ]
    } else if root {
        seq![blank(), (OPERATIONAL@, LineKind::Good)]
    } else {
        seq![
            blank(),
            (INOPERATIONAL@, LineKind::Bad),
            blank(),
            (NO_PERMISSIONS@, LineKind::Bad),
            (TRY_ADMIN@, LineKind::Bad),
        ]
    }
}

/// The complete frame `frame`: every line of the frames so far.
pub open spec fn full_frame(frame: nat, root: bool) -> Seq<LineView>
    decreases frame,
{
    if frame == 0 {
        new_lines(0, root)
    } else {
        full_frame((frame - 1) as nat, root) + new_lines(frame, root)
    }
}

/// A drawing step.
pub open spec fn draw(lines: Seq<LineView>, short_hint: bool, pause_ms: nat) -> StepView {
    StepView { lines: Some(lines), short_hint, listen: true, skip_redraws: true, pause_ms }
}

/// The steps that bring `line` onto the screen below `base`: none for a
/// blank line (it appears with the next one), one for a logo line, and one
/// per character typed (from none to all) for text.
pub open spec fn line_steps(base: Seq<LineView>, line: LineView, logo: bool) -> Seq<StepView> {
    if line.1 == LineKind::Blank {
        Seq::empty()
    } else if logo {
        seq![draw(base.push(line), true, 80)]
    } else {
        Seq::new((line.0.len() + 1) as nat, |k: int| draw(base.push((line.0.take(k), line.1)), false, 0))
    }
}

/// The steps that bring the lines `new` onto the screen below `base`.
pub open spec fn lines_steps(base: Seq<LineView>, new: Seq<LineView>, logo: bool) -> Seq<StepView>
    decreases new.len(),
{
    if new.len() == 0 {
        Seq::empty()
    } else {
        lines_steps(base, new.drop_last(), logo) + line_steps(
            base + new.drop_last(),
            new.last(),
            logo,
        )
    }
}

/// The steps of frame `frame`.
pub open spec fn frame_steps(frame: nat, root: bool) -> Seq<StepView> {
    let base = if frame == 0 {
        Seq::empty()
    } else {
        full_frame((frame - 1) as nat, root)
    };
    lines_steps(base, new_lines(frame, root), frame == 2)
}

/// The whole animation. After the last frame, a root user sees it for a
/// second (half a second more first, both skippable); otherwise a prompt
/// to exit is added and shown for five seconds.
pub open spec fn script(root: bool) -> Seq<StepView> {
    let last = full_frame(3, root);
    let typed = frame_steps(0, root) + frame_steps(1, root) + frame_steps(2, root) + frame_steps(
        3,
        root,
    );
    if root {
        typed + seq![
            StepView { lines: None, short_hint: false, listen: true, skip_redraws: true, pause_ms: 500 },
            StepView { lines: None, short_hint: false, listen: true, skip_redraws: false, pause_ms: 1000 },
        ]
    } else {
        typed + seq![
            StepView {
                lines: Some(last.push(blank()).push((PRESS_ENTER@, LineKind::Warn))),
                short_hint: false,
                listen: false,
                skip_redraws: false,
                pause_ms: 5000,
            },
        ]
    }
}

// ---------------------------------------------------------------------------

fn line(text: &str, kind: LineKind) -> (r: BootLine)
    ensures
        line_view(r) == (text@, kind),
{
    BootLine { text: String::from_str(text), kind }
}

fn blank_line() -> (r: BootLine)
    ensures
        line_view(r) == blank(),
{
    let r = BootLine { text: String::new(), kind: LineKind::Blank };
    assert(r.text@ =~= Seq::<char>::empty());
    r
}

/// The lines frame `frame` adds.
fn new_lines_of(frame: usize, root: bool) -> (r: Vec<BootLine>)
    requires
        frame <= 3,
    ensures
        r@.map_values(|l: BootLine| line_view(l)) == new_lines(frame as nat, root),
{
    let mut v: Vec<BootLine> = Vec::new();
    if frame == 0 {
        v.push(line(TITLE, LineKind::Title));
        v.push(blank_line());
        v.push(line(INIT, LineKind::Text));
    } else if frame == 1 {
        v.push(line(LOADING, LineKind::Text));
    } else if frame == 2 {
        v.push(blank_line());
        v.push(line(ART1, LineKind::Art));
        v.push(line(ART2, LineKind::Art));
        v.push(line(ART3, LineKind::Art));
        v.push(line(ART4, LineKind::Art));
        v.push(line(ART5, LineKind::Art));
        v.push(line(ART6, LineKind::Art));
    } else if root {
        v.push(blank_line());
        v.push(line(OPERATIONAL, LineKind::Good));
    } else {
        v.push(blank_line());
        v.push(line(INOPERATIONAL, LineKind::Bad));
        v.push(blank_line());
        v.push(line(NO_PERMISSIONS, LineKind::Bad));
        v.push(line(TRY_ADMIN, LineKind::Bad));
    }
    assert(v@.map_values(|l: BootLine| line_view(l)) =~= new_lines(frame as nat, root));
    v
}

/// A copy of a list of lines.
fn copy_lines(ls: &Vec<BootLine>) -> (r: Vec<BootLine>)
    ensures
        r@.map_values(|l: BootLine| line_view(l)) == ls@.map_values(|l: BootLine| line_view(l)),
{
    let mut out: Vec<BootLine> = Vec::new();
    let mut i: usize = 0;
    while i < ls.len()
        invariant
            i <= ls@.len(),
            out@.map_values(|l: BootLine| line_view(l)) == ls@.take(i as int).map_values(
                |l: BootLine| line_view(l),
            ),
        decreases ls.len() - i,
    {
        let ghost before = out@.map_values(|l: BootLine| line_view(l));
        let c = BootLine { text: ls[i].text.clone(), kind: ls[i].kind };
        assert(line_view(c) == line_view(ls@[i as int]));
        out.push(c);
        assert(out@.map_values(|l: BootLine| line_view(l)) =~= before.push(line_view(ls@[i as int])));
        assert(ls@.take(i + 1) =~= ls@.take(i as int).push(ls@[i as int]));
        i += 1;
        assert(out@.map_values(|l: BootLine| line_view(l)) =~= ls@.take(i as int).map_values(
            |l: BootLine| line_view(l),
        ));
    }
    assert(ls@.take(i as int) =~= ls@);
    out
}

/// The views of a list of steps.
pub open spec fn steps_view(ss: Seq<BootStep>) -> Seq<StepView> {
    ss.map_values(|s: BootStep| step_view(s))
}

/// Append the steps that bring `l` onto the screen below `base`.
fn push_line_steps(out: &mut Vec<BootStep>, base: &Vec<BootLine>, l: &BootLine, logo: bool)
    ensures
        steps_view(final(out)@) == steps_view(old(out)@) + line_steps(
            base@.map_values(|x: BootLine| line_view(x)),
            line_view(*l),
            logo,
        ),
{
    let ghost bv = base@.map_values(|x: BootLine| line_view(x));
    let ghost start = steps_view(out@);
    if l.kind == LineKind::Blank {
        assert(line_steps(bv, line_view(*l), logo) =~= Seq::<StepView>::empty());
        assert(steps_view(out@) =~= start + Seq::<StepView>::empty());
        return;
    }
    if logo {
        let mut shown = copy_lines(base);
        shown.push(BootLine { text: l.text.clone(), kind: l.kind });
        let ghost sv = shown@.map_values(|x: BootLine| line_view(x));
        assert(sv =~= bv.push(line_view(*l)));
        out.push(BootStep { lines: Some(shown), short_hint: true, listen: true, skip_redraws: true, pause_ms: 80 });
        assert(steps_view(out@) =~= start + line_steps(bv, line_view(*l), logo));
        return;
    }
    let chars = chars_of(l.text.as_str());
    let n = chars.len();
    let ghost expected = line_steps(bv, line_view(*l), logo);
    let mut k: usize = 0;
    loop
        invariant
            chars@ == l.text@,
            n == chars@.len(),
            k <= n,
            l.kind != LineKind::Blank,
            !logo,
            bv == base@.map_values(|x: BootLine| line_view(x)),
            expected == line_steps(bv, line_view(*l), logo),
            expected.len() == n + 1,
            start == steps_view(old(out)@),
            steps_view(out@) == start + expected.take(k as int),
        decreases n - k,
    {
        let mut shown = copy_lines(base);
        let partial = string_of_range(&chars, 0, k);
        shown.push(BootLine { text: partial, kind: l.kind });
        let ghost sv = shown@.map_values(|x: BootLine| line_view(x));
        assert(sv =~= bv.push((l.text@.take(k as int), l.kind)));
        let ghost before = steps_view(out@);
        out.push(BootStep { lines: Some(shown), short_hint: false, listen: true, skip_redraws: true, pause_ms: 0 });
        assert(expected[k as int] == draw(bv.push((l.text@.take(k as int), l.kind)), false, 0));
        assert(steps_view(out@) =~= before.push(expected[k as int]));
        assert(expected.take(k + 1) =~= expected.take(k as int).push(expected[k as int]));
        if k == n {
            assert(expected.take(k + 1) =~= expected);
            return;
        }
        k += 1;
    }

}

/// Append the steps of one frame; `shown` goes from the previous frame to
/// this one.
fn push_frame_steps(out: &mut Vec<BootStep>, shown: &mut Vec<BootLine>, new: Vec<BootLine>, logo: bool)
    ensures
        steps_view(final(out)@) == steps_view(old(out)@) + lines_steps(
            old(shown)@.map_values(|x: BootLine| line_view(x)),
            new@.map_values(|x: BootLine| line_view(x)),
            logo,
        ),
        final(shown)@.map_values(|x: BootLine| line_view(x)) == old(shown)@.map_values(
            |x: BootLine| line_view(x),
        ) + new@.map_values(|x: BootLine| line_view(x)),
{
    let ghost base = shown@.map_values(|x: BootLine| line_view(x));
    let ghost nv = new@.map_values(|x: BootLine| line_view(x));
    let ghost start = steps_view(out@);
    let mut rest = new;
    let total = rest.len();
    let mut i: usize = 0;
    while rest.len() > 0
        invariant
            total == nv.len(),
            i + rest@.len() == nv.len(),
            rest@.map_values(|x: BootLine| line_view(x)) == nv.skip(i as int),
            shown@.map_values(|x: BootLine| line_view(x)) == base + nv.take(i as int),
            steps_view(out@) == start + lines_steps(base, nv.take(i as int), logo),
        decreases rest.len(),
    {
        assert(nv.skip(i as int)[0] == line_view(rest@[0]));
        let l = rest.remove(0);
        assert(nv.skip(i as int).drop_first() =~= nv.skip(i + 1));
        let ghost sv = shown@.map_values(|x: BootLine| line_view(x));
        push_line_steps(out, shown, &l, logo);
        assert(nv.take(i + 1).drop_last() =~= nv.take(i as int));
        assert(nv.take(i + 1).last() == line_view(l));
        let ghost lv = line_view(l);
        shown.push(l);
        assert(shown@.map_values(|x: BootLine| line_view(x)) =~= sv.push(lv));
        i += 1;
        assert(shown@.map_values(|x: BootLine| line_view(x)) =~= base + nv.take(i as int));
        assert(steps_view(out@) =~= start + lines_steps(base, nv.take(i as int), logo));
    }
    assert(nv.take(i as int) =~= nv);
}

/// The start-up animation's steps, for a user who is root or not.
pub fn boot_script(root: bool) -> (r: Vec<BootStep>)
    ensures
        steps_view(r@) == script(root),
{
    let mut out: Vec<BootStep> = Vec::new();
    let mut shown: Vec<BootLine> = Vec::new();
    let mut f: usize = 0;
    assert(steps_view(out@) =~= Seq::<StepView>::empty());
    assert(shown@.map_values(|x: BootLine| line_view(x)) =~= Seq::<LineView>::empty());
    while f < 4
        invariant
            f <= 4,
            shown@.map_values(|x: BootLine| line_view(x)) == if f == 0 {
                Seq::<LineView>::empty()
            } else {
                full_frame((f - 1) as nat, root)
            },
            steps_view(out@) == if f == 0 {
                Seq::<StepView>::empty()
            } else if f == 1 {
                frame_steps(0, root)
            } else if f == 2 {
                frame_steps(0, root) + frame_steps(1, root)
            } else if f == 3 {
                frame_steps(0, root) + frame_steps(1, root) + frame_steps(2, root)
            } else {
                frame_steps(0, root) + frame_steps(1, root) + frame_steps(2, root) + frame_steps(
                    3,
                    root,
                )
            },
        decreases 4 - f,
    {
        let new = new_lines_of(f, root);
        push_frame_steps(&mut out, &mut shown, new, f == 2);
        proof {
            if f == 0 {
                assert(full_frame(0, root) =~= Seq::<LineView>::empty() + new_lines(0, root));
            }
        }
        f += 1;
    }
    let ghost typed = steps_view(out@);
    assert(typed == frame_steps(0, root) + frame_steps(1, root) + frame_steps(2, root)
        + frame_steps(3, root));
    if root {
        let s1 = BootStep { lines: None, short_hint: false, listen: true, skip_redraws: true, pause_ms: 500 };
        let s2 = BootStep { lines: None, short_hint: false, listen: true, skip_redraws: false, pause_ms: 1000 };
        let ghost v1 = step_view(s1);
        let ghost v2 = step_view(s2);
        out.push(s1);
        out.push(s2);
        assert(steps_view(out@) =~= typed.push(v1).push(v2));
        assert(steps_view(out@) =~= script(root));
    } else {
        let mut last = copy_lines(&shown);
        let ghost lv0 = last@.map_values(|x: BootLine| line_view(x));
        assert(lv0 == full_frame(3, root));
        last.push(blank_line());
        last.push(line(PRESS_ENTER, LineKind::Warn));
        let ghost lv = last@.map_values(|x: BootLine| line_view(x));
        assert(lv =~= full_frame(3, root).push(blank()).push((PRESS_ENTER@, LineKind::Warn)));
        let s3 = BootStep { lines: Some(last), short_hint: false, listen: false, skip_redraws: false, pause_ms: 5000 };
        let ghost v3 = step_view(s3);
        out.push(s3);
        assert(steps_view(out@) =~= typed.push(v3));
        assert(steps_view(out@) =~= script(root));
    }
    out
}

/// The final frame of the animation, drawn when it is skipped.
pub fn final_frame(root: bool) -> (r: Vec<BootLine>)
    ensures
        r@.map_values(|l: BootLine| line_view(l)) == full_frame(3, root),
{
    let mut shown: Vec<BootLine> = Vec::new();
    let mut f: usize = 0;
    assert(shown@.map_values(|x: BootLine| line_view(x)) =~= Seq::<LineView>::empty());
    while f < 4
        invariant
            f <= 4,
            shown@.map_values(|x: BootLine| line_view(x)) == if f == 0 {
                Seq::<LineView>::empty()
            } else {
                full_frame((f - 1) as nat, root)
            },
        decreases 4 - f,
    {
        let mut new = new_lines_of(f, root);
        let ghost sv = shown@.map_values(|x: BootLine| line_view(x));
        let ghost nv = new@.map_values(|x: BootLine| line_view(x));
        shown.append(&mut new);
        assert(shown@.map_values(|x: BootLine| line_view(x)) =~= sv + nv);
        proof {
            if f == 0 {
                assert(full_frame(0, root) =~= Seq::<LineView>::empty() + new_lines(0, root));
            }
        }
        f += 1;
    }
    shown
}

/// What a key press during a listening step does.
#[derive(Debug, Clone, Copy, PartialEq, Eq, Structural)]
pub enum BootKey {
    /// Keep playing.
    Continue,
    /// Stop the animation (after drawing the final frame if the step says
    /// so).
    Skip,
    /// Leave the program.
    Quit,
}

/// Enter skips, `q` or `Q` quits, anything else is ignored.
pub fn boot_key(key: crate::tabs::Key) -> (r: BootKey)
    ensures
        r == match key {
            crate::tabs::Key::Enter => BootKey::Skip,
            crate::tabs::Key::Char('q') | crate::tabs::Key::Char('Q') => BootKey::Quit,
            _ => BootKey::Continue,
        },
{
    match key {
        crate::tabs::Key::Enter => BootKey::Skip,
        crate::tabs::Key::Char('q') | crate::tabs::Key::Char('Q') => BootKey::Quit,
        _ => BootKey::Continue,
    }
}

} // verus!
