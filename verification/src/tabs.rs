//! The dashboard's tabs, their cyclic order, and what a key press does.

use vstd::prelude::*;

verus! {

/// A tab of the terminal dashboard.
#[derive(Debug, Clone, Copy, PartialEq, Eq, Structural)]
pub enum Tab {
    Overview,
    Resources,
    Network,
    Logs,
    Config,
    Settings,
}

/// The tab to the right of `t`, wrapping around.
pub open spec fn next_tab(t: Tab) -> Tab {
    match t {
        Tab::Overview => Tab::Resources,
        Tab::Resources => Tab::Network,
        Tab::Network => Tab::Logs,
        Tab::Logs => Tab::Config,
        Tab::Config => Tab::Settings,
        Tab::Settings => Tab::Overview,
    }
}

/// The tab to the left of `t`, wrapping around.
pub open spec fn prev_tab(t: Tab) -> Tab {
    match t {
        Tab::Overview => Tab::Settings,
        Tab::Resources => Tab::Overview,
        Tab::Network => Tab::Resources,
        Tab::Logs => Tab::Network,
        Tab::Config => Tab::Logs,
        Tab::Settings => Tab::Config,
    }
}

impl Tab {
    /// The tab to the right, wrapping from the last to the first.
    pub fn next(&self) -> (r: Self)
        ensures
            r == next_tab(*self),
    {
        match self {
            Tab::Overview => Tab::Resources,
            Tab::Resources => Tab::Network,
            Tab::Network => Tab::Logs,
            Tab::Logs => Tab::Config,
            Tab::Config => Tab::Settings,
            Tab::Settings => Tab::Overview,
        }
    }

    /// The tab to the left, wrapping from the first to the last.
    pub fn prev(&self) -> (r: Self)
        ensures
            r == prev_tab(*self),
    {
        match self {
            Tab::Overview => Tab::Settings,
            Tab::Resources => Tab::Overview,
            Tab::Network => Tab::Resources,
            Tab::Logs => Tab::Network,
            Tab::Config => Tab::Logs,
            Tab::Settings => Tab::Config,
        }
    }

    /// The tab's position in the tab bar, from 0.
    pub fn index(&self) -> (r: usize)
        ensures
            r == tab_index(*self),
    {
        match self {
            Tab::Overview => 0,
            Tab::Resources => 1,
            Tab::Network => 2,
            Tab::Logs => 3,
            Tab::Config => 4,
            Tab::Settings => 5,
        }
    }
}

/// The tab's position in the tab bar, from 0.
pub open spec fn tab_index(t: Tab) -> nat {
    match t {
        Tab::Overview => 0,
        Tab::Resources => 1,
        Tab::Network => 2,
        Tab::Logs => 3,
        Tab::Config => 4,
        Tab::Settings => 5,
    }
}

/// `prev` undoes `next` and `next` undoes `prev`.
pub proof fn lemma_next_prev_inverse(t: Tab)
    ensures
        prev_tab(next_tab(t)) == t,
        next_tab(prev_tab(t)) == t,
{
}

/// `next` moves one place right in the tab bar, the last wrapping to the
/// first; so six steps come back to the start, and every tab is reached
/// from any tab within five.
pub proof fn lemma_next_cycle(t: Tab, u: Tab)
    ensures
        tab_index(next_tab(t)) == (tab_index(t) + 1) % 6,
        next_tab(next_tab(next_tab(next_tab(next_tab(next_tab(t)))))) == t,
        u == t || u == next_tab(t) || u == next_tab(next_tab(t)) || u == next_tab(next_tab(next_tab(t)))
            || u == next_tab(next_tab(next_tab(next_tab(t)))) || u == next_tab(
            next_tab(next_tab(next_tab(next_tab(t)))),
        ),
{
}

/// A key press, as far as the dashboard tells keys apart.
#[derive(Debug, Clone, Copy, PartialEq, Eq, Structural)]
pub enum Key {
    Char(char),
    Esc,
    Enter,
    Tab,
    BackTab,
    /// A function key, `F(1)` for F1.
    F(u8),
    Up,
    Down,
    Left,
    Right,
    PageUp,
    PageDown,
    Other,
}

/// How far a scroll key moves.
#[derive(Debug, Clone, Copy, PartialEq, Eq, Structural)]
pub enum ScrollStep {
    Line,
    HalfPage,
    Page,
}

/// What a key press asks of the dashboard besides switching tabs.
#[derive(Debug, Clone, Copy, PartialEq, Eq, Structural)]
pub enum KeyAction {
    Nothing,
    Quit,
    StartDaemon,
    StopDaemon,
    /// Refresh now instead of at the next tick.
    Refresh,
    /// Scroll the tab's text, down or up.
    Scroll(ScrollStep, bool),
    /// Show the previous available log file.
    PrevLog,
    /// Show the next available log file.
    NextLog,
    /// Show the Nth available log file, from 0.
    SelectLog(u8),
}

/// Whether a tab shows scrollable text.
pub open spec fn scrolls(t: Tab) -> bool {
    t == Tab::Logs || t == Tab::Config
}

/// The tab and action a key press leads to: `q`/Esc quit; Tab/`l` and
/// BackTab/`h` move right and left; F1..F6 pick a tab; `s` and `x` start
/// and stop the daemon, `r` refreshes; on the Logs and Config tabs the
/// arrows, page keys and `j`/`k` (half a page) scroll; on the Logs tab
/// left/right switch the log file and a digit picks one.
pub open spec fn on_key_spec(t: Tab, key: Key) -> (Tab, KeyAction) {
    match key {
        Key::Char('q') | Key::Esc => (t, KeyAction::Quit),
        Key::Tab | Key::Char('l') => (next_tab(t), KeyAction::Nothing),
        Key::BackTab | Key::Char('h') => (prev_tab(t), KeyAction::Nothing),
        Key::F(1) => (Tab::Overview, KeyAction::Nothing),
        Key::F(2) => (Tab::Resources, KeyAction::Nothing),
        Key::F(3) => (Tab::Network, KeyAction::Nothing),
        Key::F(4) => (Tab::Logs, KeyAction::Nothing),
        Key::F(5) => (Tab::Config, KeyAction::Nothing),
        Key::F(6) => (Tab::Settings, KeyAction::Nothing),
        Key::Char('s') => (t, KeyAction::StartDaemon),
        Key::Char('x') => (t, KeyAction::StopDaemon),
        Key::Char('r') => (t, KeyAction::Refresh),
        Key::Up => (t, if scrolls(t) { KeyAction::Scroll(ScrollStep::Line, false) } else { KeyAction::Nothing }),
        Key::Down => (t, if scrolls(t) { KeyAction::Scroll(ScrollStep::Line, true) } else { KeyAction::Nothing }),
        Key::PageUp => (t, if scrolls(t) { KeyAction::Scroll(ScrollStep::Page, false) } else { KeyAction::Nothing }),
        Key::PageDown => (t, if scrolls(t) { KeyAction::Scroll(ScrollStep::Page, true) } else { KeyAction::Nothing }),
        Key::Char('k') => (t, if scrolls(t) { KeyAction::Scroll(ScrollStep::HalfPage, false) } else { KeyAction::Nothing }),
        Key::Char('j') => (t, if scrolls(t) { KeyAction::Scroll(ScrollStep::HalfPage, true) } else { KeyAction::Nothing }),
        Key::Left => (t, if t == Tab::Logs { KeyAction::PrevLog } else { KeyAction::Nothing }),
        Key::Right => (t, if t == Tab::Logs { KeyAction::NextLog } else { KeyAction::Nothing }),
        Key::Char(c) => (t, if t == Tab::Logs && '0' <= c && c <= '9' {
            KeyAction::SelectLog((c as u32 - '0' as u32) as u8)
        } else {
            KeyAction::Nothing
        }),
        _ => (t, KeyAction::Nothing),
    }
}

fn scroll_or_nothing(tab: Tab, step: ScrollStep, down: bool) -> (r: KeyAction)
    ensures
        r == if scrolls(tab) { KeyAction::Scroll(step, down) } else { KeyAction::Nothing },
{
    if tab == Tab::Logs || tab == Tab::Config {
        KeyAction::Scroll(step, down)
    } else {
        KeyAction::Nothing
    }
}

/// Handle a key press on tab `tab`.
pub fn on_key(tab: Tab, key: Key) -> (r: (Tab, KeyAction))
    ensures
        r == on_key_spec(tab, key),
{
    match key {
        Key::Char('q') | Key::Esc => (tab, KeyAction::Quit),
        Key::Tab | Key::Char('l') => (tab.next(), KeyAction::Nothing),
        Key::BackTab | Key::Char('h') => (tab.prev(), KeyAction::Nothing),
        Key::F(1) => (Tab::Overview, KeyAction::Nothing),
        Key::F(2) => (Tab::Resources, KeyAction::Nothing),
        Key::F(3) => (Tab::Network, KeyAction::Nothing),
        Key::F(4) => (Tab::Logs, KeyAction::Nothing),
        Key::F(5) => (Tab::Config, KeyAction::Nothing),
        Key::F(6) => (Tab::Settings, KeyAction::Nothing),
        Key::Char('s') => (tab, KeyAction::StartDaemon),
        Key::Char('x') => (tab, KeyAction::StopDaemon),
        Key::Char('r') => (tab, KeyAction::Refresh),
        Key::Up => (tab, scroll_or_nothing(tab, ScrollStep::Line, false)),
        Key::Down => (tab, scroll_or_nothing(tab, ScrollStep::Line, true)),
        Key::PageUp => (tab, scroll_or_nothing(tab, ScrollStep::Page, false)),
        Key::PageDown => (tab, scroll_or_nothing(tab, ScrollStep::Page, true)),
        Key::Char('k') => (tab, scroll_or_nothing(tab, ScrollStep::HalfPage, false)),
        Key::Char('j') => (tab, scroll_or_nothing(tab, ScrollStep::HalfPage, true)),
        Key::Left => (tab, if tab == Tab::Logs { KeyAction::PrevLog } else { KeyAction::Nothing }),
        Key::Right => (tab, if tab == Tab::Logs { KeyAction::NextLog } else { KeyAction::Nothing }),
        Key::Char(c) => (tab, if tab == Tab::Logs && '0' <= c && c <= '9' {
            KeyAction::SelectLog((c as u32 - '0' as u32) as u8)
        } else {
            KeyAction::Nothing
        }),
        _ => (tab, KeyAction::Nothing),
    }
}

/// How many lines a scroll step moves, for a view `visible` lines high:
/// one line, half the view, or the whole view (at least one line).
pub open spec fn step_lines(step: ScrollStep, visible: u16) -> nat {
    let n = match step {
        ScrollStep::Line => 1,
        ScrollStep::HalfPage => visible / 2,
        ScrollStep::Page => visible,
    };
    if n == 0 {
        1
    } else {
        n as nat
    }
}

/// The scroll position after a scroll step, kept within `0..=max`.
pub open spec fn scrolled(scroll: u16, step: ScrollStep, down: bool, visible: u16, max: u16) -> u16 {
    let n = step_lines(step, visible);
    let target: int = if down {
        scroll + n
    } else if scroll >= n {
        scroll - n
    } else {
        0
    };
    if target > max {
        max
    } else {
        target as u16
    }
}

/// Apply a scroll step (see `scrolled`).
pub fn scroll_by(scroll: u16, step: ScrollStep, down: bool, visible: u16, max: u16) -> (r: u16)
    ensures
        r == scrolled(scroll, step, down, visible, max),
{
    let n: u32 = match step {
        ScrollStep::Line => 1,
        ScrollStep::HalfPage => (visible / 2) as u32,
        ScrollStep::Page => visible as u32,
    };
    let n: u32 = if n == 0 {
        1
    } else {
        n
    };
    let s = scroll as u32;
    let target: u32 = if down {
        s + n
    } else if s >= n {
        s - n
    } else {
        0
    };
    if target > max as u32 {
        max
    } else {
        target as u16
    }
}

} // verus!
