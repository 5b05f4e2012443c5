//! The interactive session: the state the dashboard keeps between frames and what
//! each key press does to it. Reading keys, drawing and signalling processes are the
//! caller's part; this module decides.

use vstd::prelude::*;
use crate::meter::{cycled, GraphSymbol};
use crate::processes::{proc_order, proc_views, ProcView, ProcessInfo, SortMetric};
use crate::sorting::sort_ordered;
use crate::terminal::Key;
use crate::text::{chars_eq, chars_of, contains_chars, contains_seq, push_char, string_from_chars};
use crate::themes::{
    index_from, lowercase, next_mode_spec, next_theme_spec, next_cycling_mode, next_theme,
    theme_index, theme_name, theme_names, to_lowercase,
};

verus! {

/// What the dashboard remembers between frames.
pub struct Session {
    /// Refresh interval in milliseconds.
    pub refresh_ms: u64,
    pub group_procs: bool,
    pub paused: bool,
    pub show_help: bool,
    pub show_sparkline: bool,
    /// Cursor row in the (filtered) process list.
    pub selected_idx: usize,
    /// Names of the groups shown expanded.
    pub expanded_groups: Vec<String>,
    /// The search bar is taking input.
    pub search_active: bool,
    pub search_query: Option<String>,
    /// The process awaiting kill confirmation: (pid, name).
    pub kill_prompt: Option<(u32, String)>,
    pub theme_modal_open: bool,
    pub theme_modal_idx: usize,
    pub current_theme: String,
    pub current_symbol: GraphSymbol,
    pub current_mode: String,
    pub sort_metric: SortMetric,
}

pub ghost struct SessionView {
    pub refresh_ms: u64,
    pub group_procs: bool,
    pub paused: bool,
    pub show_help: bool,
    pub show_sparkline: bool,
    pub selected_idx: usize,
    pub expanded_groups: Seq<Seq<char>>,
    pub search_active: bool,
    pub search_query: Option<Seq<char>>,
    pub kill_prompt: Option<(u32, Seq<char>)>,
    pub theme_modal_open: bool,
    pub theme_modal_idx: usize,
    pub current_theme: Seq<char>,
    pub current_symbol: GraphSymbol,
    pub current_mode: Seq<char>,
    pub sort_metric: SortMetric,
}

pub open spec fn names_view(s: Seq<String>) -> Seq<Seq<char>> {
    s.map_values(|x: String| x@)
}

impl View for Session {
    type V = SessionView;

    open spec fn view(&self) -> SessionView {
        SessionView {
            refresh_ms: self.refresh_ms,
            group_procs: self.group_procs,
            paused: self.paused,
            show_help: self.show_help,
            show_sparkline: self.show_sparkline,
            selected_idx: self.selected_idx,
            expanded_groups: names_view(self.expanded_groups@),
            search_active: self.search_active,
            search_query: match self.search_query {
                Some(q) => Some(q@),
                None => None,
            },
            kill_prompt: match self.kill_prompt {
                Some(t) => Some((t.0, t.1@)),
                None => None,
            },
            theme_modal_open: self.theme_modal_open,
            theme_modal_idx: self.theme_modal_idx,
            current_theme: self.current_theme@,
            current_symbol: self.current_symbol,
            current_mode: self.current_mode@,
            sort_metric: self.sort_metric,
        }
    }
}

/// What the caller does after a key.
pub enum KeyOutcome {
    /// Nothing changed on screen.
    Ignored,
    /// Draw the frame again.
    Redraw,
    /// Restore the terminal and exit.
    Quit,
    /// Send SIGTERM to the process (after checking its identity), then redraw.
    Kill { pid: u32, name: String },
    /// A kill prompt for the process opened: note its identity, then redraw.
    PromptKill { pid: u32, name: String },
}

pub ghost enum OutcomeView {
    Ignored,
    Redraw,
    Quit,
    Kill(u32, Seq<char>),
    PromptKill(u32, Seq<char>),
}

impl View for KeyOutcome {
    type V = OutcomeView;

    open spec fn view(&self) -> OutcomeView {
        match self {
            KeyOutcome::Ignored => OutcomeView::Ignored,
            KeyOutcome::Redraw => OutcomeView::Redraw,
            KeyOutcome::Quit => OutcomeView::Quit,
            KeyOutcome::Kill { pid, name } => OutcomeView::Kill(*pid, name@),
            KeyOutcome::PromptKill { pid, name } => OutcomeView::PromptKill(*pid, name@),
        }
    }
}

/// The invariant the session keeps: refresh interval within 20..=2000 ms, a theme
/// selector position on a theme, a cursor that can still move down, and no group
/// listed twice among the expanded ones.
pub open spec fn session_ok(s: SessionView) -> bool {
    &&& 20 <= s.refresh_ms <= 2000
    &&& s.theme_modal_idx < 13
    &&& s.selected_idx < usize::MAX
    &&& s.expanded_groups.no_duplicates()
}

// ---------------------------------------------------------------------------
// What a key does
// ---------------------------------------------------------------------------

/// A process passes the filter: no query, an empty one, or its lowercased name
/// contains the lowercased query.
pub open spec fn query_matches(name: Seq<char>, query: Option<Seq<char>>) -> bool {
    match query {
        Some(q) => q.len() == 0 || contains_seq(lowercase(name), lowercase(q)),
        None => true,
    }
}

/// Positions of the processes the filter lets through, in list order.
pub open spec fn shown_indices(procs: Seq<ProcView>, query: Option<Seq<char>>) -> Seq<int>
    decreases procs.len(),
{
    if procs.len() == 0 {
        Seq::<int>::empty()
    } else {
        let r = shown_indices(procs.drop_last(), query);
        if query_matches(procs.last().name, query) {
            r.push(procs.len() - 1)
        } else {
            r
        }
    }
}

/// `x` added to the set when absent, removed when present.
pub open spec fn toggled(set: Seq<Seq<char>>, x: Seq<char>) -> Seq<Seq<char>> {
    let k = index_from(set, x, 0);
    if k >= 0 {
        set.remove(k)
    } else {
        set.push(x)
    }
}

/// The metric after `m` in the sort rotation.
pub open spec fn next_metric(m: SortMetric) -> SortMetric {
    match m {
        SortMetric::Rss => SortMetric::Pss,
        SortMetric::Pss => SortMetric::Uss,
        SortMetric::Uss => SortMetric::Name,
        SortMetric::Name => SortMetric::Rss,
    }
}

pub open spec fn is_char_key(k: Key, a: char) -> bool {
    k == Key::Char(a)
}

/// The theme selector's position for a theme: its place in display order, else the first.
pub open spec fn theme_position(name: Seq<char>) -> usize {
    let k = index_from(theme_names(), name, 0);
    if k < 0 {
        0
    } else {
        k as usize
    }
}

/// Keys while a kill prompt is open: 'y' / 'Y' confirms, anything else cancels.
pub open spec fn prompt_step(s: SessionView, key: Key) -> (SessionView, OutcomeView) {
    let t = match s.kill_prompt {
        Some(t) => t,
        None => (0, Seq::<char>::empty()),
    };
    let s2 = SessionView { kill_prompt: None, ..s };
    if is_char_key(key, 'y') || is_char_key(key, 'Y') {
        (s2, OutcomeView::Kill(t.0, t.1))
    } else {
        (s2, OutcomeView::Redraw)
    }
}

/// Keys while the theme selector is open.
pub open spec fn modal_step(s: SessionView, key: Key) -> (SessionView, OutcomeView) {
    if key == Key::Esc || is_char_key(key, 'q') || is_char_key(key, 'Q') {
        (SessionView { theme_modal_open: false, ..s }, OutcomeView::Redraw)
    } else if key == Key::Up || is_char_key(key, 'k') {
        (
            SessionView {
                theme_modal_idx: if s.theme_modal_idx > 0 {
                    (s.theme_modal_idx - 1) as usize
                } else {
                    0
                },
                ..s
            },
            OutcomeView::Redraw,
        )
    } else if key == Key::Down || is_char_key(key, 'j') {
        (
            SessionView {
                theme_modal_idx: if s.theme_modal_idx + 1 < 12 {
                    (s.theme_modal_idx + 1) as usize
                } else {
                    12
                },
                ..s
            },
            OutcomeView::Redraw,
        )
    } else if key == Key::Enter {
        (
            SessionView {
                current_theme: theme_names()[s.theme_modal_idx as int],
                theme_modal_open: false,
                ..s
            },
            OutcomeView::Redraw,
        )
    } else {
        (s, OutcomeView::Ignored)
    }
}

/// Keys while the search bar takes input.
pub open spec fn search_step(s: SessionView, key: Key) -> (SessionView, OutcomeView) {
    if key == Key::Esc {
        (
            SessionView { search_active: false, search_query: None, selected_idx: 0, ..s },
            OutcomeView::Redraw,
        )
    } else if key == Key::Enter {
        (SessionView { search_active: false, ..s }, OutcomeView::Redraw)
    } else if key == Key::Backspace {
        (
            SessionView {
                search_query: match s.search_query {
                    Some(q) => Some(
                        if q.len() > 0 {
                            q.drop_last()
                        } else {
                            q
                        },
                    ),
                    None => None,
                },
                selected_idx: 0,
                ..s
            },
            OutcomeView::Redraw,
        )
    } else {
        match key {
            Key::Char(c) => if ' ' <= c <= '~' {
                (
                    SessionView {
                        search_query: Some(
                            match s.search_query {
                                Some(q) => q,
                                None => Seq::<char>::empty(),
                            }.push(c),
                        ),
                        selected_idx: 0,
                        ..s
                    },
                    OutcomeView::Redraw,
                )
            } else {
                (s, OutcomeView::Ignored)
            },
            _ => (s, OutcomeView::Ignored),
        }
    }
}

/// The process a kill prompt targets: the entry's own pid, else its first child's.
pub open spec fn kill_target_pid(p: ProcView) -> Option<u32> {
    match p.pid {
        Some(pid) => Some(pid),
        None => if p.children.len() > 0 {
            Some(p.children[0].pid)
        } else {
            None
        },
    }
}

/// Keys in the dashboard itself.
pub open spec fn normal_step(s: SessionView, key: Key, procs: Seq<ProcView>) -> (SessionView, OutcomeView) {
    let shown = shown_indices(procs, s.search_query);
    let redraw = OutcomeView::Redraw;
    if is_char_key(key, 'q') || is_char_key(key, 'Q') || is_char_key(key, '\x03') {
        (s, OutcomeView::Quit)
    } else if key == Key::Esc {
        if s.search_query is Some {
            (SessionView { search_query: None, selected_idx: 0, ..s }, redraw)
        } else {
            (s, OutcomeView::Ignored)
        }
    } else if is_char_key(key, 'p') || is_char_key(key, 'P') || is_char_key(key, ' ') {
        (SessionView { paused: !s.paused, ..s }, redraw)
    } else if is_char_key(key, 'g') || is_char_key(key, 'G') {
        (SessionView { show_sparkline: !s.show_sparkline, ..s }, redraw)
    } else if is_char_key(key, '/') {
        (
            SessionView {
                search_active: true,
                search_query: match s.search_query {
                    Some(q) => Some(q),
                    None => Some(Seq::<char>::empty()),
                },
                selected_idx: 0,
                ..s
            },
            redraw,
        )
    } else if key == Key::Up || is_char_key(key, 'k') {
        (
            SessionView {
                selected_idx: if s.selected_idx > 0 {
                    (s.selected_idx - 1) as usize
                } else {
                    0
                },
                ..s
            },
            redraw,
        )
    } else if key == Key::Down || is_char_key(key, 'j') {
        (
            SessionView {
                selected_idx: if shown.len() > 0 {
                    if s.selected_idx + 1 < shown.len() - 1 {
                        (s.selected_idx + 1) as usize
                    } else {
                        (shown.len() - 1) as usize
                    }
                } else {
                    s.selected_idx
                },
                ..s
            },
            redraw,
        )
    } else if key == Key::Enter || key == Key::Tab || is_char_key(key, 'e') || is_char_key(key, 'E') {
        if s.selected_idx < shown.len() {
            (
                SessionView {
                    expanded_groups: toggled(s.expanded_groups, procs[shown[s.selected_idx as int]].name),
                    ..s
                },
                redraw,
            )
        } else {
            (s, OutcomeView::Ignored)
        }
    } else if is_char_key(key, 'x') || is_char_key(key, 'X') || is_char_key(key, 'K') {
        if s.selected_idx < shown.len() {
            let p = procs[shown[s.selected_idx as int]];
            match kill_target_pid(p) {
                Some(pid) => (
                    SessionView { kill_prompt: Some((pid, p.name)), ..s },
                    OutcomeView::PromptKill(pid, p.name),
                ),
                None => (s, OutcomeView::Ignored),
            }
        } else {
            (s, OutcomeView::Ignored)
        }
    } else if is_char_key(key, '+') || is_char_key(key, '=') {
        (
            SessionView {
                refresh_ms: if s.refresh_ms >= 45 {
                    (s.refresh_ms - 25) as u64
                } else {
                    20
                },
                ..s
            },
            redraw,
        )
    } else if is_char_key(key, '-') || is_char_key(key, '_') {
        (
            SessionView {
                refresh_ms: if s.refresh_ms + 50 < 2000 {
                    (s.refresh_ms + 50) as u64
                } else {
                    2000
                },
                ..s
            },
            redraw,
        )
    } else if is_char_key(key, '1') {
        (SessionView { group_procs: true, ..s }, redraw)
    } else if is_char_key(key, '2') {
        (SessionView { group_procs: false, ..s }, redraw)
    } else if is_char_key(key, 'o') || is_char_key(key, 'O') {
        (SessionView { sort_metric: next_metric(s.sort_metric), ..s }, redraw)
    } else if is_char_key(key, 't') {
        let next = next_theme_spec(s.current_theme);
        (SessionView { current_theme: next, theme_modal_idx: theme_position(next), ..s }, redraw)
    } else if is_char_key(key, 'T') {
        (
            SessionView {
                theme_modal_open: true,
                theme_modal_idx: theme_position(s.current_theme),
                ..s
            },
            redraw,
        )
    } else if is_char_key(key, 's') || is_char_key(key, 'S') {
        (SessionView { current_symbol: cycled(s.current_symbol), ..s }, redraw)
    } else if is_char_key(key, 'm') || is_char_key(key, 'M') {
        (SessionView { current_mode: next_mode_spec(s.current_mode), ..s }, redraw)
    } else if is_char_key(key, 'h') || is_char_key(key, 'H') || is_char_key(key, '?') {
        (SessionView { show_help: !s.show_help, ..s }, redraw)
    } else {
        (s, OutcomeView::Ignored)
    }
}

/// What a key does: an open kill prompt takes it first, then the theme selector,
/// then the search bar, else the dashboard.
pub open spec fn key_step(s: SessionView, key: Key, procs: Seq<ProcView>) -> (SessionView, OutcomeView) {
    if s.kill_prompt is Some {
        prompt_step(s, key)
    } else if s.theme_modal_open {
        modal_step(s, key)
    } else if s.search_active {
        search_step(s, key)
    } else {
        normal_step(s, key, procs)
    }
}

/// The list gets re-sorted: the sort key was pressed in the dashboard.
pub open spec fn resorts(s: SessionView, key: Key) -> bool {
    s.kill_prompt is None && !s.theme_modal_open && !s.search_active && (is_char_key(key, 'o')
        || is_char_key(key, 'O'))
}

pub open spec fn query_view(q: Option<String>) -> Option<Seq<char>> {
    match q {
        Some(s) => Some(s@),
        None => None,
    }
}

fn query_matches_exec(name: &String, query: &Option<String>) -> (r: bool)
    ensures
        r == query_matches(name@, query_view(*query)),
{
    match query {
        Some(q) => {
            if q.as_str().unicode_len() == 0 {
                return true;
            }
            let ln = to_lowercase(name.as_str());
            let lq = to_lowercase(q.as_str());
            let a = chars_of(ln.as_str());
            let b = chars_of(lq.as_str());
            contains_chars(a.as_slice(), b.as_slice())
        },
        None => true,
    }
}

/// Positions of the processes the filter lets through.
fn shown_exec(procs: &Vec<ProcessInfo>, query: &Option<String>) -> (r: Vec<usize>)
    ensures
        r@.len() == shown_indices(proc_views(procs@), query_view(*query)).len(),
        forall|i: int|
            0 <= i < r@.len() ==> r@[i] as int == #[trigger] shown_indices(
                proc_views(procs@),
                query_view(*query),
            )[i],
        forall|i: int|
            0 <= i < r@.len() ==> 0 <= #[trigger] shown_indices(proc_views(procs@), query_view(*query))[i]
                < procs@.len(),
{
    let ghost all = proc_views(procs@);
    let ghost q = query_view(*query);
    let mut out: Vec<usize> = Vec::new();
    let mut i: usize = 0;
    while i < procs.len()
        invariant
            i <= procs@.len(),
            all == proc_views(procs@),
            q == query_view(*query),
            out@.len() == shown_indices(all.take(i as int), q).len(),
            forall|k: int|
                0 <= k < out@.len() ==> out@[k] as int == #[trigger] shown_indices(all.take(i as int), q)[k],
            forall|k: int| 0 <= k < out@.len() ==> 0 <= #[trigger] out@[k] < i,
        decreases procs.len() - i,
    {
        proof {
            assert(all.take(i + 1).drop_last() =~= all.take(i as int));
            assert(all.take(i + 1).last() == procs@[i as int]@);
        }
        if query_matches_exec(&procs[i].name, query) {
            out.push(i);
        }
        i += 1;
    }
    assert(all.take(procs.len() as int) =~= all);
    out
}

impl Session {
    /// The session as the command line starts it.
    pub fn new(
        refresh_ms: u64,
        group_procs: bool,
        show_sparkline: bool,
        search_query: Option<String>,
        current_theme: String,
        current_symbol: GraphSymbol,
        current_mode: String,
        sort_metric: SortMetric,
    ) -> (r: Self)
        requires
            20 <= refresh_ms <= 2000,
        ensures
            r@ == (SessionView {
                refresh_ms,
                group_procs,
                paused: false,
                show_help: false,
                show_sparkline,
                selected_idx: 0,
                expanded_groups: Seq::<Seq<char>>::empty(),
                search_active: false,
                search_query: query_view(search_query),
                kill_prompt: None,
                theme_modal_open: false,
                theme_modal_idx: theme_position(current_theme@),
                current_theme: current_theme@,
                current_symbol,
                current_mode: current_mode@,
                sort_metric,
            }),
            session_ok(r@),
    {
        let idx = match theme_index(current_theme.as_str()) {
            Some(k) => k,
            None => 0,
        };
        let r = Session {
            refresh_ms,
            group_procs,
            paused: false,
            show_help: false,
            show_sparkline,
            selected_idx: 0,
            expanded_groups: Vec::new(),
            search_active: false,
            search_query,
            kill_prompt: None,
            theme_modal_open: false,
            theme_modal_idx: idx,
            current_theme,
            current_symbol,
            current_mode,
            sort_metric,
        };
        assert(names_view(r.expanded_groups@) =~= Seq::<Seq<char>>::empty());
        r
    }

    fn prompt_key(&mut self, key: Key) -> (out: KeyOutcome)
        requires
            old(self)@.kill_prompt is Some,
        ensures
            (final(self)@, out@) == prompt_step(old(self)@, key),
    {
        let mut taken: Option<(u32, String)> = None;
        std::mem::swap(&mut taken, &mut self.kill_prompt);
        match taken {
            Some(t) => {
                if key == Key::Char('y') || key == Key::Char('Y') {
                    KeyOutcome::Kill { pid: t.0, name: t.1 }
                } else {
                    KeyOutcome::Redraw
                }
            },
            None => KeyOutcome::Redraw,
        }
    }

    fn modal_key(&mut self, key: Key) -> (out: KeyOutcome)
        requires
            old(self)@.theme_modal_idx < 13,
        ensures
            (final(self)@, out@) == modal_step(old(self)@, key),
    {
        if key == Key::Esc || key == Key::Char('q') || key == Key::Char('Q') {
            self.theme_modal_open = false;
            KeyOutcome::Redraw
        } else if key == Key::Up || key == Key::Char('k') {
            self.theme_modal_idx = self.theme_modal_idx.saturating_sub(1);
            KeyOutcome::Redraw
        } else if key == Key::Down || key == Key::Char('j') {
            let next = self.theme_modal_idx + 1;
            self.theme_modal_idx = if next < 12 {
                next
            } else {
                12
            };
            KeyOutcome::Redraw
        } else if key == Key::Enter {
            self.current_theme = String::from_str(theme_name(self.theme_modal_idx));
            self.theme_modal_open = false;
            KeyOutcome::Redraw
        } else {
            KeyOutcome::Ignored
        }
    }

    fn search_key(&mut self, key: Key) -> (out: KeyOutcome)
        ensures
            (final(self)@, out@) == search_step(old(self)@, key),
    {
        if key == Key::Esc {
            self.search_active = false;
            self.search_query = None;
            self.selected_idx = 0;
            KeyOutcome::Redraw
        } else if key == Key::Enter {
            self.search_active = false;
            KeyOutcome::Redraw
        } else if key == Key::Backspace {
            let mut q: Option<String> = None;
            std::mem::swap(&mut q, &mut self.search_query);
            self.search_query = match q {
                Some(text) => {
                    let v = chars_of(text.as_str());
                    if v.len() > 0 {
                        let shorter = string_from_chars(&v.as_slice()[0..v.len() - 1]);
                        assert(shorter@ =~= text@.drop_last());
                        Some(shorter)
                    } else {
                        Some(text)
                    }
                },
                None => None,
            };
            self.selected_idx = 0;
            KeyOutcome::Redraw
        } else {
            match key {
                Key::Char(c) => {
                    if ' ' <= c && c <= '~' {
                        let mut q: Option<String> = None;
                        std::mem::swap(&mut q, &mut self.search_query);
                        let mut text = match q {
                            Some(t) => t,
                            None => String::new(),
                        };
                        push_char(&mut text, c);
                        self.search_query = Some(text);
                        self.selected_idx = 0;
                        KeyOutcome::Redraw
                    } else {
                        KeyOutcome::Ignored
                    }
                },
                _ => KeyOutcome::Ignored,
            }
        }
    }

    /// Adds the group to the expanded set, or removes it when it is there.
    fn toggle_expanded(&mut self, name: &String)
        ensures
            final(self)@ == (SessionView {
                expanded_groups: toggled(old(self)@.expanded_groups, name@),
                ..old(self)@
            }),
    {
        let ghost set = names_view(self.expanded_groups@);
        let mut k: usize = 0;
        proof {
            crate::themes::lemma_index_from(set, name@, 0);
        }
        while k < self.expanded_groups.len() && !(self.expanded_groups[k] == *name)
            invariant
                k <= self.expanded_groups@.len(),
                set == names_view(self.expanded_groups@),
                index_from(set, name@, k as int) == index_from(set, name@, 0),
            decreases self.expanded_groups.len() - k,
        {
            assert(set[k as int] == self.expanded_groups@[k as int]@);
            k += 1;
        }
        if k < self.expanded_groups.len() {
            assert(set[k as int] == name@);
            let _ = self.expanded_groups.remove(k);
            assert(names_view(self.expanded_groups@) =~= set.remove(k as int));
        } else {
            self.expanded_groups.push(name.clone());
            assert(names_view(self.expanded_groups@) =~= set.push(name@));
        }
    }

    #[verifier::rlimit(60)]
    fn normal_key(&mut self, key: Key, procs: &mut Vec<ProcessInfo>) -> (out: KeyOutcome)
        requires
            old(self)@.selected_idx < usize::MAX,
            20 <= old(self)@.refresh_ms <= 2000,
        ensures
            (final(self)@, out@) == normal_step(old(self)@, key, proc_views(old(procs)@)),
            proc_views(final(procs)@) == if is_char_key(key, 'o') || is_char_key(key, 'O') {
                sort_ordered(proc_views(old(procs)@), proc_order(final(self)@.sort_metric))
            } else {
                proc_views(old(procs)@)
            },
    {
        let ghost pv = proc_views(procs@);
        let ghost shown = shown_indices(pv, self@.search_query);
        if key == Key::Char('q') || key == Key::Char('Q') || key == Key::Char('\x03') {
            return KeyOutcome::Quit;
        }
        if key == Key::Esc {
            if self.search_query.is_some() {
                self.search_query = None;
                self.selected_idx = 0;
                return KeyOutcome::Redraw;
            }
            return KeyOutcome::Ignored;
        }
        if key == Key::Char('p') || key == Key::Char('P') || key == Key::Char(' ') {
            self.paused = !self.paused;
            return KeyOutcome::Redraw;
        }
        if key == Key::Char('g') || key == Key::Char('G') {
            self.show_sparkline = !self.show_sparkline;
            return KeyOutcome::Redraw;
        }
        if key == Key::Char('/') {
            self.search_active = true;
            if self.search_query.is_none() {
                self.search_query = Some(String::new());
            }
            self.selected_idx = 0;
            return KeyOutcome::Redraw;
        }
        if key == Key::Up || key == Key::Char('k') {
            self.selected_idx = self.selected_idx.saturating_sub(1);
            return KeyOutcome::Redraw;
        }
        if key == Key::Down || key == Key::Char('j') {
            let list = shown_exec(procs, &self.search_query);
            let n = list.len();
            if n > 0 {
                let next = self.selected_idx + 1;
                self.selected_idx = if next < n - 1 {
                    next
                } else {
                    n - 1
                };
            }
            return KeyOutcome::Redraw;
        }
        if key == Key::Enter || key == Key::Tab || key == Key::Char('e') || key == Key::Char('E') {
            let list = shown_exec(procs, &self.search_query);
            if self.selected_idx < list.len() {
                let at = list[self.selected_idx];
                let name = procs[at].name.clone();
                self.toggle_expanded(&name);
                return KeyOutcome::Redraw;
            }
            return KeyOutcome::Ignored;
        }
        if key == Key::Char('x') || key == Key::Char('X') || key == Key::Char('K') {
            let list = shown_exec(procs, &self.search_query);
            if self.selected_idx < list.len() {
                let at = list[self.selected_idx];
                let p = &procs[at];
                let target = match p.pid {
                    Some(pid) => Some(pid),
                    None => if p.children.len() > 0 {
                        Some(p.children[0].pid)
                    } else {
                        None
                    },
                };
                match target {
                    Some(pid) => {
                        self.kill_prompt = Some((pid, p.name.clone()));
                        return KeyOutcome::PromptKill { pid, name: p.name.clone() };
                    },
                    None => {
                        return KeyOutcome::Ignored;
                    },
                }
            }
            return KeyOutcome::Ignored;
        }
        if key == Key::Char('+') || key == Key::Char('=') {
            let r = self.refresh_ms.saturating_sub(25);
            self.refresh_ms = if r > 20 {
                r
            } else {
                20
            };
            return KeyOutcome::Redraw;
        }
        if key == Key::Char('-') || key == Key::Char('_') {
            let r = self.refresh_ms + 50;
            self.refresh_ms = if r < 2000 {
                r
            } else {
                2000
            };
            return KeyOutcome::Redraw;
        }
        if key == Key::Char('1') {
            self.group_procs = true;
            return KeyOutcome::Redraw;
        }
        if key == Key::Char('2') {
            self.group_procs = false;
            return KeyOutcome::Redraw;
        }
        if key == Key::Char('o') || key == Key::Char('O') {
            self.sort_metric = match self.sort_metric {
                SortMetric::Rss => SortMetric::Pss,
                SortMetric::Pss => SortMetric::Uss,
                SortMetric::Uss => SortMetric::Name,
                SortMetric::Name => SortMetric::Rss,
            };
            let mut list: Vec<ProcessInfo> = Vec::new();
            std::mem::swap(&mut list, procs);
            let sorted = crate::processes::sort_processes(list, self.sort_metric);
            *procs = sorted;
            return KeyOutcome::Redraw;
        }
        if key == Key::Char('t') {
            let next = next_theme(self.current_theme.as_str());
            self.current_theme = String::from_str(next);
            self.theme_modal_idx = match theme_index(next) {
                Some(k) => k,
                None => 0,
            };
            return KeyOutcome::Redraw;
        }
        if key == Key::Char('T') {
            self.theme_modal_open = true;
            self.theme_modal_idx = match theme_index(self.current_theme.as_str()) {
                Some(k) => k,
                None => 0,
            };
            return KeyOutcome::Redraw;
        }
        if key == Key::Char('s') || key == Key::Char('S') {
            self.current_symbol = self.current_symbol.cycle();
            return KeyOutcome::Redraw;
        }
        if key == Key::Char('m') || key == Key::Char('M') {
            self.current_mode = String::from_str(next_cycling_mode(self.current_mode.as_str()));
            return KeyOutcome::Redraw;
        }
        if key == Key::Char('h') || key == Key::Char('H') || key == Key::Char('?') {
            self.show_help = !self.show_help;
            return KeyOutcome::Redraw;
        }
        KeyOutcome::Ignored
    }

    /// Handles one key: updates the session (and, for the sort key, re-sorts `procs`,
    /// the list on screen) and says what the caller must do.
    pub fn handle_key(&mut self, key: Key, procs: &mut Vec<ProcessInfo>) -> (out: KeyOutcome)
        requires
            session_ok(old(self)@),
        ensures
            (final(self)@, out@) == key_step(old(self)@, key, proc_views(old(procs)@)),
            proc_views(final(procs)@) == if resorts(old(self)@, key) {
                sort_ordered(proc_views(old(procs)@), proc_order(final(self)@.sort_metric))
            } else {
                proc_views(old(procs)@)
            },
    {
        if self.kill_prompt.is_some() {
            self.prompt_key(key)
        } else if self.theme_modal_open {
            self.modal_key(key)
        } else if self.search_active {
            self.search_key(key)
        } else {
            self.normal_key(key, procs)
        }
    }
}

// ---------------------------------------------------------------------------
// Laws
// ---------------------------------------------------------------------------

proof fn lemma_shown_indices(procs: Seq<ProcView>, query: Option<Seq<char>>)
    ensures
        shown_indices(procs, query).len() <= procs.len(),
        forall|i: int|
            0 <= i < shown_indices(procs, query).len() ==> 0 <= #[trigger] shown_indices(procs, query)[i]
                < procs.len(),
    decreases procs.len(),
{
    if procs.len() > 0 {
        lemma_shown_indices(procs.drop_last(), query);
    }
}

proof fn lemma_toggled_no_duplicates(set: Seq<Seq<char>>, x: Seq<char>)
    requires
        set.no_duplicates(),
    ensures
        toggled(set, x).no_duplicates(),
{
    crate::themes::lemma_index_from(set, x, 0);
    let k = index_from(set, x, 0);
    if k >= 0 {
        let r = set.remove(k);
        assert forall|i: int, j: int| 0 <= i < r.len() && 0 <= j < r.len() && i != j implies r[i] != r[j] by {
            let a = if i < k { i } else { i + 1 };
            let b = if j < k { j } else { j + 1 };
            assert(r[i] == set[a] && r[j] == set[b]);
        }
    } else {
        let r = set.push(x);
        assert forall|i: int, j: int| 0 <= i < r.len() && 0 <= j < r.len() && i != j implies r[i] != r[j] by {
            if i == set.len() {
                assert(set[j] != x);
            } else if j == set.len() {
                assert(set[i] != x);
            }
        }
    }
}

proof fn lemma_theme_position(name: Seq<char>)
    ensures
        theme_position(name) < 13,
{
    crate::themes::lemma_index_from(theme_names(), name, 0);
}

/// Whatever key arrives, the session stays within its invariant: the refresh interval
/// stays within 20..=2000 ms, the theme selector on a theme, the cursor movable, and
/// no group is listed twice as expanded.
pub proof fn law_key_keeps_session_ok(s: SessionView, key: Key, procs: Seq<ProcView>)
    requires
        session_ok(s),
        procs.len() <= usize::MAX,
    ensures
        session_ok(key_step(s, key, procs).0),
{
    lemma_shown_indices(procs, s.search_query);
    lemma_theme_position(s.current_theme);
    lemma_theme_position(next_theme_spec(s.current_theme));
    let shown = shown_indices(procs, s.search_query);
    if s.selected_idx < shown.len() {
        lemma_toggled_no_duplicates(s.expanded_groups, procs[shown[s.selected_idx as int]].name);
    }
}

/// Expanding a group and collapsing it again (or the other way round) gives back the
/// set of expanded groups one started with.
pub proof fn law_toggle_twice(set: Seq<Seq<char>>, x: Seq<char>)
    requires
        set.no_duplicates(),
    ensures
        toggled(toggled(set, x), x).to_set() == set.to_set(),
{
    crate::themes::lemma_index_from(set, x, 0);
    let k = index_from(set, x, 0);
    let t = toggled(set, x);
    lemma_toggled_no_duplicates(set, x);
    crate::themes::lemma_index_from(t, x, 0);
    let k2 = index_from(t, x, 0);
    if k >= 0 {
        assert(!t.contains(x)) by {
            if t.contains(x) {
                let j = choose|j: int| 0 <= j < t.len() && t[j] == x;
                let a = if j < k { j } else { j + 1 };
                assert(t[j] == set[a]);
            }
        }
        if k2 >= 0 {
            assert(t[k2] == x);
        }
        let r = t.push(x);
        assert forall|y: Seq<char>| r.to_set().contains(y) == set.to_set().contains(y) by {
            if set.contains(y) {
                let j = choose|j: int| 0 <= j < set.len() && set[j] == y;
                if j < k {
                    assert(r[j] == y);
                } else if j > k {
                    assert(r[j - 1] == y);
                } else {
                    assert(r[t.len() as int] == y);
                }
            }
            if r.contains(y) {
                let j = choose|j: int| 0 <= j < r.len() && r[j] == y;
                if j < t.len() {
                    let a = if j < k { j } else { j + 1 };
                    assert(set[a] == y);
                } else {
                    assert(set[k] == y);
                }
            }
        }
        assert(toggled(t, x) == r);
        assert(r.to_set() =~= set.to_set());
    } else {
        assert(t[set.len() as int] == x);
        assert(k2 == set.len()) by {
            if k2 == -1 {
                assert(t[set.len() as int] != x);
            } else if k2 < set.len() {
                assert(t[k2] == set[k2]);
            }
        }
        assert(t.remove(k2) =~= set);
    }
}

/// Typing in the search bar: Backspace removes the last character of a non-empty
/// query (and leaves an empty one empty), and typing a printable character then
/// Backspace gives back the query as it was (an absent query becomes the empty one).
pub proof fn law_search_backspace(s: SessionView, procs: Seq<ProcView>, c: char)
    requires
        s.kill_prompt is None,
        !s.theme_modal_open,
        s.search_active,
    ensures
        s.search_query matches Some(q) ==> key_step(s, Key::Backspace, procs).0.search_query == Some(
            if q.len() > 0 {
                q.subrange(0, q.len() - 1)
            } else {
                q
            },
        ),
        forall|q: Seq<char>|
            s.search_query == Some(q) && q.len() > 0 ==> #[trigger] key_step(s, Key::Backspace, procs).0.search_query.unwrap()
                + seq![q[q.len() - 1]] == q,
        ' ' <= c <= '~' ==> key_step(key_step(s, Key::Char(c), procs).0, Key::Backspace, procs).0.search_query
            == Some(
            match s.search_query {
                Some(q) => q,
                None => Seq::<char>::empty(),
            },
        ),
{
    if let Some(q) = s.search_query {
        if q.len() > 0 {
            assert(q.drop_last() =~= q.subrange(0, q.len() - 1));
            assert(q.drop_last() + seq![q[q.len() - 1]] =~= q);
        }
    }
    if ' ' <= c <= '~' {
        let q = match s.search_query {
            Some(q) => q,
            None => Seq::<char>::empty(),
        };
        assert(q.push(c).drop_last() =~= q);
    }
}

/// The filter is a case-insensitive substring test: with a non-empty query, a name
/// passes exactly when its lowercased form is some text, the lowercased query, then
/// some more text; an empty or absent query lets every name through.
pub proof fn law_query_substring(name: Seq<char>, q: Seq<char>)
    ensures
        q.len() > 0 ==> (query_matches(name, Some(q)) <==> exists|x: Seq<char>, y: Seq<char>|
            #[trigger] (x + lowercase(q) + y) == lowercase(name)),
        forall|x: Seq<char>, y: Seq<char>| #[trigger] (x + lowercase(q) + y) == lowercase(name) ==> query_matches(
            name,
            Some(q),
        ),
        query_matches(name, Some(Seq::<char>::empty())),
        query_matches(name, None),
{
    let ln = lowercase(name);
    let lq = lowercase(q);
    assert forall|x: Seq<char>, y: Seq<char>| #[trigger] (x + lq + y) == ln implies query_matches(name, Some(q)) by {
        let i = x.len() as int;
        assert(ln.subrange(i, i + lq.len()) =~= lq);
        assert(crate::text::occurs_at(ln, lq, i));
    }
    if q.len() > 0 && query_matches(name, Some(q)) {
        let i = choose|i: int| crate::text::occurs_at(ln, lq, i);
        let x = ln.subrange(0, i);
        let y = ln.subrange(i + lq.len(), ln.len() as int);
        assert(x + lq + y =~= ln);
    }
}

/// The filter keeps exactly the processes whose names match the query, in list order:
/// its positions increase, and a position is kept exactly when that name matches.
pub proof fn law_filter_keeps_matches(procs: Seq<ProcView>, query: Option<Seq<char>>)
    ensures
        forall|a: int, b: int|
            0 <= a < b < shown_indices(procs, query).len() ==> #[trigger] shown_indices(procs, query)[a]
                < #[trigger] shown_indices(procs, query)[b],
        forall|a: int|
            0 <= a < shown_indices(procs, query).len() ==> 0 <= #[trigger] shown_indices(procs, query)[a]
                < procs.len(),
        forall|j: int|
            0 <= j < procs.len() ==> (shown_indices(procs, query).contains(j) <==> query_matches(
                #[trigger] procs[j].name,
                query,
            )),
    decreases procs.len(),
{
    if procs.len() > 0 {
        let d = procs.drop_last();
        law_filter_keeps_matches(d, query);
        let r = shown_indices(d, query);
        let n = procs.len() - 1;
        assert forall|j: int| 0 <= j < n implies procs[j] == #[trigger] d[j] by {}
        if query_matches(procs.last().name, query) {
            let t = r.push(n);
            assert forall|j: int| 0 <= j < procs.len() implies (t.contains(j) <==> query_matches(
                #[trigger] procs[j].name,
                query,
            )) by {
                if j < n {
                    assert(procs[j] == d[j]);
                    if t.contains(j) {
                        let a = choose|a: int| 0 <= a < t.len() && t[a] == j;
                        assert(a < r.len());
                        assert(r.contains(j));
                    }
                    if r.contains(j) {
                        let a = choose|a: int| 0 <= a < r.len() && r[a] == j;
                        assert(t[a] == j);
                    }
                } else {
                    assert(t[t.len() - 1] == n);
                }
            }
        } else {
            assert forall|j: int| 0 <= j < procs.len() implies (r.contains(j) <==> query_matches(
                #[trigger] procs[j].name,
                query,
            )) by {
                if j < n {
                    assert(procs[j] == d[j]);
                } else {
                    if r.contains(j) {
                        let a = choose|a: int| 0 <= a < r.len() && r[a] == j;
                    }
                }
            }
        }
    }
}

} // verus!
