//! Agent overview: a grouped session table with selection, a transcript
//! overlay (`Enter`), a peek panel with a reply input (`Space`), dismissal
//! (`x`) and a collapsible completed group (`e`).
//!
//! This module holds the view's state, its reaction to input and the lines
//! of the table; painting them is the display layer's job.
use vstd::prelude::*;
use crate::tui::agent::{
    Agent, AgentGroup, AgentStatus, age_text, duration_secs, fmt_age, group_of, group_title, icon_text, merge_agents, merged,
    decimal, decimal_exec,
};
use crate::tui::input::{InputEvent, Key, Mouse, MouseKind, sat_sub};
use crate::tui::renderer::{
    line_of, lines_view, push_lines, push_span, raw, raw_span, spans_view, styled, styled_span, Line, LineV, Span, StyleTag,
};
use crate::text::{chars_of, extend_all, string_of};

verus! {

/// Completed rows above this count collapse to a `… N more` row.
pub const MAX_COMPLETED: usize = 8;

/// Max transcript overlay rows.
pub const TRANSCRIPT_CAP: usize = 20;

/// What the agent view shows on top of the table.
#[derive(Debug, Clone, Copy, PartialEq, Eq, Structural)]
pub enum Overlay {
    /// Session transcript of agent `i`, opened with `Enter`.
    Transcript(usize),
    /// Peek panel of agent `i`, opened with `Space` (holds the reply input).
    Peek(usize),
}

/// A display row of the table.
#[derive(Debug, Clone, Copy, PartialEq, Eq, Structural)]
pub enum TableRow {
    /// Group header.
    Header(AgentGroup),
    /// An agent row (index into the agent list).
    Agent(usize),
    /// Collapsed tail of the completed group (`… N more`).
    More(usize),
}

/// The state of an agent view.
pub ghost struct ViewState<L> {
    /// Session rows, in merge order.
    pub agents: Seq<Agent<L>>,
    /// Selected row (index into the table rows, headers included).
    pub selected: usize,
    /// Scroll offset of the table.
    pub scroll: u16,
    /// Whether the completed group is expanded.
    pub completed_expanded: bool,
    /// Open overlay, if any.
    pub overlay: Option<Overlay>,
    /// Transcript overlay scroll.
    pub transcript_scroll: u16,
    /// Peek reply input.
    pub reply: Seq<char>,
    /// Frame counter (working-row animation).
    pub tick: u64,
    /// Table rows visible in the last draw.
    pub view_height: u16,
    /// Names dismissed with `x`, oldest first.
    pub dismissed: Seq<String>,
}

/// Indices below `n` of the agents shown in group `g`, in order.
pub open spec fn members<L>(agents: Seq<Agent<L>>, g: AgentGroup, n: int) -> Seq<usize>
    decreases n,
{
    if n <= 0 {
        Seq::empty()
    } else if group_of(agents[n - 1].status) == g {
        members(agents, g, n - 1).push((n - 1) as usize)
    } else {
        members(agents, g, n - 1)
    }
}

/// Agents of group `g`.
pub open spec fn group_members<L>(agents: Seq<Agent<L>>, g: AgentGroup) -> Seq<usize> {
    members(agents, g, agents.len() as int)
}

/// Completed rows hidden behind the `… N more` row.
pub open spec fn hidden_count<L>(agents: Seq<Agent<L>>, expanded: bool) -> int {
    if expanded {
        0
    } else {
        sat_sub(group_members(agents, AgentGroup::Completed).len() as int, MAX_COMPLETED as int)
    }
}

/// Agent rows for the given agent indices.
pub open spec fn agent_rows(m: Seq<usize>) -> Seq<TableRow> {
    m.map_values(|i: usize| TableRow::Agent(i))
}

/// The rows of one group: nothing for an empty group, else its header and
/// its agents; the completed group shows at most `MAX_COMPLETED` agents
/// unless expanded, followed by a `More` row counting the others.
pub open spec fn group_rows<L>(agents: Seq<Agent<L>>, g: AgentGroup, expanded: bool) -> Seq<TableRow> {
    let m = group_members(agents, g);
    if m.len() == 0 {
        Seq::empty()
    } else if g == AgentGroup::Completed {
        let h = hidden_count(agents, expanded);
        let shown = sat_sub(m.len() as int, h);
        seq![TableRow::Header(g)] + agent_rows(m.take(shown)) + if h > 0 {
            seq![TableRow::More(h as usize)]
        } else {
            Seq::empty()
        }
    } else {
        seq![TableRow::Header(g)] + agent_rows(m)
    }
}

/// Table rows in display order: the groups in their display order.
pub open spec fn table_rows<L>(agents: Seq<Agent<L>>, expanded: bool) -> Seq<TableRow> {
    group_rows(agents, AgentGroup::Pinned, expanded) + group_rows(
        agents,
        AgentGroup::ReadyForReview,
        expanded,
    ) + group_rows(agents, AgentGroup::NeedsInput, expanded) + group_rows(
        agents,
        AgentGroup::Working,
        expanded,
    ) + group_rows(agents, AgentGroup::Completed, expanded)
}

/// The rows of a view state.
pub open spec fn rows_of<L>(s: ViewState<L>) -> Seq<TableRow> {
    table_rows(s.agents, s.completed_expanded)
}

/// The agent of the selected row, if that row is an agent row.
pub open spec fn selected_agent_of<L>(s: ViewState<L>) -> Option<usize> {
    let r = rows_of(s);
    if (s.selected as int) < r.len() && r[s.selected as int] is Agent {
        Some(r[s.selected as int]->Agent_0)
    } else {
        None
    }
}

/// One step by `dir` (a sign) through `n` rows, wrapping around at both
/// ends.
pub open spec fn wrap_step(s: int, dir: int, n: int) -> int {
    if dir > 0 {
        if s + 1 >= n {
            0
        } else {
            s + 1
        }
    } else if dir < 0 {
        if s <= 0 {
            n - 1
        } else {
            s - 1
        }
    } else {
        s
    }
}

/// Stepping forward (cyclically) from `s`, at most `k` times, to the first
/// agent row.
pub open spec fn next_agent_row(r: Seq<TableRow>, s: int, k: int) -> int
    decreases k,
{
    if k <= 0 || r[s] is Agent {
        s
    } else {
        next_agent_row(r, wrap_step(s, 1, r.len() as int), k - 1)
    }
}

/// The selection kept after the rows change: the same row if it is an
/// agent row (clamped to the last row), else the next agent row.
pub open spec fn clamp_selection(r: Seq<TableRow>, sel: int) -> int {
    if r.len() == 0 {
        0
    } else {
        let s0 = if sel < r.len() - 1 {
            sel
        } else {
            r.len() - 1
        };
        next_agent_row(r, s0, r.len() as int)
    }
}

/// `s` with its selection clamped to its rows.
pub open spec fn clamped<L>(s: ViewState<L>) -> ViewState<L> {
    ViewState { selected: clamp_selection(rows_of(s), s.selected as int) as usize, ..s }
}

/// The sign of `d`.
pub open spec fn signum(d: int) -> int {
    if d > 0 {
        1
    } else if d < 0 {
        -1
    } else {
        0
    }
}

/// Moving by `dir` (cyclically), at most `k` times, until an agent row.
pub open spec fn step_selection(r: Seq<TableRow>, s: int, dir: int, k: int) -> int
    decreases k,
{
    if k <= 0 {
        s
    } else {
        let s2 = wrap_step(s, dir, r.len() as int);
        if r[s2] is Agent {
            s2
        } else {
            step_selection(r, s2, dir, k - 1)
        }
    }
}

/// The table scrolled so that the selected row is visible.
pub open spec fn scrolled_to_selected<L>(s: ViewState<L>) -> ViewState<L> {
    let area = s.view_height as int;
    if (s.selected as int) < s.scroll as int {
        ViewState { scroll: s.selected as u16, ..s }
    } else if s.selected as int >= s.scroll as int + area {
        ViewState { scroll: (s.selected as int + 1 - area) as u16, ..s }
    } else {
        s
    }
}

/// The selection moved by the sign of `delta`, skipping headers and the
/// collapsed tail (at most one full turn), then scrolled into view.
pub open spec fn moved<L>(s: ViewState<L>, delta: int) -> ViewState<L> {
    let r = rows_of(s);
    if r.len() == 0 {
        s
    } else {
        scrolled_to_selected(
            ViewState {
                selected: step_selection(r, s.selected as int, signum(delta), r.len() as int) as usize,
                ..s
            },
        )
    }
}

/// `agents` without those called `name`, in order.
pub open spec fn without_name<L>(agents: Seq<Agent<L>>, name: Seq<char>) -> Seq<Agent<L>>
    decreases agents.len(),
{
    if agents.len() == 0 {
        agents
    } else if agents[0].name@ == name {
        without_name(agents.drop_first(), name)
    } else {
        seq![agents[0]] + without_name(agents.drop_first(), name)
    }
}

/// Dismissing the selected agent: its name is queued as dismissed and every
/// agent of that name leaves the table.
pub open spec fn dismissed_selected<L>(s: ViewState<L>) -> ViewState<L> {
    match selected_agent_of(s) {
        Some(i) => {
            let name = s.agents[i as int].name;
            clamped(
                ViewState {
                    dismissed: s.dismissed.push(name),
                    agents: without_name(s.agents, name@),
                    ..s
                },
            )
        },
        None => s,
    }
}

/// The completed group toggled between collapsed and expanded.
pub open spec fn toggled<L>(s: ViewState<L>) -> ViewState<L> {
    clamped(ViewState { completed_expanded: !s.completed_expanded, ..s })
}

/// A control character (general category `Cc`).
pub open spec fn is_control(c: char) -> bool {
    (c as u32) <= 0x1f || (0x7f <= (c as u32) && (c as u32) <= 0x9f)
}

/// The reaction to a key while the transcript overlay is open.
pub open spec fn transcript_key<L>(s: ViewState<L>, k: Key) -> ViewState<L> {
    match k {
        Key::Esc | Key::Enter => ViewState { overlay: None, ..s },
        Key::Up | Key::Char('k') => ViewState {
            transcript_scroll: sat_sub(s.transcript_scroll as int, 1) as u16,
            ..s
        },
        Key::Down | Key::Char('j') => ViewState {
            transcript_scroll: (s.transcript_scroll + 1) as u16,
            ..s
        },
        _ => s,
    }
}

/// The reaction to a key while the peek panel is open.
pub open spec fn peek_key<L>(s: ViewState<L>, k: Key) -> ViewState<L> {
    match k {
        Key::Esc | Key::Enter => ViewState { overlay: None, ..s },
        Key::Char(c) => if is_control(c) {
            s
        } else {
            ViewState { reply: s.reply.push(c), ..s }
        },
        Key::Backspace => ViewState {
            reply: if s.reply.len() == 0 {
                s.reply
            } else {
                s.reply.drop_last()
            },
            ..s
        },
        _ => s,
    }
}

/// The reaction to a key on the table; the flag tells whether the key was
/// used.
pub open spec fn table_key<L>(s: ViewState<L>, k: Key) -> (ViewState<L>, bool) {
    match k {
        Key::Up | Key::Char('k') => (moved(s, -1), true),
        Key::Down | Key::Char('j') => (moved(s, 1), true),
        Key::Enter => (
            match selected_agent_of(s) {
                Some(i) => ViewState { transcript_scroll: 0, overlay: Some(Overlay::Transcript(i)), ..s },
                None => s,
            },
            true,
        ),
        Key::Char(' ') => (
            match selected_agent_of(s) {
                Some(i) => ViewState { reply: Seq::empty(), overlay: Some(Overlay::Peek(i)), ..s },
                None => s,
            },
            true,
        ),
        Key::Char('x') => (dismissed_selected(s), true),
        Key::PageDown => (moved(s, 10), true),
        Key::PageUp => (moved(s, -10), true),
        Key::Char('e') => (
            if hidden_count(s.agents, s.completed_expanded) > 0 {
                toggled(s)
            } else {
                s
            },
            true,
        ),
        _ => (s, false),
    }
}

/// The reaction to a left click at table row `row` (the header line is
/// row 0): a click closes an open overlay; on an agent row it selects the
/// row and opens its transcript; on the collapsed tail it toggles the
/// completed group.
pub open spec fn clicked<L>(s: ViewState<L>, row: u16) -> ViewState<L> {
    if s.overlay is Some {
        ViewState { overlay: None, ..s }
    } else if row as int >= s.view_height as int + 1 {
        s
    } else {
        let r = rows_of(s);
        let index = s.scroll as int + sat_sub(row as int, 1);
        if index < r.len() {
            match r[index] {
                TableRow::Agent(i) => ViewState {
                    selected: index as usize,
                    overlay: Some(Overlay::Transcript(i)),
                    ..s
                },
                TableRow::More(_) => toggled(s),
                TableRow::Header(_) => s,
            }
        } else {
            s
        }
    }
}

/// The reaction to one event; the flag tells whether the event was used.
pub open spec fn after_event<L>(s: ViewState<L>, ev: InputEvent) -> (ViewState<L>, bool) {
    match ev {
        InputEvent::Key(k) => match s.overlay {
            Some(Overlay::Transcript(_)) => (transcript_key(s, k), true),
            Some(Overlay::Peek(_)) => (peek_key(s, k), true),
            None => table_key(s, k),
        },
        InputEvent::Mouse(m) => match m.kind {
            MouseKind::ScrollUp => (moved(s, -3), true),
            MouseKind::ScrollDown => (moved(s, 3), true),
            MouseKind::LeftDown => (clicked(s, m.row), true),
            MouseKind::Other => (s, false),
        },
        InputEvent::Other => (s, false),
    }
}

/// Whether `ev` can be handled without a counter running over: the
/// transcript scroll grows by one per `Down` key.
pub open spec fn event_in_range<L>(s: ViewState<L>, ev: InputEvent) -> bool {
    match (ev, s.overlay) {
        (InputEvent::Key(Key::Down), Some(Overlay::Transcript(_))) => s.transcript_scroll < u16::MAX,
        (InputEvent::Key(Key::Char('j')), Some(Overlay::Transcript(_))) => s.transcript_scroll
            < u16::MAX,
        _ => true,
    }
}

/// Number of agents with status `st`.
pub open spec fn count_status<L>(agents: Seq<Agent<L>>, st: AgentStatus) -> nat
    decreases agents.len(),
{
    if agents.len() == 0 {
        0
    } else {
        count_status(agents.drop_last(), st) + if agents.last().status == st {
            1nat
        } else {
            0nat
        }
    }
}

/// The status line: `N sessions · W working · D done`.
pub open spec fn status_text<L>(agents: Seq<Agent<L>>) -> Seq<char> {
    decimal(agents.len()) + " sessions · "@ + decimal(count_status(agents, AgentStatus::Working))
        + " working · "@ + decimal(count_status(agents, AgentStatus::Completed)) + " done"@
}

/// The line of agent `a` in the table: the selection marker, the status
/// icon (animated while working), the name in its identity color, the
/// description (or else the activity), the pull request and the age text.
pub open spec fn row_line_spec<L>(a: Agent<L>, tick: u64, selected: bool, age: Seq<char>) -> LineV {
    let icon = icon_text(a.status, a.status == AgentStatus::Working && tick % 2 == 1);
    let rest = if a.description@.len() == 0 {
        a.activity@
    } else {
        a.description@
    };
    let base = seq![
        styled(icon, StyleTag::AgentStatus(a.status)),
        styled(seq![' '] + a.name@, StyleTag::AgentName(a.color)),
        styled(seq![' ', ' '] + rest, StyleTag::Dim),
    ];
    let with_pr = match a.pr {
        Some(n) => base.push(styled("  #"@ + decimal(n as nat), StyleTag::PrLink)),
        None => base,
    };
    let with_age = match a.age {
        Some(_) => with_pr.push(styled(seq![' ', ' '] + age, StyleTag::Dim)),
        None => with_pr,
    };
    line_of(
        if selected {
            seq![styled("❯"@, StyleTag::AgentStatus(a.status))] + with_age
        } else {
            with_age
        },
    )
}

/// The header line of the table: session, working and done counts.
pub open spec fn table_header<L>(agents: Seq<Agent<L>>) -> LineV {
    line_of(
        seq![
            styled("agents"@, StyleTag::ToolRunning),
            styled(" · "@ + decimal(agents.len()) + " sessions"@, StyleTag::Text),
            styled(" · "@ + decimal(count_status(agents, AgentStatus::Working)) + " working"@, StyleTag::Dim),
            styled(" · "@ + decimal(count_status(agents, AgentStatus::Completed)) + " done"@, StyleTag::Dim),
        ],
    )
}

/// The line of table row `row`, drawn as the `j`-th visible row; an agent
/// row is highlighted when `j` equals the selection (the age of an agent
/// row being `secs` seconds).
pub open spec fn table_row_line<L>(s: ViewState<L>, row: TableRow, j: int) -> LineV {
    match row {
        TableRow::Header(g) => line_of(seq![styled(group_title(g), StyleTag::Dim)]),
        TableRow::More(n) => line_of(
            seq![styled("  … "@ + decimal(n as nat) + " more (click to expand)"@, StyleTag::Dim)],
        ),
        TableRow::Agent(i) => LineV {
            style: if j == s.selected {
                seq![StyleTag::SelectedRow]
            } else {
                Seq::empty()
            },
            ..row_line_spec(s.agents[i as int], s.tick, j == s.selected, age_text(age_secs(s.agents[i as int])))
        },
    }
}

/// First visible table row.
pub open spec fn first_visible<L>(s: ViewState<L>) -> int {
    let n = rows_of(s).len() as int;
    if (s.scroll as int) < n {
        s.scroll as int
    } else {
        n
    }
}

/// Number of visible table rows: from the scroll offset, as many as the
/// view is high.
pub open spec fn visible_count<L>(s: ViewState<L>) -> int {
    let n = rows_of(s).len() as int;
    let f = first_visible(s);
    if f + s.view_height < n {
        s.view_height as int
    } else {
        n - f
    }
}

/// The lines of the table: the header, then the visible rows.
pub open spec fn table_lines_spec<L>(s: ViewState<L>) -> Seq<LineV> {
    let rows = rows_of(s);
    let f = first_visible(s);
    seq![table_header(s.agents)] + Seq::new(visible_count(s) as nat, |j: int| table_row_line(s, rows[f + j], j))
}

/// The whole seconds of an agent's age (0 without one).
pub open spec fn age_secs<L>(a: Agent<L>) -> u64 {
    match a.age {
        Some(d) => duration_secs(d),
        None => 0,
    }
}

/// The whole seconds an agent has been waiting (0 when it is not).
pub open spec fn waiting_secs<L>(a: Agent<L>) -> u64 {
    match a.waiting {
        Some(d) => duration_secs(d),
        None => 0,
    }
}

/// A line holding `t` in the line style `tag`.
pub open spec fn text_line(t: Seq<char>, tag: StyleTag) -> LineV {
    LineV { spans: seq![raw(t)], style: seq![tag] }
}

/// The status lines of the peek panel of agent `a`: its activity, result,
/// waiting time and pull request, each when present.
pub open spec fn peek_lines_spec<L>(a: Agent<L>) -> Seq<LineV> {
    let l1 = if a.activity@.len() > 0 {
        seq![text_line(a.activity@, StyleTag::Text)]
    } else {
        Seq::empty()
    };
    let l2 = match a.result {
        Some(r) => l1.push(text_line("result: "@ + r@, StyleTag::Dim)),
        None => l1,
    };
    let l3 = match a.waiting {
        Some(_) => l2.push(text_line("waiting "@ + age_text(waiting_secs(a)), StyleTag::Text)),
        None => l2,
    };
    match a.pr {
        Some(n) => l3.push(text_line("PR #"@ + decimal(n as nat), StyleTag::Text)),
        None => l3,
    }
}

/// The reply input line of the peek panel.
pub open spec fn reply_line_spec(reply: Seq<char>) -> LineV {
    line_of(
        seq![
            styled("reply › "@, StyleTag::ToolRunning),
            styled(reply, StyleTag::Text),
            styled("▋"@, StyleTag::ToolRunning),
        ],
    )
}

/// Rows of transcript lines the transcript panel shows in an area
/// `area_height` rows tall: at most [`TRANSCRIPT_CAP`] lines inside a
/// border.
pub open spec fn panel_rows(n: int, area_height: u16) -> int {
    let shown = if n < TRANSCRIPT_CAP {
        n
    } else {
        TRANSCRIPT_CAP as int
    };
    let height = if shown + 2 < area_height {
        shown + 2
    } else {
        area_height as int
    };
    sat_sub(height, 2)
}

/// The transcript scroll kept within the transcript: at most the number
/// of lines that do not fit (taken as a `u16`), 0 when all fit.
pub open spec fn clamped_transcript_scroll(scroll: u16, n: int, rows: int) -> u16 {
    if n > rows {
        let max = (n - rows) as u16;
        if scroll > max {
            max
        } else {
            scroll
        }
    } else {
        0
    }
}

/// A line holding `t` in the line style `tag`.
fn text_line_exec(t: &[char], tag: StyleTag) -> (l: Line)
    ensures
        l@ == text_line(t@, tag),
{
    let mut spans: Vec<Span> = Vec::new();
    push_span(&mut spans, raw_span(t));
    let mut st: Vec<StyleTag> = Vec::new();
    st.push(tag);
    let l = Line { spans, style: st };
    assert(l@.spans =~= text_line(t@, tag).spans);
    assert(l@.style =~= text_line(t@, tag).style);
    l
}

/// Agent overview component.
pub struct AgentView<L> {
    agents: Vec<Agent<L>>,
    selected: usize,
    scroll: u16,
    completed_expanded: bool,
    overlay: Option<Overlay>,
    transcript_scroll: u16,
    reply: Vec<char>,
    tick: u64,
    view_height: u16,
    dismissed: Vec<String>,
}

impl<L> View for AgentView<L> {
    type V = ViewState<L>;

    closed spec fn view(&self) -> ViewState<L> {
        ViewState {
            agents: self.agents@,
            selected: self.selected,
            scroll: self.scroll,
            completed_expanded: self.completed_expanded,
            overlay: self.overlay,
            transcript_scroll: self.transcript_scroll,
            reply: self.reply@,
            tick: self.tick,
            view_height: self.view_height,
            dismissed: self.dismissed@,
        }
    }
}

/// The selection rests on an agent row (at 0 when there are no rows).
pub open spec fn selection_on_agent<L>(s: ViewState<L>) -> bool {
    let r = rows_of(s);
    if r.len() == 0 {
        s.selected == 0
    } else {
        (s.selected as int) < r.len() && r[s.selected as int] is Agent
    }
}

/// Every agent row of `r` names an agent below `n`.
pub open spec fn agent_rows_below(r: Seq<TableRow>, n: int) -> bool {
    forall|k: int| 0 <= k < r.len() && (#[trigger] r[k]) is Agent ==> (r[k]->Agent_0 as int) < n
}

proof fn lemma_members_below<L>(agents: Seq<Agent<L>>, g: AgentGroup, n: int)
    requires
        n <= agents.len() <= usize::MAX,
    ensures
        forall|k: int|
            0 <= k < members(agents, g, n).len() ==> (#[trigger] members(agents, g, n)[k] as int) < n,
    decreases n,
{
    if n > 0 {
        lemma_members_below(agents, g, n - 1);
        let m = members(agents, g, n - 1);
        if group_of(agents[n - 1].status) == g {
            assert forall|k: int| 0 <= k < m.push((n - 1) as usize).len() implies (#[trigger] m.push(
                (n - 1) as usize,
            )[k] as int) < n by {
                if k < m.len() {
                    assert(m.push((n - 1) as usize)[k] == m[k]);
                }
            }
        }
    }
}

proof fn lemma_group_rows_below<L>(agents: Seq<Agent<L>>, g: AgentGroup, expanded: bool)
    requires
        agents.len() <= usize::MAX,
    ensures
        agent_rows_below(group_rows(agents, g, expanded), agents.len() as int),
{
    let m = group_members(agents, g);
    lemma_members_below(agents, g, agents.len() as int);
    let r = group_rows(agents, g, expanded);
    if m.len() > 0 {
        if g == AgentGroup::Completed {
            let h = hidden_count(agents, expanded);
            let t = m.take(sat_sub(m.len() as int, h));
            assert forall|k: int| 0 <= k < r.len() && (#[trigger] r[k]) is Agent implies (r[k]->Agent_0 as int)
                < agents.len() by {
                if 1 <= k < 1 + t.len() {
                    assert(r[k] == agent_rows(t)[k - 1]);
                    assert(t[k - 1] == m[k - 1]);
                }
            }
        } else {
            assert forall|k: int| 0 <= k < r.len() && (#[trigger] r[k]) is Agent implies (r[k]->Agent_0 as int)
                < agents.len() by {
                if 1 <= k {
                    assert(r[k] == agent_rows(m)[k - 1]);
                }
            }
        }
    }
}

proof fn lemma_concat_below(a: Seq<TableRow>, b: Seq<TableRow>, n: int)
    requires
        agent_rows_below(a, n),
        agent_rows_below(b, n),
    ensures
        agent_rows_below(a + b, n),
{
    assert forall|k: int| 0 <= k < (a + b).len() && (#[trigger] (a + b)[k]) is Agent implies ((a
        + b)[k]->Agent_0 as int) < n by {
        if k < a.len() {
            assert((a + b)[k] == a[k]);
        } else {
            assert((a + b)[k] == b[k - a.len()]);
        }
    }
}

/// Every agent row of the table names a listed agent.
proof fn lemma_rows_below<L>(agents: Seq<Agent<L>>, expanded: bool)
    requires
        agents.len() <= usize::MAX,
    ensures
        agent_rows_below(table_rows(agents, expanded), agents.len() as int),
{
    let n = agents.len() as int;
    let r1 = group_rows(agents, AgentGroup::Pinned, expanded);
    let r2 = group_rows(agents, AgentGroup::ReadyForReview, expanded);
    let r3 = group_rows(agents, AgentGroup::NeedsInput, expanded);
    let r4 = group_rows(agents, AgentGroup::Working, expanded);
    let r5 = group_rows(agents, AgentGroup::Completed, expanded);
    lemma_group_rows_below(agents, AgentGroup::Pinned, expanded);
    lemma_group_rows_below(agents, AgentGroup::ReadyForReview, expanded);
    lemma_group_rows_below(agents, AgentGroup::NeedsInput, expanded);
    lemma_group_rows_below(agents, AgentGroup::Working, expanded);
    lemma_group_rows_below(agents, AgentGroup::Completed, expanded);
    lemma_concat_below(r1, r2, n);
    lemma_concat_below(r1 + r2, r3, n);
    lemma_concat_below(r1 + r2 + r3, r4, n);
    lemma_concat_below(r1 + r2 + r3 + r4, r5, n);
}

proof fn lemma_next_agent_row_range(r: Seq<TableRow>, s: int, k: int)
    requires
        0 <= s < r.len(),
    ensures
        0 <= next_agent_row(r, s, k) < r.len(),
    decreases k,
{
    if k > 0 && !(r[s] is Agent) {
        lemma_next_agent_row_range(r, wrap_step(s, 1, r.len() as int), k - 1);
    }
}

proof fn lemma_step_selection_range(r: Seq<TableRow>, s: int, dir: int, k: int)
    requires
        0 <= s < r.len(),
    ensures
        0 <= step_selection(r, s, dir, k) < r.len(),
    decreases k,
{
    if k > 0 {
        let s2 = wrap_step(s, dir, r.len() as int);
        if !(r[s2] is Agent) {
            lemma_step_selection_range(r, s2, dir, k - 1);
        }
    }
}

/// Forward distance from `s` to `j` through `n` cyclic rows (a full turn
/// when they coincide).
pub open spec fn forward_distance(s: int, j: int, n: int) -> int {
    if j > s {
        j - s
    } else {
        n - s + j
    }
}

/// Backward distance from `s` to `j` through `n` cyclic rows (a full turn
/// when they coincide).
pub open spec fn backward_distance(s: int, j: int, n: int) -> int {
    if j < s {
        s - j
    } else {
        s + n - j
    }
}

proof fn lemma_next_agent_row_finds(r: Seq<TableRow>, s: int, j: int, k: int)
    requires
        0 <= s < r.len(),
        0 <= j < r.len(),
        r[j] is Agent,
        k > (if j >= s { j - s } else { r.len() - s + j }),
    ensures
        r[next_agent_row(r, s, k)] is Agent,
    decreases k,
{
    if !(r[s] is Agent) {
        lemma_next_agent_row_finds(r, wrap_step(s, 1, r.len() as int), j, k - 1);
    }
}

proof fn lemma_step_forward_finds(r: Seq<TableRow>, s: int, j: int, k: int)
    requires
        0 <= s < r.len(),
        0 <= j < r.len(),
        r[j] is Agent,
        k >= forward_distance(s, j, r.len() as int),
    ensures
        r[step_selection(r, s, 1, k)] is Agent,
    decreases k,
{
    let s2 = wrap_step(s, 1, r.len() as int);
    if !(r[s2] is Agent) {
        lemma_step_forward_finds(r, s2, j, k - 1);
    }
}

proof fn lemma_step_backward_finds(r: Seq<TableRow>, s: int, j: int, k: int)
    requires
        0 <= s < r.len(),
        0 <= j < r.len(),
        r[j] is Agent,
        k >= backward_distance(s, j, r.len() as int),
    ensures
        r[step_selection(r, s, -1, k)] is Agent,
    decreases k,
{
    let s2 = wrap_step(s, -1, r.len() as int);
    if !(r[s2] is Agent) {
        lemma_step_backward_finds(r, s2, j, k - 1);
    }
}

/// From an agent row, a move ends on an agent row.
proof fn lemma_step_lands_on_agent(r: Seq<TableRow>, s: int, dir: int)
    requires
        0 <= s < r.len(),
        r[s] is Agent,
        dir == 1 || dir == -1 || dir == 0,
    ensures
        r[step_selection(r, s, dir, r.len() as int)] is Agent,
{
    if dir == 1 {
        lemma_step_forward_finds(r, s, s, r.len() as int);
    } else if dir == -1 {
        lemma_step_backward_finds(r, s, s, r.len() as int);
    }
}

proof fn lemma_group_starts_with_agent<L>(agents: Seq<Agent<L>>, g: AgentGroup, expanded: bool)
    requires
        group_rows(agents, g, expanded).len() > 0,
    ensures
        group_rows(agents, g, expanded).len() > 1,
        group_rows(agents, g, expanded)[1] is Agent,
{
    let m = group_members(agents, g);
    let r = group_rows(agents, g, expanded);
    if g == AgentGroup::Completed {
        let t = m.take(sat_sub(m.len() as int, hidden_count(agents, expanded)));
        assert(t.len() >= 1);
        assert(r[1] == agent_rows(t)[0]);
    } else {
        assert(r[1] == agent_rows(m)[0]);
    }
}

/// A table with rows has an agent row.
proof fn lemma_rows_have_agent<L>(agents: Seq<Agent<L>>, expanded: bool)
    requires
        table_rows(agents, expanded).len() > 0,
    ensures
        exists|j: int|
            0 <= j < table_rows(agents, expanded).len() && (#[trigger] table_rows(agents, expanded)[j]) is Agent,
{
    let r1 = group_rows(agents, AgentGroup::Pinned, expanded);
    let r2 = group_rows(agents, AgentGroup::ReadyForReview, expanded);
    let r3 = group_rows(agents, AgentGroup::NeedsInput, expanded);
    let r4 = group_rows(agents, AgentGroup::Working, expanded);
    let r5 = group_rows(agents, AgentGroup::Completed, expanded);
    let r = table_rows(agents, expanded);
    assert(r == r1 + r2 + r3 + r4 + r5);
    if r1.len() > 0 {
        lemma_group_starts_with_agent(agents, AgentGroup::Pinned, expanded);
        assert(r[1] is Agent);
    } else if r2.len() > 0 {
        lemma_group_starts_with_agent(agents, AgentGroup::ReadyForReview, expanded);
        assert(r[(r1.len() + 1) as int] is Agent);
    } else if r3.len() > 0 {
        lemma_group_starts_with_agent(agents, AgentGroup::NeedsInput, expanded);
        assert(r[(r1.len() + r2.len() + 1) as int] is Agent);
    } else if r4.len() > 0 {
        lemma_group_starts_with_agent(agents, AgentGroup::Working, expanded);
        assert(r[(r1.len() + r2.len() + r3.len() + 1) as int] is Agent);
    } else {
        lemma_group_starts_with_agent(agents, AgentGroup::Completed, expanded);
        assert(r[(r1.len() + r2.len() + r3.len() + r4.len() + 1) as int] is Agent);
    }
}

/// After a clamp, the selection rests on an agent row.
proof fn lemma_clamp_lands_on_agent<L>(s: ViewState<L>)
    requires
        rows_of(s).len() <= usize::MAX,
    ensures
        selection_on_agent(clamped(s)),
{
    let r = rows_of(s);
    if r.len() > 0 {
        lemma_rows_have_agent(s.agents, s.completed_expanded);
        let j = choose|j: int| 0 <= j < r.len() && (#[trigger] r[j]) is Agent;
        let s0 = if (s.selected as int) < r.len() - 1 {
            s.selected as int
        } else {
            r.len() - 1
        };
        lemma_next_agent_row_finds(r, s0, j, r.len() as int);
        lemma_next_agent_row_range(r, s0, r.len() as int);
    }
}

fn is_agent_row(r: TableRow) -> (b: bool)
    ensures
        b == r is Agent,
{
    match r {
        TableRow::Agent(_) => true,
        _ => false,
    }
}

/// `agents` with every agent called `name` removed.
fn remove_named<L>(agents: &mut Vec<Agent<L>>, name: &String)
    ensures
        final(agents)@ == without_name(old(agents)@, name@),
{
    let ghost goal = without_name(agents@, name@);
    let mut rest: Vec<Agent<L>> = Vec::new();
    std::mem::swap(&mut rest, agents);
    assert(agents@ + without_name(rest@, name@) =~= goal);
    while rest.len() > 0
        invariant
            agents@ + without_name(rest@, name@) == goal,
        decreases rest@.len(),
    {
        let ghost before = rest@;
        let a = rest.remove(0);
        assert(rest@ =~= before.drop_first());
        let ghost prev = agents@;
        if !(a.name == *name) {
            agents.push(a);
            assert(without_name(before, name@) == seq![a] + without_name(rest@, name@));
            assert(agents@ + without_name(rest@, name@) =~= prev + without_name(before, name@));
        } else {
            assert(without_name(before, name@) == without_name(rest@, name@));
        }
    }
    assert(without_name(rest@, name@) =~= Seq::<Agent<L>>::empty());
    assert(agents@ =~= goal);
}

impl<L> AgentView<L> {
    /// Create an empty agent view.
    pub fn new() -> (v: Self)
        ensures
            v@ == (ViewState::<L> {
                agents: Seq::empty(),
                selected: 0,
                scroll: 0,
                completed_expanded: false,
                overlay: None,
                transcript_scroll: 0,
                reply: Seq::empty(),
                tick: 0,
                view_height: 24,
                dismissed: Seq::empty(),
            }),
            selection_on_agent(v@),
    {
        let v = AgentView {
            agents: Vec::new(),
            selected: 0,
            scroll: 0,
            completed_expanded: false,
            overlay: None,
            transcript_scroll: 0,
            reply: Vec::new(),
            tick: 0,
            view_height: 24,
            dismissed: Vec::new(),
        };
        assert(v@.agents =~= Seq::<Agent<L>>::empty());
        assert(rows_of(v@) =~= Seq::<TableRow>::empty());
        v
    }

    fn members_of(&self, g: AgentGroup) -> (m: Vec<usize>)
        ensures
            m@ == group_members(self@.agents, g),
    {
        let mut m: Vec<usize> = Vec::new();
        let mut i: usize = 0;
        while i < self.agents.len()
            invariant
                i <= self@.agents.len(),
                self@.agents == self.agents@,
                m@ == members(self@.agents, g, i as int),
            decreases self@.agents.len() - i,
        {
            if self.agents[i].status.group() == g {
                m.push(i);
            }
            i += 1;
        }
        m
    }

    /// Number of completed rows hidden by the collapsed tail.
    fn hidden_completed(&self) -> (h: usize)
        ensures
            h as int == hidden_count(self@.agents, self@.completed_expanded),
    {
        if self.completed_expanded {
            return 0;
        }
        let completed = self.members_of(AgentGroup::Completed).len();
        completed.saturating_sub(MAX_COMPLETED)
    }

    fn push_group(&self, rows: &mut Vec<TableRow>, g: AgentGroup)
        ensures
            final(rows)@ == old(rows)@ + group_rows(self@.agents, g, self@.completed_expanded),
    {
        let m = self.members_of(g);
        let ghost start = rows@;
        if m.len() == 0 {
            assert(start + group_rows(self@.agents, g, self@.completed_expanded) =~= start);
            return;
        }
        rows.push(TableRow::Header(g));
        let shown: usize = if g == AgentGroup::Completed {
            m.len().saturating_sub(self.hidden_completed())
        } else {
            m.len()
        };
        let mut k: usize = 0;
        while k < shown
            invariant
                shown <= m@.len(),
                k <= shown,
                rows@ == start + seq![TableRow::Header(g)] + agent_rows(m@.take(k as int)),
            decreases shown - k,
        {
            rows.push(TableRow::Agent(m[k]));
            assert(agent_rows(m@.take(k + 1)) =~= agent_rows(m@.take(k as int)).push(
                TableRow::Agent(m@[k as int]),
            ));
            k += 1;
        }
        if g == AgentGroup::Completed {
            let hidden = self.hidden_completed();
            if hidden > 0 {
                rows.push(TableRow::More(hidden));
            }
            assert(rows@ =~= start + group_rows(self@.agents, g, self@.completed_expanded));
        } else {
            assert(m@.take(shown as int) =~= m@);
            assert(rows@ =~= start + group_rows(self@.agents, g, self@.completed_expanded));
        }
    }

    /// Table rows in display order: group order, agents listed by group,
    /// the completed group collapsed when too long.
    pub fn rows(&self) -> (r: Vec<TableRow>)
        ensures
            r@ == rows_of(self@),
    {
        let mut rows: Vec<TableRow> = Vec::new();
        self.push_group(&mut rows, AgentGroup::Pinned);
        self.push_group(&mut rows, AgentGroup::ReadyForReview);
        self.push_group(&mut rows, AgentGroup::NeedsInput);
        self.push_group(&mut rows, AgentGroup::Working);
        self.push_group(&mut rows, AgentGroup::Completed);
        assert(rows@ =~= rows_of(self@));
        rows
    }

    /// The agent index of the selected row, if it is an agent row.
    pub fn selected_agent(&self) -> (r: Option<usize>)
        ensures
            r == selected_agent_of(self@),
    {
        let rows = self.rows();
        if self.selected < rows.len() {
            match rows[self.selected] {
                TableRow::Agent(i) => Some(i),
                _ => None,
            }
        } else {
            None
        }
    }

    /// Whether an overlay (transcript / peek) is open.
    pub fn overlay_open(&self) -> (b: bool)
        ensures
            b == self@.overlay is Some,
    {
        self.overlay.is_some()
    }

    /// Session rows currently shown.
    pub fn agents(&self) -> (a: &[Agent<L>])
        ensures
            a@ == self@.agents,
    {
        self.agents.as_slice()
    }

    /// Selection moves to a row that is safe to keep: headers and the
    /// collapsed tail are skipped so the selection lands on an agent row.
    fn clamp_selection(&mut self)
        ensures
            final(self)@ == clamped(old(self)@),
            selection_on_agent(final(self)@),
    {
        let rows = self.rows();
        proof {
            lemma_clamp_lands_on_agent(self@);
        }
        if rows.len() == 0 {
            self.selected = 0;
            return;
        }
        let n = rows.len();
        let ghost r = rows@;
        let mut s: usize = if self.selected < n - 1 {
            self.selected
        } else {
            n - 1
        };
        let ghost goal = next_agent_row(r, s as int, n as int);
        let mut k: usize = n;
        while k > 0 && !is_agent_row(rows[s])
            invariant
                rows@ == r,
                n == r.len(),
                s < n,
                k <= n,
                next_agent_row(r, s as int, k as int) == goal,
            decreases k,
        {
            s = if s + 1 >= n {
                0
            } else {
                s + 1
            };
            k -= 1;
        }
        self.selected = s;
    }

    fn scroll_to_selected(&mut self)
        requires
            old(self).selected < usize::MAX,
        ensures
            final(self)@ == scrolled_to_selected(old(self)@),
    {
        let area_rows = self.view_height as usize;
        if self.selected < self.scroll as usize {
            self.scroll = self.selected as u16;
        } else if self.selected >= self.scroll as usize + area_rows {
            self.scroll = (self.selected + 1 - area_rows) as u16;
        }
    }

    /// Move the selection by the sign of `delta`, skipping group headers.
    fn move_selection(&mut self, delta: isize)
        requires
            selection_on_agent(old(self)@),
        ensures
            final(self)@ == moved(old(self)@, delta as int),
            selection_on_agent(final(self)@),
    {
        let rows = self.rows();
        if rows.len() == 0 {
            return;
        }
        let n = rows.len();
        let ghost r = rows@;
        let dir: isize = if delta > 0 {
            1
        } else if delta < 0 {
            -1
        } else {
            0
        };
        let ghost goal = step_selection(r, self.selected as int, dir as int, n as int);
        proof {
            lemma_step_selection_range(r, self.selected as int, dir as int, n as int);
            lemma_step_lands_on_agent(r, self.selected as int, dir as int);
        }
        let mut s: usize = self.selected;
        let mut steps: usize = 0;
        let mut done = false;
        while steps < n && !done
            invariant
                rows@ == r,
                n == r.len(),
                s < n,
                steps <= n,
                done ==> s as int == goal,
                !done ==> step_selection(r, s as int, dir as int, n - steps) == goal,
            decreases n - steps,
        {
            s = if dir > 0 {
                if s + 1 >= n {
                    0
                } else {
                    s + 1
                }
            } else if dir < 0 {
                if s == 0 {
                    n - 1
                } else {
                    s - 1
                }
            } else {
                s
            };
            steps += 1;
            done = is_agent_row(rows[s]);
        }
        self.selected = s;
        self.scroll_to_selected();
    }

    fn toggle_completed(&mut self)
        ensures
            final(self)@ == toggled(old(self)@),
            selection_on_agent(final(self)@),
    {
        self.completed_expanded = !self.completed_expanded;
        self.clamp_selection();
    }

    fn dismiss_selected(&mut self)
        requires
            selection_on_agent(old(self)@),
        ensures
            final(self)@ == dismissed_selected(old(self)@),
            selection_on_agent(final(self)@),
    {
        match self.selected_agent() {
            Some(i) => {
                let count = self.agents.len();
                proof {
                    lemma_rows_below(self@.agents, self@.completed_expanded);
                    assert(rows_of(self@)[self.selected as int] is Agent);
                }
                let name = self.agents[i].name.clone();
                self.dismissed.push(name.clone());
                remove_named(&mut self.agents, &name);
                self.clamp_selection();
            },
            None => {},
        }
    }

    /// Replace the whole agent table.
    pub fn set_agents(&mut self, agents: Vec<Agent<L>>)
        ensures
            final(self)@ == clamped(ViewState { agents: agents@, ..old(self)@ }),
            selection_on_agent(final(self)@),
    {
        self.agents = agents;
        self.clamp_selection();
    }

    /// Merge a fresh snapshot (same-name agents updated in place, new ones
    /// appended, dismissed names ignored).
    pub fn merge_agents(&mut self, incoming: Vec<Agent<L>>)
        ensures
            final(self)@ == clamped(
                ViewState {
                    agents: merged(old(self)@.agents, incoming@, old(self)@.dismissed),
                    ..old(self)@
                },
            ),
            selection_on_agent(final(self)@),
    {
        merge_agents(&mut self.agents, incoming, self.dismissed.as_slice());
        self.clamp_selection();
    }

    /// Names dismissed with `x`; the queue is emptied.
    pub fn take_dismissed(&mut self) -> (d: Vec<String>)
        ensures
            d@ == old(self)@.dismissed,
            final(self)@ == (ViewState { dismissed: Seq::empty(), ..old(self)@ }),
    {
        let mut d: Vec<String> = Vec::new();
        std::mem::swap(&mut d, &mut self.dismissed);
        assert(self@ == (ViewState { dismissed: Seq::<String>::empty(), ..old(self)@ }));
        d
    }

    /// Advance the animation frame.
    pub fn on_tick(&mut self)
        requires
            old(self)@.tick < u64::MAX,
        ensures
            final(self)@ == (ViewState { tick: (old(self)@.tick + 1) as u64, ..old(self)@ }),
    {
        self.tick = self.tick + 1;
    }

    /// Before a draw of `area_height` rows: the selection is clamped and the
    /// table gets every row but the header line.
    pub fn prepare_draw(&mut self, area_height: u16)
        ensures
            final(self)@ == (ViewState {
                view_height: sat_sub(area_height as int, 1) as u16,
                ..clamped(old(self)@)
            }),
            selection_on_agent(final(self)@),
    {
        self.clamp_selection();
        self.view_height = area_height.saturating_sub(1);
    }

    /// Handle one event; returns whether it was used.
    pub fn event(&mut self, ev: InputEvent) -> (used: bool)
        requires
            selection_on_agent(old(self)@),
            event_in_range(old(self)@, ev),
        ensures
            (final(self)@, used) == after_event(old(self)@, ev),
            selection_on_agent(final(self)@),
    {
        match ev {
            InputEvent::Key(k) => match self.overlay {
                Some(Overlay::Transcript(_)) => {
                    match k {
                        Key::Esc | Key::Enter => {
                            self.overlay = None;
                        },
                        Key::Up | Key::Char('k') => {
                            self.transcript_scroll = self.transcript_scroll.saturating_sub(1);
                        },
                        Key::Down | Key::Char('j') => {
                            self.transcript_scroll = self.transcript_scroll + 1;
                        },
                        _ => {},
                    }
                    true
                },
                Some(Overlay::Peek(_)) => {
                    match k {
                        Key::Esc | Key::Enter => {
                            self.overlay = None;
                        },
                        Key::Char(c) => {
                            let code = c as u32;
                            if !(code <= 0x1f || (0x7f <= code && code <= 0x9f)) {
                                self.reply.push(c);
                            }
                        },
                        Key::Backspace => {
                            self.reply.pop();
                        },
                        _ => {},
                    }
                    true
                },
                None => self.table_key(k),
            },
            InputEvent::Mouse(m) => match m.kind {
                MouseKind::ScrollUp => {
                    self.move_selection(-3);
                    true
                },
                MouseKind::ScrollDown => {
                    self.move_selection(3);
                    true
                },
                MouseKind::LeftDown => {
                    self.click(m.row);
                    true
                },
                MouseKind::Other => false,
            },
            InputEvent::Other => false,
        }
    }

    fn table_key(&mut self, k: Key) -> (used: bool)
        requires
            selection_on_agent(old(self)@),
            old(self)@.overlay is None,
        ensures
            (final(self)@, used) == table_key(old(self)@, k),
            selection_on_agent(final(self)@),
    {
        match k {
            Key::Up | Key::Char('k') => {
                self.move_selection(-1);
                true
            },
            Key::Down | Key::Char('j') => {
                self.move_selection(1);
                true
            },
            Key::Enter => {
                if let Some(i) = self.selected_agent() {
                    self.transcript_scroll = 0;
                    self.overlay = Some(Overlay::Transcript(i));
                }
                true
            },
            Key::Char(' ') => {
                if let Some(i) = self.selected_agent() {
                    self.reply.clear();
                    self.overlay = Some(Overlay::Peek(i));
                }
                true
            },
            Key::Char('x') => {
                self.dismiss_selected();
                true
            },
            Key::PageDown => {
                self.move_selection(10);
                true
            },
            Key::PageUp => {
                self.move_selection(-10);
                true
            },
            Key::Char('e') => {
                if self.hidden_completed() > 0 {
                    self.toggle_completed();
                }
                true
            },
            _ => false,
        }
    }

    fn click(&mut self, row: u16)
        requires
            selection_on_agent(old(self)@),
        ensures
            final(self)@ == clicked(old(self)@, row),
            selection_on_agent(final(self)@),
    {
        if self.overlay.is_some() {
            self.overlay = None;
            return;
        }
        let row = row as usize;
        if row >= self.view_height as usize + 1 {
            return;
        }
        let rows = self.rows();
        let index = self.scroll as usize + row.saturating_sub(1);
        if index < rows.len() {
            match rows[index] {
                TableRow::Agent(i) => {
                    self.selected = index;
                    self.overlay = Some(Overlay::Transcript(i));
                },
                TableRow::More(_) => {
                    self.toggle_completed();
                },
                TableRow::Header(_) => {},
            }
        }
    }

    /// Component title.
    pub fn title(&self) -> (t: &'static str)
        ensures
            t@ == "agents"@,
    {
        "agents"
    }

    /// Key hints for the footer.
    pub fn hints(&self) -> (h: &'static str)
        ensures
            h@ == if self@.overlay is Some {
                "[esc] close"@
            } else {
                "[j/k] select  [enter] transcript  [space] peek  [x] dismiss  [e] expand"@
            },
    {
        if self.overlay.is_some() {
            "[esc] close"
        } else {
            "[j/k] select  [enter] transcript  [space] peek  [x] dismiss  [e] expand"
        }
    }

    fn count_status(&self, st: AgentStatus) -> (c: usize)
        ensures
            c as nat == count_status(self@.agents, st),
    {
        let mut c: usize = 0;
        let mut i: usize = 0;
        while i < self.agents.len()
            invariant
                i <= self@.agents.len(),
                self@.agents == self.agents@,
                c as nat == count_status(self@.agents.take(i as int), st),
                c <= i,
            decreases self@.agents.len() - i,
        {
            assert(self@.agents.take(i + 1).drop_last() =~= self@.agents.take(i as int));
            if self.agents[i].status == st {
                c += 1;
            }
            i += 1;
        }
        assert(self@.agents.take(i as int) =~= self@.agents);
        c
    }

    /// The table line of agent `i` (see [`row_line_spec`]); its age is
    /// shown in whole seconds, minutes, hours or days.
    pub fn row_line(&self, i: usize, selected: bool) -> (l: Line)
        requires
            i < self@.agents.len(),
        ensures
            l@ == row_line_spec(
                self@.agents[i as int],
                self@.tick,
                selected,
                age_text(age_secs(self@.agents[i as int])),
            ),
    {
        let a = &self.agents[i];
        let anim = a.status == AgentStatus::Working && self.tick % 2 == 1;
        let mut spans: Vec<Span> = Vec::new();
        if selected {
            let m: Vec<char> = vec!['❯'];
            proof {
                reveal_strlit("❯");
                assert(m@ =~= "❯"@);
            }
            push_span(&mut spans, styled_span(&m, StyleTag::AgentStatus(a.status)));
        }
        let ghost pre = spans_view(spans@);
        let icon = chars_of(a.status.icon(anim));
        push_span(&mut spans, styled_span(&icon, StyleTag::AgentStatus(a.status)));
        let mut name: Vec<char> = vec![' '];
        let nv = chars_of(a.name.as_str());
        extend_all(&mut name, &nv);
        push_span(&mut spans, styled_span(&name, StyleTag::AgentName(a.color)));
        let mut rest: Vec<char> = vec![' ', ' '];
        let rv = if a.description.as_str().is_empty() {
            chars_of(a.activity.as_str())
        } else {
            chars_of(a.description.as_str())
        };
        extend_all(&mut rest, &rv);
        push_span(&mut spans, styled_span(&rest, StyleTag::Dim));
        let ghost base = spans_view(spans@);
        match a.pr {
            Some(n) => {
                let mut t: Vec<char> = vec![' ', ' ', '#'];
                let d = decimal_exec(n as u64);
                extend_all(&mut t, &d);
                proof {
                    reveal_strlit("  #");
                    assert(t@ =~= "  #"@ + decimal(n as nat));
                }
                push_span(&mut spans, styled_span(&t, StyleTag::PrLink));
            },
            None => {},
        }
        let ghost with_pr = spans_view(spans@);
        let ghost mut secs: u64 = 0;
        match a.age {
            Some(d) => {
                let t = fmt_age(d);
                proof {
                    secs = duration_secs(d);
                }
                let mut v: Vec<char> = vec![' ', ' '];
                let tv = chars_of(t.as_str());
                extend_all(&mut v, &tv);
                push_span(&mut spans, styled_span(&v, StyleTag::Dim));
            },
            None => {},
        }
        let l = Line { spans, style: Vec::new() };
        proof {
            let av = self@.agents[i as int];
            assert(av == *a);
            let spec = row_line_spec(av, self@.tick, selected, age_text(secs));
            let icon_s = icon_text(av.status, av.status == AgentStatus::Working && self@.tick % 2 == 1);
            let rest_s = if av.description@.len() == 0 {
                av.activity@
            } else {
                av.description@
            };
            let b = seq![
                styled(icon_s, StyleTag::AgentStatus(av.status)),
                styled(seq![' '] + av.name@, StyleTag::AgentName(av.color)),
                styled(seq![' ', ' '] + rest_s, StyleTag::Dim),
            ];
            assert(icon@ == icon_s);
            assert(name@ =~= seq![' '] + av.name@);
            assert(rv@ == rest_s);
            assert(rest@ =~= seq![' ', ' '] + rest_s);
            assert(base =~= pre + b);
            assert(l@.style =~= Seq::<StyleTag>::empty());
            assert(l@.spans =~= spec.spans);
        }
        l
    }

    /// The lines of the table for the last layout (see
    /// [`table_lines_spec`]): the header and the rows that fit the view
    /// from the scroll offset.
    pub fn table_lines(&self) -> (r: Vec<Line>)
        ensures
            lines_view(r@) == table_lines_spec(self@),
    {
        let mut out: Vec<Line> = Vec::new();
        let mut hs: Vec<Span> = Vec::new();
        let a: Vec<char> = vec!['a', 'g', 'e', 'n', 't', 's'];
        push_span(&mut hs, styled_span(&a, StyleTag::ToolRunning));
        let mut b: Vec<char> = vec![' ', '·', ' '];
        let n = decimal_exec(self.agents.len() as u64);
        extend_all(&mut b, &n);
        let b2: Vec<char> = vec![' ', 's', 'e', 's', 's', 'i', 'o', 'n', 's'];
        extend_all(&mut b, &b2);
        push_span(&mut hs, styled_span(&b, StyleTag::Text));
        let mut c: Vec<char> = vec![' ', '·', ' '];
        let w = decimal_exec(self.count_status(AgentStatus::Working) as u64);
        extend_all(&mut c, &w);
        let c2: Vec<char> = vec![' ', 'w', 'o', 'r', 'k', 'i', 'n', 'g'];
        extend_all(&mut c, &c2);
        push_span(&mut hs, styled_span(&c, StyleTag::Dim));
        let mut d: Vec<char> = vec![' ', '·', ' '];
        let dn = decimal_exec(self.count_status(AgentStatus::Completed) as u64);
        extend_all(&mut d, &dn);
        let d2: Vec<char> = vec![' ', 'd', 'o', 'n', 'e'];
        extend_all(&mut d, &d2);
        push_span(&mut hs, styled_span(&d, StyleTag::Dim));
        proof {
            reveal_strlit("agents");
            reveal_strlit(" · ");
            reveal_strlit(" sessions");
            reveal_strlit(" working");
            reveal_strlit(" done");
            assert(a@ =~= "agents"@);
            assert(b@ =~= " · "@ + decimal(self@.agents.len()) + " sessions"@);
            assert(c@ =~= " · "@ + decimal(count_status(self@.agents, AgentStatus::Working)) + " working"@);
            assert(d@ =~= " · "@ + decimal(count_status(self@.agents, AgentStatus::Completed)) + " done"@);
        }
        let header = Line { spans: hs, style: Vec::new() };
        assert(header@.style =~= Seq::<StyleTag>::empty());
        assert(header@.spans =~= table_header(self@.agents).spans);
        assert(header@ == table_header(self@.agents));
        push_lines(&mut out, header);
        let rows = self.rows();
        proof {
            lemma_rows_below(self@.agents, self@.completed_expanded);
        }
        let total = rows.len();
        let first: usize = if (self.scroll as usize) < total {
            self.scroll as usize
        } else {
            total
        };
        let count: usize = if first + (self.view_height as usize) < total {
            self.view_height as usize
        } else {
            total - first
        };
        let ghost s = self@;
        let mut j: usize = 0;
        while j < count
            invariant
                s == self@,
                rows@ == rows_of(s),
                agent_rows_below(rows@, s.agents.len() as int),
                first as int == first_visible(s),
                count as int == visible_count(s),
                first + count <= rows@.len(),
                j <= count,
                lines_view(out@) == seq![table_header(s.agents)] + Seq::new(
                    j as nat,
                    |k: int| table_row_line(s, rows@[first + k], k),
                ),
            decreases count - j,
        {
            let ghost before = lines_view(out@);
            let row = rows[first + j];
            let sel = j == self.selected;
            match row {
                TableRow::Header(g) => {
                    let t = chars_of(g.title());
                    let mut sp: Vec<Span> = Vec::new();
                    push_span(&mut sp, styled_span(&t, StyleTag::Dim));
                    let l = Line { spans: sp, style: Vec::new() };
                    assert(l@.style =~= Seq::<StyleTag>::empty());
                    assert(l@.spans =~= table_row_line(s, row, j as int).spans);
                    assert(l@ == table_row_line(s, row, j as int));
                    push_lines(&mut out, l);
                },
                TableRow::More(hidden) => {
                    let mut t: Vec<char> = vec![' ', ' ', '…', ' '];
                    let hn = decimal_exec(hidden as u64);
                    extend_all(&mut t, &hn);
                    let tail: Vec<char> = vec![
                        ' ', 'm', 'o', 'r', 'e', ' ', '(', 'c', 'l', 'i', 'c', 'k', ' ', 't', 'o', ' ', 'e', 'x', 'p',
                        'a', 'n', 'd', ')',
                    ];
                    extend_all(&mut t, &tail);
                    proof {
                        reveal_strlit("  … ");
                        reveal_strlit(" more (click to expand)");
                        assert(t@ =~= "  … "@ + decimal(hidden as nat) + " more (click to expand)"@);
                    }
                    let mut sp: Vec<Span> = Vec::new();
                    push_span(&mut sp, styled_span(&t, StyleTag::Dim));
                    let l = Line { spans: sp, style: Vec::new() };
                    assert(l@.style =~= Seq::<StyleTag>::empty());
                    assert(l@.spans =~= table_row_line(s, row, j as int).spans);
                    assert(l@ == table_row_line(s, row, j as int));
                    push_lines(&mut out, l);
                },
                TableRow::Agent(i) => {
                    assert(rows@[first + j] is Agent);
                    let rl = self.row_line(i, sel);
                    let mut st: Vec<StyleTag> = Vec::new();
                    if sel {
                        st.push(StyleTag::SelectedRow);
                    }
                    let l = Line { spans: rl.spans, style: st };
                    assert(l@.spans =~= table_row_line(s, row, j as int).spans);
                    assert(l@.style =~= table_row_line(s, row, j as int).style);
                    assert(l@ == table_row_line(s, row, j as int));
                    push_lines(&mut out, l);
                },
            }
            assert(lines_view(out@) =~= seq![table_header(s.agents)] + Seq::new(
                (j + 1) as nat,
                |k: int| table_row_line(s, rows@[first + k], k),
            ));
            j += 1;
        }
        assert(lines_view(out@) =~= table_lines_spec(s));
        out
    }

    /// The peek panel while it is open on a listed agent: its title
    /// (`peek · NAME`), the agent's status lines (see [`peek_lines_spec`])
    /// and the reply input line.
    pub fn peek(&self) -> (r: Option<(String, Vec<Line>, Line)>)
        ensures
            match self@.overlay {
                Some(Overlay::Peek(i)) if i < self@.agents.len() => r is Some && ({
                    let (t, ls, rl) = r->0;
                    let a = self@.agents[i as int];
                    &&& t@ == "peek · "@ + a.name@
                    &&& lines_view(ls@) == peek_lines_spec(a)
                    &&& rl@ == reply_line_spec(self@.reply)
                }),
                _ => r is None,
            },
    {
        let i = match self.overlay {
            Some(Overlay::Peek(i)) => i,
            _ => {
                return None;
            },
        };
        if i >= self.agents.len() {
            return None;
        }
        let a = &self.agents[i];
        let mut title: Vec<char> = vec!['p', 'e', 'e', 'k', ' ', '·', ' '];
        let nv = chars_of(a.name.as_str());
        extend_all(&mut title, &nv);
        proof {
            reveal_strlit("peek · ");
            assert(title@ =~= "peek · "@ + a.name@);
        }
        let mut lines: Vec<Line> = Vec::new();
        let ghost mut secs: u64 = 0;
        if !a.activity.as_str().is_empty() {
            let t = chars_of(a.activity.as_str());
            push_lines(&mut lines, text_line_exec(&t, StyleTag::Text));
        }
        match &a.result {
            Some(r) => {
                let mut t: Vec<char> = vec!['r', 'e', 's', 'u', 'l', 't', ':', ' '];
                let rv = chars_of(r.as_str());
                extend_all(&mut t, &rv);
                proof {
                    reveal_strlit("result: ");
                    assert(t@ =~= "result: "@ + r@);
                }
                push_lines(&mut lines, text_line_exec(&t, StyleTag::Dim));
            },
            None => {},
        }
        match a.waiting {
            Some(w) => {
                let age = fmt_age(w);
                proof {
                    secs = duration_secs(w);
                }
                let mut t: Vec<char> = vec!['w', 'a', 'i', 't', 'i', 'n', 'g', ' '];
                let av = chars_of(age.as_str());
                extend_all(&mut t, &av);
                proof {
                    reveal_strlit("waiting ");
                    assert(t@ =~= "waiting "@ + age_text(secs));
                }
                push_lines(&mut lines, text_line_exec(&t, StyleTag::Text));
            },
            None => {},
        }
        match a.pr {
            Some(n) => {
                let mut t: Vec<char> = vec!['P', 'R', ' ', '#'];
                let d = decimal_exec(n as u64);
                extend_all(&mut t, &d);
                proof {
                    reveal_strlit("PR #");
                    assert(t@ =~= "PR #"@ + decimal(n as nat));
                }
                push_lines(&mut lines, text_line_exec(&t, StyleTag::Text));
            },
            None => {},
        }
        assert(lines_view(lines@) =~= peek_lines_spec(self@.agents[i as int]));
        let mut spans: Vec<Span> = Vec::new();
        let p: Vec<char> = vec!['r', 'e', 'p', 'l', 'y', ' ', '›', ' '];
        push_span(&mut spans, styled_span(&p, StyleTag::ToolRunning));
        push_span(&mut spans, styled_span(&self.reply, StyleTag::Text));
        let c: Vec<char> = vec!['▋'];
        push_span(&mut spans, styled_span(&c, StyleTag::ToolRunning));
        proof {
            reveal_strlit("reply › ");
            reveal_strlit("▋");
            assert(p@ =~= "reply › "@);
            assert(c@ =~= "▋"@);
        }
        let rl = Line { spans, style: Vec::new() };
        assert(rl@.style =~= Seq::<StyleTag>::empty());
        assert(rl@.spans =~= reply_line_spec(self@.reply).spans);
        Some((string_of(&title), lines, rl))
    }

    /// The transcript panel while it is open, in an area `area_height`
    /// rows tall: the scroll position is kept within the transcript, and
    /// the title (`transcript · NAME`) and the range of transcript lines
    /// shown are returned.
    pub fn transcript_view(&mut self, area_height: u16) -> (r: Option<(String, usize, usize)>)
        requires
            old(self)@.overlay matches Some(Overlay::Transcript(i)) ==> i < old(self)@.agents.len(),
        ensures
            match old(self)@.overlay {
                Some(Overlay::Transcript(i)) => r is Some && ({
                    let a = old(self)@.agents[i as int];
                    let n = a.transcript_lines@.len() as int;
                    let rows = panel_rows(n, area_height);
                    let sc = clamped_transcript_scroll(old(self)@.transcript_scroll, n, rows);
                    let (t, first, end) = r->0;
                    &&& t@ == "transcript · "@ + a.name@
                    &&& final(self)@ == (ViewState { transcript_scroll: sc, ..old(self)@ })
                    &&& first == if (sc as int) < n {
                        sc as int
                    } else {
                        n
                    }
                    &&& end == if first + rows < n {
                        first + rows
                    } else {
                        n
                    }
                }),
                _ => r is None && final(self)@ == old(self)@,
            },
    {
        let i = match self.overlay {
            Some(Overlay::Transcript(i)) => i,
            _ => {
                return None;
            },
        };
        let n = self.agents[i].transcript_lines.len();
        let mut title: Vec<char> = vec!['t', 'r', 'a', 'n', 's', 'c', 'r', 'i', 'p', 't', ' ', '·', ' '];
        let nv = chars_of(self.agents[i].name.as_str());
        extend_all(&mut title, &nv);
        proof {
            reveal_strlit("transcript · ");
            assert(title@ =~= "transcript · "@ + self@.agents[i as int].name@);
        }
        let shown: usize = if n < TRANSCRIPT_CAP {
            n
        } else {
            TRANSCRIPT_CAP
        };
        let height: u16 = if (shown as u16) + 2 < area_height {
            (shown as u16) + 2
        } else {
            area_height
        };
        let rows: u16 = height.saturating_sub(2);
        if n > rows as usize {
            let max = (n - rows as usize) as u16;
            if self.transcript_scroll > max {
                self.transcript_scroll = max;
            }
        } else {
            self.transcript_scroll = 0;
        }
        let sc = self.transcript_scroll as usize;
        let first = if sc < n {
            sc
        } else {
            n
        };
        let end = if first + (rows as usize) < n {
            first + rows as usize
        } else {
            n
        };
        Some((string_of(&title), first, end))
    }

    /// Status line: `N sessions · W working · D done`.
    pub fn status(&self) -> (s: String)
        ensures
            s@ == status_text(self@.agents),
    {
        let mut v = decimal_exec(self.agents.len() as u64);
        let mut t1: Vec<char> = vec![' ', 's', 'e', 's', 's', 'i', 'o', 'n', 's', ' ', '·', ' '];
        v.append(&mut t1);
        let mut w = decimal_exec(self.count_status(AgentStatus::Working) as u64);
        v.append(&mut w);
        let mut t2: Vec<char> = vec![' ', 'w', 'o', 'r', 'k', 'i', 'n', 'g', ' ', '·', ' '];
        v.append(&mut t2);
        let mut d = decimal_exec(self.count_status(AgentStatus::Completed) as u64);
        v.append(&mut d);
        let mut t3: Vec<char> = vec![' ', 'd', 'o', 'n', 'e'];
        v.append(&mut t3);
        proof {
            reveal_strlit(" sessions · ");
            reveal_strlit(" working · ");
            reveal_strlit(" done");
        }
        assert(v@ =~= status_text(self@.agents));
        string_of(&v)
    }
}

} // verus!
