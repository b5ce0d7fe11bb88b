//! Agent chat session: user messages and assistant turns whose foldable hints
//! (thinking, tool calls, subagents, todos, edits) evolve in place.
use vstd::prelude::*;
use crate::tui::activities::{
    auto_expand, auto_expands, identity_of, spinner, todo_lines, todo_lines_spec, Activity, ActivityId,
    ActivityKind, ActivityRowRange, IdV, SubAgentStatus, ThinkingState, TodoItem, TodoList, TodoStatus,
    ToolStatus, SPINNERS, act_fits, act_rows, activity_lines, gives_seconds, no_reply, seconds_spec,
};
use crate::tui::input::{InputEvent, Key, MouseKind};
use crate::text::{chars_of, extend_all, string_of};
use crate::tui::agent::{decimal, decimal_exec};
use crate::tui::app::{badges_view, BadgeV, FooterBadge};
use crate::tui::input::Rect;
use crate::tui::renderer::{
    line_of, lines_view, push_span, spans_view, styled, styled_span, Line, LineV, Span, SpanV, StyleTag,
};
use crate::tui::text_reader::add_signed;
use crate::tui::turn::{
    diff_hint, diff_is, explore_hint, explore_is, plain_lines, plain_lines_of, shown_count,
    stream_index, stream_step, thinking_hint, thinking_is, tool_hint, tool_is, TurnPhase,
    ANSWER, COMPOSE_MS, EDIT_MS, EXPLORE_MS, REASONING_COMPOSE, REASONING_UNDERSTAND, TEST_MS,
    TEST_OUTPUT, THINK_MS,
};
use crate::bytes::{byte_offset, utf8_len};

verus! {

/// Message role in the chat transcript.
#[derive(Debug, Clone, Copy, PartialEq, Eq, Structural)]
pub enum Role {
    /// A user message.
    User,
    /// An assistant message.
    Assistant,
}

// ---------------------------------------------------------------------------
// hints that evolve in place
// ---------------------------------------------------------------------------

/// Index of the first hint from `i` on with identity `id`, or -1.
pub open spec fn first_with_id<L>(hints: Seq<Activity<L>>, id: IdV, i: int) -> int
    decreases hints.len() - i,
{
    if i < 0 || i >= hints.len() {
        -1
    } else if identity_of(hints[i].kind) == id {
        i
    } else {
        first_with_id(hints, id, i + 1)
    }
}

/// Index of the last hint before `n` with identity `id`, or -1.
pub open spec fn last_with_id<L>(hints: Seq<Activity<L>>, id: IdV, n: int) -> int
    decreases n,
{
    if n <= 0 || n > hints.len() {
        -1
    } else if identity_of(hints[n - 1].kind) == id {
        n - 1
    } else {
        last_with_id(hints, id, n - 1)
    }
}

/// Whether the hint pushed now is shown expanded: always while it is
/// active, else as the user left the latest hint with its identity.
pub open spec fn pushed_expanded<L>(hints: Seq<Activity<L>>, hint: Activity<L>) -> bool {
    let last = last_with_id(hints, identity_of(hint.kind), hints.len() as int);
    if auto_expands(hint.kind) {
        true
    } else if last >= 0 {
        hints[last].expanded
    } else {
        false
    }
}

/// The hints after pushing `hint`: it replaces the first hint with its
/// identity, in place, or is appended when there is none.
pub open spec fn hint_pushed<L>(hints: Seq<Activity<L>>, hint: Activity<L>) -> Seq<Activity<L>> {
    let h = Activity { expanded: pushed_expanded(hints, hint), ..hint };
    let first = first_with_id(hints, identity_of(hint.kind), 0);
    if first >= 0 {
        hints.update(first, h)
    } else {
        hints.push(h)
    }
}

/// No two hints share an identity.
pub open spec fn ids_unique<L>(hints: Seq<Activity<L>>) -> bool {
    forall|i: int, j: int|
        0 <= i < j < hints.len() ==> identity_of((#[trigger] hints[i]).kind) != identity_of(
            (#[trigger] hints[j]).kind,
        )
}

proof fn lemma_first_with_id<L>(hints: Seq<Activity<L>>, id: IdV, i: int)
    requires
        0 <= i,
    ensures
        ({
            let f = first_with_id(hints, id, i);
            &&& f == -1 || (i <= f < hints.len() && identity_of(hints[f].kind) == id)
            &&& forall|k: int| i <= k < hints.len() && (f == -1 || k < f) ==> identity_of(
                (#[trigger] hints[k]).kind,
            ) != id
        }),
    decreases hints.len() - i,
{
    if i < hints.len() && identity_of(hints[i].kind) != id {
        lemma_first_with_id(hints, id, i + 1);
    }
}

proof fn lemma_last_with_id<L>(hints: Seq<Activity<L>>, id: IdV, n: int)
    requires
        0 <= n <= hints.len(),
    ensures
        ({
            let l = last_with_id(hints, id, n);
            &&& l == -1 || (0 <= l < n && identity_of(hints[l].kind) == id)
            &&& forall|k: int| 0 <= k < n && l < k ==> identity_of((#[trigger] hints[k]).kind) != id
        }),
    decreases n,
{
    if n > 0 && identity_of(hints[n - 1].kind) != id {
        lemma_last_with_id(hints, id, n - 1);
    }
}

/// Index of the first hint with identity `id`.
fn first_index_with<L>(hints: &Vec<Activity<L>>, id: &ActivityId) -> (r: Option<usize>)
    ensures
        match r {
            Some(j) => j as int == first_with_id(hints@, id@, 0),
            None => first_with_id(hints@, id@, 0) == -1,
        },
{
    let mut i: usize = 0;
    while i < hints.len()
        invariant
            i <= hints@.len(),
            first_with_id(hints@, id@, 0) == first_with_id(hints@, id@, i as int),
        decreases hints@.len() - i,
    {
        if hints[i].kind.identity().same(id) {
            return Some(i);
        }
        i += 1;
    }
    None
}

/// Index of the last hint with identity `id`.
fn last_index_with<L>(hints: &Vec<Activity<L>>, id: &ActivityId) -> (r: Option<usize>)
    ensures
        match r {
            Some(j) => j as int == last_with_id(hints@, id@, hints@.len() as int),
            None => last_with_id(hints@, id@, hints@.len() as int) == -1,
        },
{
    let mut n: usize = hints.len();
    while n > 0
        invariant
            n <= hints@.len(),
            last_with_id(hints@, id@, hints@.len() as int) == last_with_id(hints@, id@, n as int),
        decreases n,
    {
        if hints[n - 1].kind.identity().same(id) {
            return Some(n - 1);
        }
        n -= 1;
    }
    None
}

/// Push a hint, replacing the hint with the same identity (tool name,
/// thinking stage, ...) in place, so that running -> done updates do not
/// append duplicates. An active hint (running todo or subagent) is shown
/// expanded; otherwise the user's expand/collapse choice is kept.
pub fn push_hint_into<L>(hints: &mut Vec<Activity<L>>, hint: Activity<L>)
    ensures
        final(hints)@ == hint_pushed(old(hints)@, hint),
{
    let id = hint.kind.identity();
    let mut hint = hint;
    let e = if auto_expand(&hint) {
        true
    } else {
        match last_index_with(hints, &id) {
            Some(j) => {
                proof {
                    lemma_last_with_id(hints@, id@, hints@.len() as int);
                }
                hints[j].expanded
            },
            None => false,
        }
    };
    hint.expanded = e;
    match first_index_with(hints, &id) {
        Some(j) => {
            proof {
                lemma_first_with_id(hints@, id@, 0);
            }
            hints.set(j, hint);
        },
        None => {
            hints.push(hint);
        },
    }
}

/// Pushing a hint updates the hint with its identity in place: the hints
/// keep distinct identities, every hint of another identity stays where it
/// was, the pushed hint's content is listed once, and the list grows only
/// when no hint had that identity.
pub proof fn lemma_push_hint_in_place<L>(hints: Seq<Activity<L>>, hint: Activity<L>)
    requires
        ids_unique(hints),
    ensures
        ({
            let r = hint_pushed(hints, hint);
            let id = identity_of(hint.kind);
            &&& ids_unique(r)
            &&& forall|k: int|
                0 <= k < hints.len() && identity_of((#[trigger] hints[k]).kind) != id ==> r[k]
                    == hints[k]
            &&& exists|p: int|
                0 <= p < r.len() && (#[trigger] r[p]).kind == hint.kind && r[p].content
                    == hint.content
            &&& (exists|k: int| 0 <= k < hints.len() && identity_of((#[trigger] hints[k]).kind) == id)
                ==> r.len() == hints.len()
            &&& (forall|k: int| 0 <= k < hints.len() ==> identity_of((#[trigger] hints[k]).kind) != id)
                ==> r.len() == hints.len() + 1
        }),
{
    let id = identity_of(hint.kind);
    lemma_first_with_id(hints, id, 0);
    let first = first_with_id(hints, id, 0);
    let r = hint_pushed(hints, hint);
    if first >= 0 {
        assert(r[first].kind == hint.kind && r[first].content == hint.content);
    } else {
        assert(r[hints.len() as int].kind == hint.kind);
    }
}

// ---------------------------------------------------------------------------
// the chat session
// ---------------------------------------------------------------------------

/// One message: role, text, and (assistant-only) activities.
pub struct ChatMessage {
    /// User or assistant.
    pub role: Role,
    /// User text or assistant markdown source.
    pub text: String,
    /// Assistant-only: the foldable hint events preceding the reply.
    pub hints: Vec<Activity<Line>>,
    /// Assistant-only: how far the reply has streamed.
    pub stream_pos: usize,
}

/// The view of a [`ChatMessage`].
pub struct MessageV {
    pub role: Role,
    pub text: Seq<char>,
    pub hints: Seq<Activity<Line>>,
    pub stream_pos: usize,
}

impl View for ChatMessage {
    type V = MessageV;

    open spec fn view(&self) -> MessageV {
        MessageV { role: self.role, text: self.text@, hints: self.hints@, stream_pos: self.stream_pos }
    }
}

/// A user message with text `t`.
pub open spec fn user_message(t: Seq<char>) -> MessageV {
    MessageV { role: Role::User, text: t, hints: Seq::empty(), stream_pos: 0 }
}

/// An assistant message that has not started.
pub open spec fn assistant_message() -> MessageV {
    MessageV { role: Role::Assistant, text: Seq::empty(), hints: Seq::empty(), stream_pos: 0 }
}

impl ChatMessage {
    fn user(text: String) -> (m: Self)
        ensures
            m@ == user_message(text@),
    {
        let m = ChatMessage { role: Role::User, text, hints: Vec::new(), stream_pos: 0 };
        assert(m@.hints =~= Seq::<Activity<Line>>::empty());
        m
    }

    fn assistant() -> (m: Self)
        ensures
            m@ == assistant_message(),
    {
        let m = ChatMessage { role: Role::Assistant, text: String::new(), hints: Vec::new(), stream_pos: 0 };
        assert(m@.hints =~= Seq::<Activity<Line>>::empty());
        m
    }
}

/// The state of a chat session.
pub ghost struct ChatView {
    /// The transcript.
    pub messages: Seq<MessageV>,
    /// Host ticks seen (drives the spinners).
    pub tick: u64,
    /// First visible row.
    pub scroll: u16,
    /// The line being typed.
    pub input: Seq<char>,
    /// Whether keys go to the input line.
    pub typing: bool,
    /// Wrap width of the replies.
    pub width: usize,
    /// Row ranges of the foldable hints from the last draw.
    pub ranges: Seq<ActivityRowRange>,
    /// Height of the chat viewport at the last draw.
    pub view_height: u16,
    /// Where the agent turn stands, while one is in progress.
    pub phase: Option<TurnPhase>,
}

/// The session after the user sends `t`: the message, a new assistant
/// turn, and the view following it.
pub open spec fn submitted(s: ChatView, t: Seq<char>) -> ChatView {
    ChatView {
        messages: s.messages.push(user_message(t)).push(assistant_message()),
        phase: Some(TurnPhase::Todo),
        scroll: u16::MAX,
        ..s
    }
}

/// The session after pushing `hint` to the current assistant turn (the
/// last message, when it is the assistant's).
pub open spec fn with_hint(s: ChatView, hint: Activity<Line>) -> ChatView {
    if s.messages.len() > 0 && s.messages.last().role == Role::Assistant {
        let last = s.messages.last();
        ChatView {
            messages: s.messages.update(
                s.messages.len() - 1,
                MessageV { hints: hint_pushed(last.hints, hint), ..last },
            ),
            ..s
        }
    } else {
        s
    }
}

/// Index of the first range from `i` on whose rows hold `row`, or -1.
pub open spec fn range_at(ranges: Seq<ActivityRowRange>, row: int, i: int) -> int
    decreases ranges.len() - i,
{
    if i < 0 || i >= ranges.len() {
        -1
    } else if ranges[i].start <= row < ranges[i].end {
        i
    } else {
        range_at(ranges, row, i + 1)
    }
}

/// `new` is `old` with the activity addressed by `path[i..]` toggled: the
/// first index picks a hint, each further index an activity of the
/// transcript of the subagent picked before. A path that does not address
/// an activity changes nothing.
pub open spec fn path_toggled(
    old: Seq<Activity<Line>>,
    new: Seq<Activity<Line>>,
    path: Seq<usize>,
    i: int,
) -> bool
    decreases path.len() - i,
{
    if i < 0 || i >= path.len() || path[i] >= old.len() {
        new == old
    } else {
        let h = path[i] as int;
        let a = old[h];
        if i + 1 == path.len() {
            new == old.update(h, Activity { expanded: !a.expanded, ..a })
        } else {
            match a.kind {
                ActivityKind::SubAgent(sa) => {
                    &&& new.len() == old.len()
                    &&& forall|k: int| 0 <= k < old.len() && k != h ==> #[trigger] new[k] == old[k]
                    &&& new[h].expanded == a.expanded
                    &&& new[h].content == a.content
                    &&& match new[h].kind {
                        ActivityKind::SubAgent(sb) => {
                            &&& sb.name == sa.name
                            &&& sb.status == sa.status
                            &&& sb.task == sa.task
                            &&& sb.duration_ms == sa.duration_ms
                            &&& sb.result == sa.result
                            &&& sb.reply == sa.reply
                            &&& path_toggled(sa.transcript@, sb.transcript@, path, i + 1)
                        },
                        _ => false,
                    }
                },
                _ => new == old,
            }
        }
    }
}

/// `new` is `s` after a click on document row `row`: the activity of the
/// first hint range holding the row is toggled.
pub open spec fn clicked(s: ChatView, new: ChatView, row: int) -> bool {
    let r = range_at(s.ranges, row, 0);
    if r < 0 || s.ranges[r].message >= s.messages.len() {
        new == s
    } else {
        let m = s.ranges[r].message as int;
        &&& new == ChatView { messages: new.messages, ..s }
        &&& new.messages.len() == s.messages.len()
        &&& forall|k: int| 0 <= k < s.messages.len() && k != m ==> #[trigger] new.messages[k] == s.messages[k]
        &&& new.messages[m] == MessageV { hints: new.messages[m].hints, ..s.messages[m] }
        &&& path_toggled(s.messages[m].hints, new.messages[m].hints, s.ranges[r].path@, 0)
    }
}

/// The session after scrolling by `d` rows.
pub open spec fn chat_scrolled(s: ChatView, d: int) -> ChatView {
    ChatView { scroll: add_signed(s.scroll, d), ..s }
}

/// The reaction to a key: while typing, characters, `Backspace`, `Enter`
/// (send) and `Esc` (stop typing) edit the input line; otherwise `Esc`
/// starts typing and `j`/`k`, arrows, pages, `g`/`Home` and `G`/`End`
/// scroll.
pub open spec fn chat_key(s: ChatView, k: Key) -> (ChatView, bool) {
    if s.typing && (k is Char || k is Backspace || k is Enter || k is Esc) {
        match k {
            Key::Char(c) => (ChatView { input: s.input.push(c), ..s }, true),
            Key::Backspace => (
                ChatView {
                    input: if s.input.len() > 0 {
                        s.input.drop_last()
                    } else {
                        s.input
                    },
                    ..s
                },
                true,
            ),
            Key::Enter => {
                let cleared = ChatView { input: Seq::empty(), ..s };
                if s.input.len() > 0 {
                    (submitted(cleared, s.input), true)
                } else {
                    (cleared, true)
                }
            },
            _ => (ChatView { typing: false, ..s }, true),
        }
    } else {
        match k {
            Key::Esc => (ChatView { typing: true, ..s }, true),
            Key::Char('j') | Key::Down => (chat_scrolled(s, 1), true),
            Key::Char('k') | Key::Up => (chat_scrolled(s, -1), true),
            Key::PageDown => (chat_scrolled(s, 10), true),
            Key::PageUp => (chat_scrolled(s, -10), true),
            Key::Home | Key::Char('g') => (ChatView { scroll: 0, ..s }, true),
            Key::End | Key::Char('G') => (ChatView { scroll: u16::MAX, ..s }, true),
            _ => (s, false),
        }
    }
}

/// Whether `ev` is a left click inside the chat viewport.
pub open spec fn is_view_click(s: ChatView, ev: InputEvent) -> bool {
    ev matches InputEvent::Mouse(m) && m.kind == MouseKind::LeftDown && m.row < s.view_height
}

/// The reaction to an event other than a click inside the viewport.
pub open spec fn chat_event(s: ChatView, ev: InputEvent) -> (ChatView, bool) {
    match ev {
        InputEvent::Key(k) => chat_key(s, k),
        InputEvent::Mouse(m) => match m.kind {
            MouseKind::ScrollUp => (chat_scrolled(s, -3), true),
            MouseKind::ScrollDown => (chat_scrolled(s, 3), true),
            MouseKind::LeftDown => (s, true),
            _ => (s, false),
        },
        InputEvent::Other => (s, false),
    }
}

/// The turn's todo items, in order.
pub const TODO_ITEMS: [&'static str; 5] = [
    "Understand the request",
    "Explore the codebase",
    "Run the tests",
    "Edit the file",
    "Verify the result",
];

/// The status of todo item `i` when item `p` is in progress.
pub open spec fn todo_status_at(i: int, p: int) -> TodoStatus {
    if i < p {
        TodoStatus::Done
    } else if i == p {
        TodoStatus::InProgress
    } else {
        TodoStatus::Pending
    }
}

/// `a + b` (with `b >= 0`) kept within `u16`.
pub open spec fn sat16(a: u16, b: int) -> u16 {
    if a + b > u16::MAX {
        u16::MAX
    } else {
        (a + b) as u16
    }
}

/// `h` plus the rows of `hints`: a header row each, and the content rows
/// of the expanded ones (each count taken as a `u16`), saturating.
pub open spec fn hints_height(h: u16, hints: Seq<Activity<Line>>) -> u16
    decreases hints.len(),
{
    if hints.len() == 0 {
        h
    } else {
        let g = sat16(hints_height(h, hints.drop_last()), 1);
        let last = hints.last();
        if last.expanded {
            sat16(g, (last.content@.len() as u16) as int)
        } else {
            g
        }
    }
}

/// The rows of the messages `ms`: one per user message; the hint rows and
/// the rendered reply rows `md[i]` (none past the end of `md`) per
/// assistant message; saturating.
pub open spec fn messages_height(ms: Seq<MessageV>, md: Seq<u16>) -> u16
    decreases ms.len(),
{
    if ms.len() == 0 {
        0
    } else {
        let i = ms.len() - 1;
        let h = messages_height(ms.drop_last(), md);
        match ms[i].role {
            Role::User => sat16(h, 1),
            Role::Assistant => sat16(
                hints_height(h, ms[i].hints),
                if i < md.len() {
                    md[i] as int
                } else {
                    0
                },
            ),
        }
    }
}

/// Assistant messages with reply text.
pub open spec fn reply_count(ms: Seq<MessageV>) -> nat
    decreases ms.len(),
{
    if ms.len() == 0 {
        0
    } else {
        reply_count(ms.drop_last()) + if ms.last().role == Role::Assistant && ms.last().text.len() > 0 {
            1nat
        } else {
            0nat
        }
    }
}

/// Hints of all messages.
pub open spec fn hint_total(ms: Seq<MessageV>) -> nat
    decreases ms.len(),
{
    if ms.len() == 0 {
        0
    } else {
        hint_total(ms.drop_last()) + ms.last().hints.len()
    }
}

/// Subagent hints in `hints` with status `st`.
pub open spec fn subagents_in(hints: Seq<Activity<Line>>, st: SubAgentStatus) -> nat
    decreases hints.len(),
{
    if hints.len() == 0 {
        0
    } else {
        subagents_in(hints.drop_last(), st) + match hints.last().kind {
            ActivityKind::SubAgent(a) => if a.status == st {
                1nat
            } else {
                0nat
            },
            _ => 0nat,
        }
    }
}

/// Subagent hints of all messages with status `st`.
pub open spec fn subagent_count(ms: Seq<MessageV>, st: SubAgentStatus) -> nat
    decreases ms.len(),
{
    if ms.len() == 0 {
        0
    } else {
        subagent_count(ms.drop_last(), st) + subagents_in(ms.last().hints, st)
    }
}

proof fn lemma_subagents_in_bound(hints: Seq<Activity<Line>>, st: SubAgentStatus)
    ensures
        subagents_in(hints, st) <= hints.len(),
    decreases hints.len(),
{
    if hints.len() > 0 {
        lemma_subagents_in_bound(hints.drop_last(), st);
    }
}

proof fn lemma_subagent_count_bound(ms: Seq<MessageV>, st: SubAgentStatus)
    ensures
        subagent_count(ms, st) <= hint_total(ms),
    decreases ms.len(),
{
    if ms.len() > 0 {
        lemma_subagent_count_bound(ms.drop_last(), st);
        lemma_subagents_in_bound(ms.last().hints, st);
    }
}

proof fn lemma_subagents_in_prefix(hints: Seq<Activity<Line>>, i: int, st: SubAgentStatus)
    requires
        0 <= i <= hints.len(),
    ensures
        subagents_in(hints.take(i), st) <= subagents_in(hints, st),
    decreases hints.len(),
{
    if i < hints.len() {
        lemma_subagents_in_prefix(hints.drop_last(), i, st);
        assert(hints.drop_last().take(i) =~= hints.take(i));
    } else {
        assert(hints.take(i) =~= hints);
    }
}

proof fn lemma_hint_total_prefix(ms: Seq<MessageV>, i: int)
    requires
        0 <= i <= ms.len(),
    ensures
        hint_total(ms.take(i)) <= hint_total(ms),
    decreases ms.len(),
{
    if i < ms.len() {
        lemma_hint_total_prefix(ms.drop_last(), i);
        assert(ms.drop_last().take(i) =~= ms.take(i));
    } else {
        assert(ms.take(i) =~= ms);
    }
}

proof fn lemma_reply_count_bound(ms: Seq<MessageV>)
    ensures
        reply_count(ms) <= ms.len(),
    decreases ms.len(),
{
    if ms.len() > 0 {
        lemma_reply_count_bound(ms.drop_last());
    }
}

/// The status line: message, reply and hint counts, whether a turn is in
/// progress, and the chat height in rows.
pub open spec fn chat_status(s: ChatView, md: Seq<u16>) -> Seq<char> {
    decimal(s.messages.len()) + " messages · "@ + decimal(reply_count(s.messages)) + " replies · "@
        + decimal(hint_total(s.messages)) + " hints"@ + (if s.phase is Some {
        " · working…"@
    } else {
        Seq::empty()
    }) + " · "@ + decimal(messages_height(s.messages, md) as nat) + " rows"@
}

/// The footer badge: running subagents (`← for agents`, `← N agents`),
/// else finished ones (`← 1 done`, `← N done`), else none.
pub open spec fn chat_badges(s: ChatView) -> Seq<BadgeV> {
    let running = subagent_count(s.messages, SubAgentStatus::Running);
    let done = subagent_count(s.messages, SubAgentStatus::Done);
    if running > 0 {
        seq![
            BadgeV {
                text: if running == 1 {
                    "← for agents"@
                } else {
                    "← "@ + decimal(running) + " agents"@
                },
                style: StyleTag::ToolRunning,
            },
        ]
    } else if done > 0 {
        seq![
            BadgeV {
                text: if done == 1 {
                    "← 1 done"@
                } else {
                    "← "@ + decimal(done) + " done"@
                },
                style: StyleTag::ToolDone,
            },
        ]
    } else {
        Seq::empty()
    }
}

/// Index of the last assistant message before `n`, or -1.
pub open spec fn last_assistant(ms: Seq<MessageV>, n: int) -> int
    decreases n,
{
    if n <= 0 || n > ms.len() {
        -1
    } else if ms[n - 1].role == Role::Assistant {
        n - 1
    } else {
        last_assistant(ms, n - 1)
    }
}

/// Index of the first tool hint from `i` on, or -1.
pub open spec fn first_tool(hints: Seq<Activity<Line>>, i: int) -> int
    decreases hints.len() - i,
{
    if i < 0 || i >= hints.len() {
        -1
    } else if hints[i].kind is Tool {
        i
    } else {
        first_tool(hints, i + 1)
    }
}

proof fn lemma_last_assistant(ms: Seq<MessageV>, n: int)
    requires
        0 <= n <= ms.len(),
    ensures
        last_assistant(ms, n) == -1 || 0 <= last_assistant(ms, n) < n,
    decreases n,
{
    if n > 0 && ms[n - 1].role != Role::Assistant {
        lemma_last_assistant(ms, n - 1);
    }
}

proof fn lemma_first_tool(hints: Seq<Activity<Line>>, i: int)
    requires
        0 <= i,
    ensures
        first_tool(hints, i) == -1 || i <= first_tool(hints, i) < hints.len(),
    decreases hints.len() - i,
{
    if i < hints.len() && !(hints[i].kind is Tool) {
        lemma_first_tool(hints, i + 1);
    }
}

/// The input line: `you › `, the typed text and a caret while typing.
pub open spec fn input_line_spec(s: ChatView) -> LineV {
    line_of(
        seq![
            styled("you › "@, StyleTag::ToolRunning),
            styled(s.input, StyleTag::Text),
            styled(seq![if s.typing { '▋' } else { ' ' }], StyleTag::ToolRunning),
        ],
    )
}

/// The turn's todo hint with spinner frame `tick`: items before
/// `in_progress` done, that one in progress, the rest pending.
pub open spec fn todo_hint_is(a: Activity<Line>, tick: u64, in_progress: int) -> bool {
    &&& !a.expanded
    &&& match a.kind {
        ActivityKind::Todo(t) => {
            &&& t.title@ == "Implement the fix"@
            &&& t.items@.len() == TODO_ITEMS@.len()
            &&& forall|i: int|
                0 <= i < TODO_ITEMS@.len() ==> (#[trigger] t.items@[i]).text@ == TODO_ITEMS@[i]@
                    && t.items@[i].status == todo_status_at(i, in_progress)
            &&& lines_view(a.content@) == todo_lines_spec(
                t.items@,
                SPINNERS@[((tick as usize) % 10) as int],
            )
        },
        _ => false,
    }
}

/// The session with the turn at `p`.
pub open spec fn with_phase(s: ChatView, p: Option<TurnPhase>) -> ChatView {
    ChatView { phase: p, ..s }
}

/// The current turn's last hint is the running edit.
pub open spec fn ends_with_edit(s: ChatView) -> bool {
    &&& s.messages.len() > 0
    &&& s.messages.last().role == Role::Assistant
    &&& s.messages.last().hints.len() > 0
    &&& match s.messages.last().hints.last().kind {
        ActivityKind::Tool(t) => t.name@ == "Edit"@,
        _ => false,
    }
}

/// The session without the running edit hint that ends the current turn.
pub open spec fn edit_popped(s: ChatView) -> ChatView {
    if ends_with_edit(s) {
        let last = s.messages.last();
        ChatView {
            messages: s.messages.update(
                s.messages.len() - 1,
                MessageV { hints: last.hints.drop_last(), ..last },
            ),
            ..s
        }
    } else {
        s
    }
}

/// The session with the current turn's reply streamed to `text`, ending at
/// byte `pos` of the full reply.
pub open spec fn with_reply(s: ChatView, text: Seq<char>, pos: usize) -> ChatView {
    if s.messages.len() > 0 && s.messages.last().role == Role::Assistant {
        let last = s.messages.last();
        ChatView {
            messages: s.messages.update(
                s.messages.len() - 1,
                MessageV { text, stream_pos: pos, ..last },
            ),
            ..s
        }
    } else {
        s
    }
}

/// The elapsed time of the turn's current phase fits `dt` more.
pub open spec fn step_fits(s: ChatView, dt: u64) -> bool {
    match s.phase {
        Some(TurnPhase::Thinking { elapsed_ms }) => elapsed_ms + dt <= u64::MAX,
        Some(TurnPhase::Explore { elapsed_ms }) => elapsed_ms + dt <= u64::MAX,
        Some(TurnPhase::Test { elapsed_ms }) => elapsed_ms + dt <= u64::MAX,
        Some(TurnPhase::Edit { elapsed_ms }) => elapsed_ms + dt <= u64::MAX,
        Some(TurnPhase::Compose { elapsed_ms }) => elapsed_ms + dt <= u64::MAX,
        _ => true,
    }
}

/// One reasoning step at `e` ms of a stage that runs `target` ms: the
/// running hint with the first `shown` lines, and once the time is up the
/// finished hint with all of them and the checklist at `todo`, the turn
/// moving to `next`.
pub open spec fn reasoning_step(
    s: ChatView,
    t: ChatView,
    e: u64,
    target: u64,
    stage: Seq<char>,
    lines: Seq<&'static str>,
    shown: usize,
    digest: Seq<char>,
    todo: int,
    here: TurnPhase,
    next: TurnPhase,
) -> bool {
    exists|h1: Activity<Line>|
        #![trigger with_hint(s, h1)]
        thinking_is(
            h1,
            ThinkingState::Running,
            e,
            None,
            stage,
            plain_lines(lines, shown_count(shown, lines.len() as int)),
        ) && if e < target {
            t == with_phase(with_hint(s, h1), Some(here))
        } else {
            exists|h2: Activity<Line>, h3: Activity<Line>|
                #![trigger with_hint(with_hint(with_hint(s, h1), h2), h3)]
                thinking_is(
                    h2,
                    ThinkingState::Done,
                    target,
                    Some(digest),
                    stage,
                    plain_lines(lines, lines.len() as int),
                ) && todo_hint_is(h3, s.tick, todo) && t == with_phase(
                    with_hint(with_hint(with_hint(s, h1), h2), h3),
                    Some(next),
                )
        }
}

/// One step of the scripted turn, `dt` ms on: the hints it shows, the reply
/// it streams and where the turn goes. `shown` is how many reasoning lines
/// show and `grep_ms` how long the subagent's search has taken; the host
/// works both out from the stage's progress.
pub open spec fn turn_step(s: ChatView, t: ChatView, dt: u64, shown: usize, grep_ms: u64) -> bool {
    match s.phase {
        None => t == s,
        Some(TurnPhase::Todo) => exists|h: Activity<Line>|
            #![trigger with_hint(s, h)]
            todo_hint_is(h, s.tick, 0) && t == with_phase(
                with_hint(s, h),
                Some(TurnPhase::Thinking { elapsed_ms: 0 }),
            ),
        Some(TurnPhase::Thinking { elapsed_ms }) => {
            let e = (elapsed_ms + dt) as u64;
            reasoning_step(
                s,
                t,
                e,
                THINK_MS,
                "understand"@,
                REASONING_UNDERSTAND@,
                shown,
                "understanding the request"@,
                1,
                TurnPhase::Thinking { elapsed_ms: e },
                TurnPhase::Explore { elapsed_ms: 0 },
            )
        },
        Some(TurnPhase::Explore { elapsed_ms }) => {
            let e = (elapsed_ms + dt) as u64;
            exists|h1: Activity<Line>|
                #![trigger with_hint(s, h1)]
                explore_is(h1, e, grep_ms, s.tick) && if e < EXPLORE_MS {
                    t == with_phase(with_hint(s, h1), Some(TurnPhase::Explore { elapsed_ms: e }))
                } else {
                    exists|h2: Activity<Line>|
                        #![trigger with_hint(with_hint(s, h1), h2)]
                        todo_hint_is(h2, s.tick, 2) && t == with_phase(
                            with_hint(with_hint(s, h1), h2),
                            Some(TurnPhase::Test { elapsed_ms: 0 }),
                        )
                }
        },
        Some(TurnPhase::Test { elapsed_ms }) => {
            let e = (elapsed_ms + dt) as u64;
            exists|h1: Activity<Line>|
                #![trigger with_hint(s, h1)]
                tool_is(
                    h1,
                    "bash"@,
                    ToolStatus::Running,
                    "cargo test -p rsmarkdown-core"@,
                    e,
                    None,
                    Seq::empty(),
                ) && if e < TEST_MS {
                    t == with_phase(with_hint(s, h1), Some(TurnPhase::Test { elapsed_ms: e }))
                } else {
                    exists|h2: Activity<Line>, h3: Activity<Line>|
                        #![trigger with_hint(with_hint(with_hint(s, h1), h2), h3)]
                        tool_is(
                            h2,
                            "bash"@,
                            ToolStatus::Done,
                            "cargo test -p rsmarkdown-core"@,
                            TEST_MS,
                            Some("54 passed · finished in 0.02s"@),
                            plain_lines(TEST_OUTPUT@, 4),
                        ) && todo_hint_is(h3, s.tick, 3) && t == with_phase(
                            with_hint(with_hint(with_hint(s, h1), h2), h3),
                            Some(TurnPhase::Edit { elapsed_ms: 0 }),
                        )
                }
        },
        Some(TurnPhase::Edit { elapsed_ms }) => {
            let e = (elapsed_ms + dt) as u64;
            exists|h1: Activity<Line>|
                #![trigger with_hint(s, h1)]
                tool_is(
                    h1,
                    "Edit"@,
                    ToolStatus::Running,
                    "crates/core/src/blocks.rs"@,
                    e,
                    None,
                    Seq::empty(),
                ) && if e < EDIT_MS {
                    t == with_phase(with_hint(s, h1), Some(TurnPhase::Edit { elapsed_ms: e }))
                } else {
                    exists|h2: Activity<Line>, h3: Activity<Line>|
                        #![trigger with_hint(with_hint(edit_popped(with_hint(s, h1)), h2), h3)]
                        diff_is(h2) && todo_hint_is(h3, s.tick, 4) && t == with_phase(
                            with_hint(with_hint(edit_popped(with_hint(s, h1)), h2), h3),
                            Some(TurnPhase::Compose { elapsed_ms: 0 }),
                        )
                }
        },
        Some(TurnPhase::Compose { elapsed_ms }) => {
            let e = (elapsed_ms + dt) as u64;
            reasoning_step(
                s,
                t,
                e,
                COMPOSE_MS,
                "compose"@,
                REASONING_COMPOSE@,
                shown,
                "composing the reply"@,
                5,
                TurnPhase::Compose { elapsed_ms: e },
                TurnPhase::Stream,
            )
        },
        Some(TurnPhase::Stream) => {
            if s.messages.len() > 0 && s.messages.last().role == Role::Assistant {
                let k = stream_index(ANSWER@, s.messages.last().stream_pos as int);
                let end = byte_offset(ANSWER@, k);
                t == with_phase(
                    with_reply(s, ANSWER@.take(k), end as usize),
                    if end >= utf8_len(ANSWER@) {
                        None
                    } else {
                        Some(TurnPhase::Stream)
                    },
                )
            } else {
                t == s
            }
        },
    }
}

/// The text of spans, one after the other.
pub open spec fn spans_text(sp: Seq<SpanV>) -> Seq<char>
    decreases sp.len(),
{
    if sp.len() == 0 {
        Seq::empty()
    } else {
        spans_text(sp.drop_last()) + sp.last().content
    }
}

/// The text of lines, each followed by a newline.
pub open spec fn lines_text(ls: Seq<LineV>) -> Seq<char>
    decreases ls.len(),
{
    if ls.len() == 0 {
        Seq::empty()
    } else {
        lines_text(ls.drop_last()) + spans_text(ls.last().spans) + seq!['\n']
    }
}

/// The text of hints: the lines of each (replies left out), with `sec` the
/// seconds text of a duration.
pub open spec fn hints_text(hs: Seq<Activity<Line>>, sec: spec_fn(u64) -> Seq<char>) -> Seq<char>
    decreases hs.len(),
{
    if hs.len() == 0 {
        Seq::empty()
    } else {
        hints_text(hs.drop_last(), sec) + lines_text(act_rows(hs.last(), '\u{283f}', sec, no_reply()))
    }
}

/// The conversation as plain text: `you: ` and the text of each user
/// message, the hints and then the text of each assistant message, each
/// closed by a newline.
pub open spec fn conversation_spec(ms: Seq<MessageV>, sec: spec_fn(u64) -> Seq<char>) -> Seq<char>
    decreases ms.len(),
{
    if ms.len() == 0 {
        Seq::empty()
    } else {
        let m = ms.last();
        conversation_spec(ms.drop_last(), sec) + match m.role {
            Role::User => seq!['y', 'o', 'u', ':', ' '] + m.text + seq!['\n'],
            Role::Assistant => hints_text(m.hints, sec) + m.text + seq!['\n'],
        }
    }
}

/// Every hint of the conversation can be laid out on its own.
pub open spec fn hints_lay_out(ms: Seq<MessageV>, sec: spec_fn(u64) -> Seq<char>) -> bool {
    forall|i: int, j: int|
        0 <= i < ms.len() && 0 <= j < ms[i].hints.len() ==> act_fits(#[trigger] ms[i].hints[j])
            && act_rows(ms[i].hints[j], '\u{283f}', sec, no_reply()).len() <= u16::MAX
}

/// Append the text of `ls` to `out`.
fn push_lines_text(out: &mut Vec<char>, ls: &Vec<Line>)
    ensures
        final(out)@ == old(out)@ + lines_text(lines_view(ls@)),
{
    let mut k: usize = 0;
    let ghost start = out@;
    while k < ls.len()
        invariant
            k <= ls@.len(),
            out@ == start + lines_text(lines_view(ls@.take(k as int))),
        decreases ls@.len() - k,
    {
        let sp = &ls[k].spans;
        let mut j: usize = 0;
        let ghost mid = out@;
        while j < sp.len()
            invariant
                j <= sp@.len(),
                sp == ls@[k as int].spans,
                out@ == mid + spans_text(spans_view(sp@.take(j as int))),
            decreases sp@.len() - j,
        {
            let c = chars_of(sp[j].content.as_str());
            extend_all(out, &c);
            assert(spans_view(sp@.take(j + 1)).drop_last() =~= spans_view(sp@.take(j as int)));
            j += 1;
        }
        assert(sp@.take(j as int) =~= sp@);
        out.push('\n');
        assert(lines_view(ls@.take(k + 1)).drop_last() =~= lines_view(ls@.take(k as int)));
        k += 1;
    }
    assert(ls@.take(k as int) =~= ls@);
}

/// Agent chat session: every user message starts a scripted agent turn
/// (checklist, reasoning, a subagent, a test run, an edit, the reply) that
/// advances on the host's ticks; painting the transcript is the host's.
pub struct AgentChat {
    messages: Vec<ChatMessage>,
    tick: u64,
    scroll: u16,
    input: Vec<char>,
    typing: bool,
    width: usize,
    activity_ranges: Vec<ActivityRowRange>,
    view_height: u16,
    phase: Option<TurnPhase>,
}

/// The views of a list of messages.
pub open spec fn messages_view(m: Seq<ChatMessage>) -> Seq<MessageV> {
    m.map_values(|x: ChatMessage| x@)
}

impl View for AgentChat {
    type V = ChatView;

    closed spec fn view(&self) -> ChatView {
        ChatView {
            messages: messages_view(self.messages@),
            tick: self.tick,
            scroll: self.scroll,
            input: self.input@,
            typing: self.typing,
            width: self.width,
            ranges: self.activity_ranges@,
            view_height: self.view_height,
            phase: self.phase,
        }
    }
}

/// Index of the first range whose rows hold `row`.
fn find_range(ranges: &Vec<ActivityRowRange>, row: u16) -> (r: Option<usize>)
    ensures
        match r {
            Some(j) => j as int == range_at(ranges@, row as int, 0),
            None => range_at(ranges@, row as int, 0) == -1,
        },
{
    let mut i: usize = 0;
    while i < ranges.len()
        invariant
            i <= ranges@.len(),
            range_at(ranges@, row as int, 0) == range_at(ranges@, row as int, i as int),
        decreases ranges@.len() - i,
    {
        if ranges[i].start <= row && row < ranges[i].end {
            return Some(i);
        }
        i += 1;
    }
    None
}

proof fn lemma_range_at(ranges: Seq<ActivityRowRange>, row: int, i: int)
    requires
        0 <= i,
    ensures
        range_at(ranges, row, i) == -1 || i <= range_at(ranges, row, i) < ranges.len(),
    decreases ranges.len() - i,
{
    if i < ranges.len() && !(ranges[i].start <= row < ranges[i].end) {
        lemma_range_at(ranges, row, i + 1);
    }
}

/// Index of the last assistant message.
fn last_assistant_index(messages: &Vec<ChatMessage>) -> (r: Option<usize>)
    ensures
        match r {
            Some(j) => j as int == last_assistant(messages_view(messages@), messages@.len() as int),
            None => last_assistant(messages_view(messages@), messages@.len() as int) == -1,
        },
{
    let ghost ms = messages_view(messages@);
    let mut n: usize = messages.len();
    while n > 0
        invariant
            ms == messages_view(messages@),
            n <= messages@.len(),
            last_assistant(ms, ms.len() as int) == last_assistant(ms, n as int),
        decreases n,
    {
        if messages[n - 1].role == Role::Assistant {
            return Some(n - 1);
        }
        n -= 1;
    }
    None
}

/// Toggle the activity addressed by `path[i..]` (nested subagent
/// transcripts are walked by index).
fn toggle_path(acts: &mut Vec<Activity<Line>>, path: &Vec<usize>, i: usize)
    ensures
        path_toggled(old(acts)@, final(acts)@, path@, i as int),
    decreases path@.len() - i,
{
    if i >= path.len() || path[i] >= acts.len() {
        return;
    }
    let h = path[i];
    let ghost before = acts@;
    let act = acts.remove(h);
    if i + 1 == path.len() {
        let mut act = act;
        act.toggle();
        acts.insert(h, act);
        assert(acts@ =~= before.update(h as int, Activity { expanded: !before[h as int].expanded, ..before[h as int] }));
        return;
    }
    let Activity { kind, expanded, content } = act;
    match kind {
        ActivityKind::SubAgent(sa) => {
            let mut sa = sa;
            toggle_path(&mut sa.transcript, path, i + 1);
            acts.insert(h, Activity { kind: ActivityKind::SubAgent(sa), expanded, content });
            assert forall|k: int| 0 <= k < before.len() && k != h implies #[trigger] acts@[k] == before[k] by {
                if k < h {
                    assert(acts@[k] == before.remove(h as int)[k]);
                } else {
                    assert(acts@[k] == before.remove(h as int)[k - 1]);
                }
            }
        },
        other => {
            acts.insert(h, Activity { kind: other, expanded, content });
            assert(acts@ =~= before);
        },
    }
}

impl AgentChat {
    /// Create a chat session; the first question is sent right away and a
    /// turn starts.
    pub fn new() -> (c: Self)
        ensures
            c@ == submitted(
                ChatView {
                    messages: Seq::empty(),
                    tick: 0,
                    scroll: 0,
                    input: Seq::empty(),
                    typing: true,
                    width: 80,
                    ranges: Seq::empty(),
                    view_height: 24,
                    phase: None,
                },
                "What does the pipeline look like?"@,
            ),
    {
        let mut this = AgentChat {
            messages: Vec::new(),
            tick: 0,
            scroll: 0,
            input: Vec::new(),
            typing: true,
            width: 80,
            activity_ranges: Vec::new(),
            view_height: 24,
            phase: None,
        };
        assert(this@.messages =~= Seq::<MessageV>::empty());
        assert(this@.input =~= Seq::<char>::empty());
        assert(this@.ranges =~= Seq::<ActivityRowRange>::empty());
        this.submit("What does the pipeline look like?");
        this
    }

    /// Send a user message and start a new agent turn.
    fn submit(&mut self, text: &str)
        ensures
            final(self)@ == submitted(old(self)@, text@),
    {
        let ghost before = self.messages@;
        self.messages.push(ChatMessage::user(text.to_owned()));
        self.start_turn();
        assert(messages_view(self.messages@) =~= messages_view(before).push(user_message(text@)).push(
            assistant_message(),
        ));
        self.scroll = u16::MAX;
    }

    fn start_turn(&mut self)
        ensures
            final(self).messages@ == old(self).messages@.push(final(self).messages@.last()),
            final(self).messages@.last()@ == assistant_message(),
            final(self)@ == (ChatView { messages: final(self)@.messages, phase: Some(TurnPhase::Todo), ..old(self)@ }),
    {
        self.messages.push(ChatMessage::assistant());
        self.phase = Some(TurnPhase::Todo);
    }

    /// Push a hint to the current assistant turn, replacing the hint with
    /// the same identity in place (see [`push_hint_into`]). Without an
    /// assistant turn in progress nothing changes.
    pub fn push_hint(&mut self, hint: Activity<Line>)
        ensures
            final(self)@ == with_hint(old(self)@, hint),
    {
        let n = self.messages.len();
        if n == 0 || self.messages[n - 1].role != Role::Assistant {
            return;
        }
        let ghost before = self.messages@;
        let mut msg = self.messages.pop().unwrap();
        push_hint_into(&mut msg.hints, hint);
        self.messages.push(msg);
        assert(messages_view(self.messages@) =~= messages_view(before).update(
            n - 1,
            MessageV { hints: hint_pushed(before[n - 1]@.hints, hint), ..before[n - 1]@ },
        ));
    }

    /// The conversation as plain text (see [`conversation_spec`]); `secs`
    /// gives the text of a duration in seconds.
    pub fn conversation_text<F: Fn(u64) -> String>(&self, secs: &F) -> (t: String)
        requires
            gives_seconds(*secs),
            hints_lay_out(self@.messages, seconds_spec(*secs)),
        ensures
            t@ == conversation_spec(self@.messages, seconds_spec(*secs)),
    {
        let ghost sec = seconds_spec(*secs);
        let ghost ms = self@.messages;
        let mut out: Vec<char> = Vec::new();
        let mut i: usize = 0;
        assert(ms.take(0) =~= Seq::<MessageV>::empty());
        while i < self.messages.len()
            invariant
                i <= self.messages@.len(),
                ms == messages_view(self.messages@),
                gives_seconds(*secs),
                sec == seconds_spec(*secs),
                hints_lay_out(ms, sec),
                out@ == conversation_spec(ms.take(i as int), sec),
            decreases self.messages@.len() - i,
        {
            let m = &self.messages[i];
            assert(ms[i as int] == m@);
            match m.role {
                Role::User => {
                    let you: Vec<char> = vec!['y', 'o', 'u', ':', ' '];
                    extend_all(&mut out, &you);
                    let tc = chars_of(m.text.as_str());
                    extend_all(&mut out, &tc);
                    out.push('\n');
                },
                Role::Assistant => {
                    let mut j: usize = 0;
                    let ghost base = out@;
                    assert(m@.hints.take(0) =~= Seq::<Activity<Line>>::empty());
                    while j < m.hints.len()
                        invariant
                            j <= m.hints@.len(),
                            m@ == ms[i as int],
                            i < ms.len(),
                            gives_seconds(*secs),
                            sec == seconds_spec(*secs),
                            hints_lay_out(ms, sec),
                            out@ == base + hints_text(m.hints@.take(j as int), sec),
                        decreases m.hints@.len() - j,
                    {
                        assert(act_fits(ms[i as int].hints[j as int]));
                        let lines = activity_lines(&m.hints[j], '\u{283f}', secs);
                        push_lines_text(&mut out, &lines);
                        assert(m.hints@.take(j + 1).drop_last() =~= m.hints@.take(j as int));
                        j += 1;
                    }
                    assert(m.hints@.take(j as int) =~= m.hints@);
                    let tc = chars_of(m.text.as_str());
                    extend_all(&mut out, &tc);
                    out.push('\n');
                },
            }
            assert(ms.take(i + 1).drop_last() =~= ms.take(i as int));
            i += 1;
        }
        assert(ms.take(i as int) =~= ms);
        string_of(&out)
    }

    /// Where the turn stands.
    pub fn phase(&self) -> (p: Option<TurnPhase>)
        ensures
            p == self@.phase,
    {
        self.phase
    }

    /// Drop the running edit hint that ends the current turn.
    fn pop_edit_hint(&mut self)
        ensures
            final(self)@ == edit_popped(old(self)@),
    {
        let n = self.messages.len();
        if n == 0 || self.messages[n - 1].role != Role::Assistant {
            return;
        }
        let h = self.messages[n - 1].hints.len();
        if h == 0 {
            return;
        }
        let is_edit = match &self.messages[n - 1].hints[h - 1].kind {
            ActivityKind::Tool(t) => {
                let a = crate::text::chars_of(t.name);
                let b = crate::text::chars_of("Edit");
                crate::text::chars_eq(&a, &b)
            },
            _ => false,
        };
        if !is_edit {
            return;
        }
        let ghost before = self.messages@;
        let mut msg = self.messages.pop().unwrap();
        msg.hints.pop();
        self.messages.push(msg);
        assert(messages_view(self.messages@) =~= messages_view(before).update(
            n - 1,
            MessageV { hints: before[n - 1]@.hints.drop_last(), ..before[n - 1]@ },
        ));
    }

    /// Set the current turn's reply to `text`, streamed to byte `pos`.
    fn set_reply(&mut self, text: Vec<char>, pos: usize)
        ensures
            final(self)@ == with_reply(old(self)@, text@, pos),
    {
        let n = self.messages.len();
        if n == 0 || self.messages[n - 1].role != Role::Assistant {
            return;
        }
        let ghost before = self.messages@;
        let mut msg = self.messages.pop().unwrap();
        msg.text = string_of(&text);
        msg.stream_pos = pos;
        self.messages.push(msg);
        assert(messages_view(self.messages@) =~= messages_view(before).update(
            n - 1,
            MessageV { text: text@, stream_pos: pos, ..before[n - 1]@ },
        ));
    }

    /// One reasoning step (see [`reasoning_step`]).
    fn reason(
        &mut self,
        e: u64,
        target: u64,
        stage: &'static str,
        lines: &[&'static str],
        shown: usize,
        digest: &str,
        todo: usize,
        here: TurnPhase,
        next: TurnPhase,
    )
        requires
            lines@.len() >= 1,
        ensures
            reasoning_step(
                old(self)@,
                final(self)@,
                e,
                target,
                stage@,
                lines@,
                shown,
                digest@,
                todo as int,
                here,
                next,
            ),
    {
        let ghost s = self@;
        let len = lines.len();
        let n = if shown < 1 {
            1
        } else if shown > len {
            len
        } else {
            shown
        };
        let l1 = plain_lines_of(lines, n);
        let h1 = thinking_hint(ThinkingState::Running, e, None, stage, l1);
        let ghost g1 = h1;
        self.push_hint(h1);
        if e < target {
            self.phase = Some(here);
            assert(self@ == with_phase(with_hint(s, g1), Some(here)));
        } else {
            let l2 = plain_lines_of(lines, len);
            let h2 = thinking_hint(ThinkingState::Done, target, Some(digest), stage, l2);
            let ghost g2 = h2;
            self.push_hint(h2);
            let h3 = self.todo_hint(todo);
            let ghost g3 = h3;
            self.push_hint(h3);
            self.phase = Some(next);
            assert(self@ == with_phase(with_hint(with_hint(with_hint(s, g1), g2), g3), Some(next)));
        }
    }

    /// One step of the scripted turn, `dt_ms` on (see [`turn_step`]).
    pub fn advance(&mut self, dt_ms: u64, shown: usize, grep_ms: u64)
        requires
            step_fits(old(self)@, dt_ms),
        ensures
            turn_step(old(self)@, final(self)@, dt_ms, shown, grep_ms),
    {
        let ghost s = self@;
        match self.phase {
            None => {},
            Some(TurnPhase::Todo) => {
                let h = self.todo_hint(0);
                let ghost g = h;
                self.push_hint(h);
                self.phase = Some(TurnPhase::Thinking { elapsed_ms: 0 });
                assert(self@ == with_phase(with_hint(s, g), Some(TurnPhase::Thinking { elapsed_ms: 0 })));
            },
            Some(TurnPhase::Thinking { elapsed_ms }) => {
                let e = elapsed_ms + dt_ms;
                self.reason(
                    e,
                    THINK_MS,
                    "understand",
                    &REASONING_UNDERSTAND,
                    shown,
                    "understanding the request",
                    1,
                    TurnPhase::Thinking { elapsed_ms: e },
                    TurnPhase::Explore { elapsed_ms: 0 },
                );
            },
            Some(TurnPhase::Explore { elapsed_ms }) => {
                let e = elapsed_ms + dt_ms;
                let h1 = explore_hint(e, grep_ms, self.tick);
                let ghost g1 = h1;
                self.push_hint(h1);
                if e < EXPLORE_MS {
                    self.phase = Some(TurnPhase::Explore { elapsed_ms: e });
                    assert(self@ == with_phase(with_hint(s, g1), Some(TurnPhase::Explore { elapsed_ms: e })));
                } else {
                    let h2 = self.todo_hint(2);
                    let ghost g2 = h2;
                    self.push_hint(h2);
                    self.phase = Some(TurnPhase::Test { elapsed_ms: 0 });
                    assert(self@ == with_phase(
                        with_hint(with_hint(s, g1), g2),
                        Some(TurnPhase::Test { elapsed_ms: 0 }),
                    ));
                }
            },
            Some(TurnPhase::Test { elapsed_ms }) => {
                let e = elapsed_ms + dt_ms;
                let none: Vec<Line> = Vec::new();
                assert(lines_view(none@) =~= Seq::<LineV>::empty());
                let h1 = tool_hint("bash", ToolStatus::Running, "cargo test -p rsmarkdown-core", e, None, none);
                let ghost g1 = h1;
                self.push_hint(h1);
                if e < TEST_MS {
                    self.phase = Some(TurnPhase::Test { elapsed_ms: e });
                    assert(self@ == with_phase(with_hint(s, g1), Some(TurnPhase::Test { elapsed_ms: e })));
                } else {
                    let out = plain_lines_of(&TEST_OUTPUT, 4);
                    let h2 = tool_hint(
                        "bash",
                        ToolStatus::Done,
                        "cargo test -p rsmarkdown-core",
                        TEST_MS,
                        Some("54 passed · finished in 0.02s"),
                        out,
                    );
                    let ghost g2 = h2;
                    self.push_hint(h2);
                    let h3 = self.todo_hint(3);
                    let ghost g3 = h3;
                    self.push_hint(h3);
                    self.phase = Some(TurnPhase::Edit { elapsed_ms: 0 });
                    assert(self@ == with_phase(
                        with_hint(with_hint(with_hint(s, g1), g2), g3),
                        Some(TurnPhase::Edit { elapsed_ms: 0 }),
                    ));
                }
            },
            Some(TurnPhase::Edit { elapsed_ms }) => {
                let e = elapsed_ms + dt_ms;
                let none: Vec<Line> = Vec::new();
                assert(lines_view(none@) =~= Seq::<LineV>::empty());
                let h1 = tool_hint("Edit", ToolStatus::Running, "crates/core/src/blocks.rs", e, None, none);
                let ghost g1 = h1;
                self.push_hint(h1);
                if e < EDIT_MS {
                    self.phase = Some(TurnPhase::Edit { elapsed_ms: e });
                    assert(self@ == with_phase(with_hint(s, g1), Some(TurnPhase::Edit { elapsed_ms: e })));
                } else {
                    self.pop_edit_hint();
                    let h2 = diff_hint();
                    let ghost g2 = h2;
                    self.push_hint(h2);
                    let h3 = self.todo_hint(4);
                    let ghost g3 = h3;
                    self.push_hint(h3);
                    self.phase = Some(TurnPhase::Compose { elapsed_ms: 0 });
                    assert(self@ == with_phase(
                        with_hint(with_hint(edit_popped(with_hint(s, g1)), g2), g3),
                        Some(TurnPhase::Compose { elapsed_ms: 0 }),
                    ));
                }
            },
            Some(TurnPhase::Compose { elapsed_ms }) => {
                let e = elapsed_ms + dt_ms;
                self.reason(
                    e,
                    COMPOSE_MS,
                    "compose",
                    &REASONING_COMPOSE,
                    shown,
                    "composing the reply",
                    5,
                    TurnPhase::Compose { elapsed_ms: e },
                    TurnPhase::Stream,
                );
            },
            Some(TurnPhase::Stream) => {
                let n = self.messages.len();
                if n > 0 && self.messages[n - 1].role == Role::Assistant {
                    let pos = self.messages[n - 1].stream_pos;
                    let (text, end) = stream_step(pos);
                    let total = crate::tui::turn::answer_len();
                    self.set_reply(text, end);
                    if end >= total {
                        self.phase = None;
                    } else {
                        self.phase = Some(TurnPhase::Stream);
                    }
                }
            },
        }
    }

    /// A host tick: the spinners move on and the turn advances 33 ms.
    pub fn on_tick(&mut self, shown: usize, grep_ms: u64)
        requires
            old(self)@.tick < u64::MAX,
            step_fits(old(self)@, 33),
        ensures
            turn_step(
                ChatView { tick: (old(self)@.tick + 1) as u64, ..old(self)@ },
                final(self)@,
                33,
                shown,
                grep_ms,
            ),
    {
        self.tick = self.tick + 1;
        self.advance(33, shown, grep_ms);
    }

    /// The turn's todo hint: items before `in_progress` done, that one in
    /// progress, the rest pending; its content is the checklist with the
    /// current spinner frame.
    pub fn todo_hint(&self, in_progress: usize) -> (a: Activity<Line>)
        ensures
            todo_hint_is(a, self@.tick, in_progress as int),
    {
        let mut items: Vec<TodoItem> = Vec::new();
        let mut i: usize = 0;
        while i < TODO_ITEMS.len()
            invariant
                i <= TODO_ITEMS@.len(),
                items@.len() == i,
                forall|k: int|
                    0 <= k < i ==> (#[trigger] items@[k]).text@ == TODO_ITEMS@[k]@ && items@[k].status
                        == todo_status_at(k, in_progress as int),
            decreases TODO_ITEMS@.len() - i,
        {
            let status = if i < in_progress {
                TodoStatus::Done
            } else if i == in_progress {
                TodoStatus::InProgress
            } else {
                TodoStatus::Pending
            };
            items.push(TodoItem { text: TODO_ITEMS[i].to_owned(), status });
            i += 1;
        }
        let todo = TodoList { title: "Implement the fix".to_owned(), items };
        let content = todo_lines(&todo, spinner(self.tick));
        let mut hint = Activity::new(ActivityKind::Todo(todo));
        hint.set_content(content);
        hint
    }

    fn scroll_by(&mut self, delta: i16)
        ensures
            final(self)@ == chat_scrolled(old(self)@, delta as int),
    {
        self.scroll = if delta >= 0 {
            self.scroll.saturating_add(delta as u16)
        } else {
            let d: u16 = (0i32 - delta as i32) as u16;
            self.scroll.saturating_sub(d)
        };
    }

    /// Toggle the activity whose header row (document coordinates) was
    /// clicked — nested subagent activities are addressed by their path.
    fn toggle_at(&mut self, doc_row: u16)
        ensures
            clicked(old(self)@, final(self)@, doc_row as int),
    {
        let r = match find_range(&self.activity_ranges, doc_row) {
            Some(r) => r,
            None => {
                return;
            },
        };
        proof {
            lemma_range_at(self.activity_ranges@, doc_row as int, 0);
        }
        let m = self.activity_ranges[r].message;
        if m >= self.messages.len() {
            return;
        }
        let ghost before = self.messages@;
        let mut msg = self.messages.remove(m);
        toggle_path(&mut msg.hints, &self.activity_ranges[r].path, 0);
        self.messages.insert(m, msg);
        proof {
            let nv = messages_view(self.messages@);
            let ov = messages_view(before);
            assert forall|k: int| 0 <= k < ov.len() && k != m implies #[trigger] nv[k] == ov[k] by {
                if k < m {
                    assert(self.messages@[k] == before.remove(m as int)[k]);
                } else {
                    assert(self.messages@[k] == before.remove(m as int)[k - 1]);
                }
            }
        }
    }

    /// Handle one event; returns whether it was used. A left click inside
    /// the viewport toggles the hint under it.
    pub fn event(&mut self, ev: InputEvent) -> (used: bool)
        requires
            is_view_click(old(self)@, ev) ==> old(self)@.scroll + ev->Mouse_0.row <= u16::MAX,
        ensures
            is_view_click(old(self)@, ev) ==> used && clicked(
                old(self)@,
                final(self)@,
                old(self)@.scroll + ev->Mouse_0.row,
            ),
            !is_view_click(old(self)@, ev) ==> (final(self)@, used) == chat_event(old(self)@, ev),
    {
        match ev {
            InputEvent::Key(k) => {
                if self.typing {
                    match k {
                        Key::Char(c) => {
                            self.input.push(c);
                            return true;
                        },
                        Key::Backspace => {
                            if self.input.len() > 0 {
                                self.input.pop();
                            }
                            return true;
                        },
                        Key::Enter => {
                            let text = self.input.clone();
                            self.input = Vec::new();
                            assert(self@.input =~= Seq::<char>::empty());
                            if text.len() > 0 {
                                let t = crate::text::string_of(&text);
                                self.submit(t.as_str());
                            }
                            return true;
                        },
                        Key::Esc => {
                            self.typing = false;
                            return true;
                        },
                        _ => {},
                    }
                }
                match k {
                    Key::Esc => {
                        self.typing = true;
                        true
                    },
                    Key::Char('j') | Key::Down => {
                        self.scroll_by(1);
                        true
                    },
                    Key::Char('k') | Key::Up => {
                        self.scroll_by(-1);
                        true
                    },
                    Key::PageDown => {
                        self.scroll_by(10);
                        true
                    },
                    Key::PageUp => {
                        self.scroll_by(-10);
                        true
                    },
                    Key::Home | Key::Char('g') => {
                        self.scroll = 0;
                        true
                    },
                    Key::End | Key::Char('G') => {
                        self.scroll = u16::MAX;
                        true
                    },
                    _ => false,
                }
            },
            InputEvent::Mouse(m) => match m.kind {
                MouseKind::ScrollUp => {
                    self.scroll_by(-3);
                    true
                },
                MouseKind::ScrollDown => {
                    self.scroll_by(3);
                    true
                },
                MouseKind::LeftDown => {
                    if m.row < self.view_height {
                        self.toggle_at(self.scroll + m.row);
                    }
                    true
                },
                _ => false,
            },
            InputEvent::Other => false,
        }
    }
    /// Rows of the whole chat: a row per user message, the hint rows and
    /// the reply rows per assistant message; `md_rows[i]` is the row count
    /// of message `i`'s current rendered reply (0 when not rendered).
    pub fn chat_height(&self, md_rows: &[u16]) -> (h: u16)
        ensures
            h == messages_height(self@.messages, md_rows@),
    {
        let ghost ms = self@.messages;
        let mut h: u16 = 0;
        let mut i: usize = 0;
        assert(ms.take(0) =~= Seq::<MessageV>::empty());
        while i < self.messages.len()
            invariant
                ms == messages_view(self.messages@),
                i <= self.messages@.len(),
                h == messages_height(ms.take(i as int), md_rows@),
            decreases self.messages@.len() - i,
        {
            let msg = &self.messages[i];
            assert(ms.take(i + 1).drop_last() =~= ms.take(i as int));
            match msg.role {
                Role::User => {
                    h = h.saturating_add(1);
                },
                Role::Assistant => {
                    let ghost h0 = h;
                    let mut j: usize = 0;
                    assert(msg.hints@.take(0) =~= Seq::<Activity<Line>>::empty());
                    while j < msg.hints.len()
                        invariant
                            j <= msg.hints@.len(),
                            h == hints_height(h0, msg.hints@.take(j as int)),
                        decreases msg.hints@.len() - j,
                    {
                        assert(msg.hints@.take(j + 1).drop_last() =~= msg.hints@.take(j as int));
                        h = h.saturating_add(1);
                        if msg.hints[j].expanded {
                            h = h.saturating_add(msg.hints[j].content.len() as u16);
                        }
                        j += 1;
                    }
                    assert(msg.hints@.take(j as int) =~= msg.hints@);
                    let md: u16 = if i < md_rows.len() {
                        md_rows[i]
                    } else {
                        0
                    };
                    h = h.saturating_add(md);
                },
            }
            i += 1;
        }
        assert(ms.take(i as int) =~= ms);
        h
    }

    /// Reply, hint, running-subagent and finished-subagent counts.
    fn counts(&self) -> (r: (u64, u64, u64, u64))
        requires
            hint_total(self@.messages) <= usize::MAX,
        ensures
            r.0 == reply_count(self@.messages),
            r.1 == hint_total(self@.messages),
            r.2 == subagent_count(self@.messages, SubAgentStatus::Running),
            r.3 == subagent_count(self@.messages, SubAgentStatus::Done),
    {
        let ghost ms = self@.messages;
        let mut replies: u64 = 0;
        let mut hints: u64 = 0;
        let mut running: u64 = 0;
        let mut done: u64 = 0;
        let mut i: usize = 0;
        assert(ms.take(0) =~= Seq::<MessageV>::empty());
        while i < self.messages.len()
            invariant
                ms == messages_view(self.messages@),
                hint_total(ms) <= usize::MAX,
                i <= self.messages@.len(),
                replies == reply_count(ms.take(i as int)),
                hints == hint_total(ms.take(i as int)),
                running == subagent_count(ms.take(i as int), SubAgentStatus::Running),
                done == subagent_count(ms.take(i as int), SubAgentStatus::Done),
            decreases self.messages@.len() - i,
        {
            let msg = &self.messages[i];
            let ghost pre = ms.take(i as int);
            assert(ms.take(i + 1).drop_last() =~= pre);
            proof {
                lemma_hint_total_prefix(ms, i + 1);
                lemma_reply_count_bound(ms.take(i + 1));
                lemma_subagent_count_bound(ms.take(i + 1), SubAgentStatus::Running);
                lemma_subagent_count_bound(ms.take(i + 1), SubAgentStatus::Done);
            }
            if msg.role == Role::Assistant && !msg.text.as_str().is_empty() {
                replies = replies + 1;
            }
            let ghost r0 = running;
            let ghost d0 = done;
            let mut j: usize = 0;
            assert(msg.hints@.take(0) =~= Seq::<Activity<Line>>::empty());
            while j < msg.hints.len()
                invariant
                    j <= msg.hints@.len(),
                    r0 + subagents_in(msg.hints@, SubAgentStatus::Running) <= usize::MAX,
                    d0 + subagents_in(msg.hints@, SubAgentStatus::Done) <= usize::MAX,
                    running == r0 + subagents_in(msg.hints@.take(j as int), SubAgentStatus::Running),
                    done == d0 + subagents_in(msg.hints@.take(j as int), SubAgentStatus::Done),
                decreases msg.hints@.len() - j,
            {
                assert(msg.hints@.take(j + 1).drop_last() =~= msg.hints@.take(j as int));
                proof {
                    lemma_subagents_in_prefix(msg.hints@, j + 1, SubAgentStatus::Running);
                    lemma_subagents_in_prefix(msg.hints@, j + 1, SubAgentStatus::Done);
                }
                match &msg.hints[j].kind {
                    ActivityKind::SubAgent(a) => match a.status {
                        SubAgentStatus::Running => {
                            running = running + 1;
                        },
                        SubAgentStatus::Done => {
                            done = done + 1;
                        },
                        SubAgentStatus::Error => {},
                    },
                    _ => {},
                }
                j += 1;
            }
            assert(msg.hints@.take(j as int) =~= msg.hints@);
            hints = hints + msg.hints.len() as u64;
            i += 1;
        }
        assert(ms.take(i as int) =~= ms);
        (replies, hints, running, done)
    }

    /// Status line: `N messages · R replies · H hints[ · working…] · ROWS
    /// rows`, the rows counted as [`AgentChat::chat_height`] counts them.
    pub fn status(&self, md_rows: &[u16]) -> (s: String)
        requires
            hint_total(self@.messages) <= usize::MAX,
        ensures
            s@ == chat_status(self@, md_rows@),
    {
        let (replies, hints, _, _) = self.counts();
        let mut v = decimal_exec(self.messages.len() as u64);
        let a: Vec<char> = vec![' ', 'm', 'e', 's', 's', 'a', 'g', 'e', 's', ' ', '·', ' '];
        extend_all(&mut v, &a);
        let r = decimal_exec(replies);
        extend_all(&mut v, &r);
        let b: Vec<char> = vec![' ', 'r', 'e', 'p', 'l', 'i', 'e', 's', ' ', '·', ' '];
        extend_all(&mut v, &b);
        let h = decimal_exec(hints);
        extend_all(&mut v, &h);
        let c: Vec<char> = vec![' ', 'h', 'i', 'n', 't', 's'];
        extend_all(&mut v, &c);
        let w: Vec<char> = if self.phase.is_some() {
            vec![' ', '·', ' ', 'w', 'o', 'r', 'k', 'i', 'n', 'g', '…']
        } else {
            Vec::new()
        };
        extend_all(&mut v, &w);
        let d: Vec<char> = vec![' ', '·', ' '];
        extend_all(&mut v, &d);
        let rows = decimal_exec(self.chat_height(md_rows) as u64);
        extend_all(&mut v, &rows);
        let e: Vec<char> = vec![' ', 'r', 'o', 'w', 's'];
        extend_all(&mut v, &e);
        proof {
            reveal_strlit(" messages · ");
            reveal_strlit(" replies · ");
            reveal_strlit(" hints");
            reveal_strlit(" · working…");
            reveal_strlit(" · ");
            reveal_strlit(" rows");
            assert(a@ =~= " messages · "@);
            assert(b@ =~= " replies · "@);
            assert(c@ =~= " hints"@);
            assert(d@ =~= " · "@);
            assert(e@ =~= " rows"@);
            assert(w@ =~= if self@.phase is Some {
                " · working…"@
            } else {
                Seq::empty()
            });
        }
        assert(v@ =~= chat_status(self@, md_rows@));
        string_of(&v)
    }

    /// The footer badge for subagents: running ones, else finished ones.
    pub fn footer_badges(&self) -> (b: Vec<FooterBadge>)
        requires
            hint_total(self@.messages) <= i32::MAX,
        ensures
            badges_view(b@) == chat_badges(self@),
    {
        let (_, _, running, done) = self.counts();
        let mut out: Vec<FooterBadge> = Vec::new();
        let arrow: Vec<char> = vec!['←', ' '];
        if running > 0 {
            let text: Vec<char> = if running == 1 {
                let t: Vec<char> = vec!['←', ' ', 'f', 'o', 'r', ' ', 'a', 'g', 'e', 'n', 't', 's'];
                proof {
                    reveal_strlit("← for agents");
                    assert(t@ =~= "← for agents"@);
                }
                t
            } else {
                let mut t = arrow;
                let n = decimal_exec(running);
                extend_all(&mut t, &n);
                let tail: Vec<char> = vec![' ', 'a', 'g', 'e', 'n', 't', 's'];
                extend_all(&mut t, &tail);
                proof {
                    reveal_strlit("← ");
                    reveal_strlit(" agents");
                    assert(tail@ =~= " agents"@);
                    assert(t@ =~= "← "@ + decimal(running as nat) + " agents"@);
                }
                t
            };
            proof {
                reveal_strlit("← for agents");
            }
            out.push(FooterBadge { text: string_of(&text), style: StyleTag::ToolRunning });
        } else if done > 0 {
            let text: Vec<char> = if done == 1 {
                let t: Vec<char> = vec!['←', ' ', '1', ' ', 'd', 'o', 'n', 'e'];
                proof {
                    reveal_strlit("← 1 done");
                    assert(t@ =~= "← 1 done"@);
                }
                t
            } else {
                let mut t = arrow;
                let n = decimal_exec(done);
                extend_all(&mut t, &n);
                let tail: Vec<char> = vec![' ', 'd', 'o', 'n', 'e'];
                extend_all(&mut t, &tail);
                proof {
                    reveal_strlit("← ");
                    reveal_strlit(" done");
                    assert(tail@ =~= " done"@);
                    assert(t@ =~= "← "@ + decimal(done as nat) + " done"@);
                }
                t
            };
            proof {
                reveal_strlit("← 1 done");
            }
            out.push(FooterBadge { text: string_of(&text), style: StyleTag::ToolDone });
        }
        assert(badges_view(out@) =~= chat_badges(self@));
        out
    }

    /// Whether no turn is in progress.
    pub fn phase_done(&self) -> (b: bool)
        ensures
            b == (self@.phase is None),
    {
        self.phase.is_none()
    }

    /// Number of messages.
    pub fn message_count(&self) -> (n: usize)
        ensures
            n == self@.messages.len(),
    {
        self.messages.len()
    }

    /// Row ranges of foldable activities from the last draw (document
    /// coordinates).
    pub fn hint_row_ranges(&self) -> (r: &[ActivityRowRange])
        ensures
            r@ == self@.ranges,
    {
        self.activity_ranges.as_slice()
    }

    /// First tool hint of the last assistant message, if any.
    pub fn last_tool_hint(&self) -> (r: Option<&Activity<Line>>)
        ensures
            ({
                let ms = self@.messages;
                let la = last_assistant(ms, ms.len() as int);
                match r {
                    Some(a) => la >= 0 && first_tool(ms[la].hints, 0) >= 0 && *a == ms[la].hints[first_tool(
                        ms[la].hints,
                        0,
                    )],
                    None => la < 0 || first_tool(ms[la].hints, 0) < 0,
                }
            }),
    {
        let ghost ms = self@.messages;
        proof {
            lemma_last_assistant(ms, ms.len() as int);
        }
        let n = match last_assistant_index(&self.messages) {
            Some(n) => n,
            None => {
                return None;
            },
        };
        let msg = &self.messages[n];
        assert(msg@ == ms[n as int]);
        let mut j: usize = 0;
        while j < msg.hints.len()
            invariant
                ms == self@.messages,
                n as int == last_assistant(ms, ms.len() as int),
                0 <= n < ms.len(),
                ms[n as int].hints == msg.hints@,
                j <= msg.hints@.len(),
                first_tool(msg.hints@, 0) == first_tool(msg.hints@, j as int),
            decreases msg.hints@.len() - j,
        {
            if let ActivityKind::Tool(_) = &msg.hints[j].kind {
                assert(msg.hints@[j as int].kind is Tool);
                assert(first_tool(msg.hints@, j as int) == j);
                return Some(&msg.hints[j]);
            }
            j += 1;
        }
        None
    }

    /// Component title.
    pub fn title(&self) -> (t: &'static str)
        ensures
            t@ == "chat"@,
    {
        "chat"
    }

    /// Key hints for the footer.
    pub fn hints(&self) -> (h: &'static str)
        ensures
            h@ == if self@.typing {
                "[enter] send  [esc] view  click a hint to expand"@
            } else {
                "[esc] type  [j/k] scroll  click a hint to expand/collapse"@
            },
    {
        if self.typing {
            "[enter] send  [esc] view  click a hint to expand"
        } else {
            "[esc] type  [j/k] scroll  click a hint to expand/collapse"
        }
    }

    /// Take the layout of a draw into the area `area`, split vertically into
    /// a transcript that takes what is left (at least nothing) over an input
    /// line of one row: with a height of at least one the bottom row is the
    /// input line and the rows above it the transcript; with none both are
    /// empty. `ranges` are the hint
    /// row ranges and `total_rows` the number of transcript rows laid out;
    /// the scroll position is kept within them. Returns the first visible
    /// row.
    pub fn prepare_draw(&mut self, area: Rect, ranges: Vec<ActivityRowRange>, total_rows: usize) -> (first: u16)
        ensures
            ({
                let chat_h = if area.height > 0 {
                    area.height - 1
                } else {
                    0
                };
                let top = if (total_rows as u16) > chat_h {
                    (total_rows as u16) - chat_h
                } else {
                    0
                };
                let sc = if old(self)@.scroll < top {
                    old(self)@.scroll
                } else {
                    top as u16
                };
                &&& first == sc
                &&& final(self)@ == (ChatView {
                    view_height: chat_h as u16,
                    width: area.width as usize,
                    ranges: ranges@,
                    scroll: sc,
                    ..old(self)@
                })
            }),
    {
        let chat_h: u16 = if area.height > 0 {
            area.height - 1
        } else {
            0
        };
        self.view_height = chat_h;
        self.width = area.width as usize;
        self.activity_ranges = ranges;
        let total = total_rows as u16;
        let top = total.saturating_sub(chat_h);
        if top < self.scroll {
            self.scroll = top;
        }
        self.scroll
    }

    /// The input line shown below the transcript.
    pub fn input_line(&self) -> (l: Line)
        ensures
            l@ == input_line_spec(self@),
    {
        let mut spans: Vec<Span> = Vec::new();
        let you: Vec<char> = vec!['y', 'o', 'u', ' ', '›', ' '];
        proof {
            reveal_strlit("you › ");
            assert(you@ =~= "you › "@);
        }
        push_span(&mut spans, styled_span(&you, StyleTag::ToolRunning));
        push_span(&mut spans, styled_span(&self.input, StyleTag::Text));
        let c: char = if self.typing { '▋' } else { ' ' };
        let caret: Vec<char> = vec![c];
        assert(caret@ =~= seq![c]);
        push_span(&mut spans, styled_span(&caret, StyleTag::ToolRunning));
        let l = Line { spans, style: Vec::new() };
        assert(l@.spans =~= input_line_spec(self@).spans);
        assert(l@.style =~= Seq::<StyleTag>::empty());
        l
    }
}

} // verus!
