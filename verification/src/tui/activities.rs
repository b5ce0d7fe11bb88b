//! Agent activity model: tool calls, thinking blocks, todo checklists and
//! unified diffs.
use vstd::prelude::*;
use crate::text::{chars_eq, chars_of, extend_all, find_char, find_char_from, lemma_find_char_bounds, string_of, sub_vec};
use crate::tui::agent::{decimal, decimal_exec};
use crate::tui::renderer::{
    append_lines, copy_line, line_of, lines_view, push_plain_line, push_span, raw, spaces, spans_view, styled, styled_span, Line,
    LineV, Span, SpanV, StyleTag,
};
use crate::tui::width::{truncate, truncate_spec};

verus! {

/// Spinner frames (braille), cycled by the host tick.
pub const SPINNERS: [char; 10] = ['⠋', '⠙', '⠹', '⠸', '⠼', '⠴', '⠦', '⠧', '⠇', '⠏'];

/// The spinner frame shown at tick `frame`.
pub fn spinner(frame: u64) -> (c: char)
    ensures
        c == SPINNERS@[((frame as usize) % 10) as int],
{
    let k: usize = (frame as usize) % 10;
    SPINNERS[k]
}

#[derive(Debug, Clone, Copy, PartialEq, Eq, Structural)]
pub enum ToolStatus {
    Running,
    Done,
    Error,
}

/// A tool invocation: `✓ bash · cargo test · 12ms`.
#[derive(Debug, Clone)]
pub struct ToolCall {
    pub name: &'static str,
    pub status: ToolStatus,
    /// Brief command / argument summary.
    pub summary: String,
    pub duration_ms: u64,
    /// One-line output preview shown next to the header.
    pub output: Option<String>,
}

impl ToolCall {
    /// A tool call that just started.
    pub fn running(name: &'static str, summary: &str) -> (t: Self)
        ensures
            t.name == name,
            t.status == ToolStatus::Running,
            t.summary@ == summary@,
            t.duration_ms == 0,
            t.output is None,
    {
        ToolCall {
            name,
            status: ToolStatus::Running,
            summary: summary.to_owned(),
            duration_ms: 0,
            output: None,
        }
    }
}

#[derive(Debug, Clone, Copy, PartialEq, Eq, Structural)]
pub enum ThinkingState {
    Running,
    Done,
}

/// A reasoning block: `⠋ thinking · 1.4s` -> `─ thinking · 1.4s ─`.
#[derive(Debug, Clone)]
pub struct Thinking {
    pub state: ThinkingState,
    pub duration_ms: u64,
    /// Collapsed digest shown once done.
    pub digest: Option<String>,
    /// Distinguishes consecutive reasoning stages so running/done updates
    /// replace the right hint.
    pub stage: &'static str,
}

/// Todo lifecycle: pending -> in progress -> done.
#[derive(Debug, Clone, Copy, PartialEq, Eq, Structural)]
pub enum TodoStatus {
    Pending,
    InProgress,
    Done,
}

#[derive(Debug, Clone)]
pub struct TodoItem {
    pub text: String,
    pub status: TodoStatus,
}

/// A task checklist, rendered as `- [ ]` / `- [⠋]` / `- [x]` items.
#[derive(Debug, Clone)]
pub struct TodoList {
    pub title: String,
    pub items: Vec<TodoItem>,
}

/// How many of the first `n` items are done.
pub open spec fn done_count(items: Seq<TodoItem>, n: int) -> nat
    decreases n,
{
    if n <= 0 {
        0
    } else {
        done_count(items, n - 1) + if items[n - 1].status == TodoStatus::Done {
            1nat
        } else {
            0nat
        }
    }
}

pub proof fn lemma_done_count(items: Seq<TodoItem>, n: int)
    requires
        0 <= n,
    ensures
        done_count(items, n) <= n,
    decreases n,
{
    if n > 0 {
        lemma_done_count(items, n - 1);
    }
}

impl TodoList {
    /// Number of items done.
    pub fn done(&self) -> (n: usize)
        ensures
            n == done_count(self.items@, self.items@.len() as int),
    {
        let mut n: usize = 0;
        let mut k: usize = 0;
        while k < self.items.len()
            invariant
                k <= self.items@.len(),
                n == done_count(self.items@, k as int),
            decreases self.items@.len() - k,
        {
            proof {
                lemma_done_count(self.items@, k as int);
            }
            if self.items[k].status == TodoStatus::Done {
                n += 1;
            }
            k += 1;
        }
        n
    }

    /// Number of items.
    pub fn total(&self) -> (n: usize)
        ensures
            n == self.items@.len(),
    {
        self.items.len()
    }

    /// Sets the status of item `index`; an index past the end changes nothing.
    pub fn set(&mut self, index: usize, status: TodoStatus)
        ensures
            final(self).title == old(self).title,
            final(self).items@.len() == old(self).items@.len(),
            forall|k: int|
                0 <= k < old(self).items@.len() ==> (#[trigger] final(self).items@[k]).text
                    == old(self).items@[k].text && final(self).items@[k].status == if k
                    == index {
                    status
                } else {
                    old(self).items@[k].status
                },
    {
        if index < self.items.len() {
            let mut it = self.items.remove(index);
            it.status = status;
            self.items.insert(index, it);
        }
    }
}

#[derive(Debug, Clone, Copy, PartialEq, Eq, Structural)]
pub enum SubAgentStatus {
    Running,
    Done,
    Error,
}

/// A clickable row range of an activity (document coordinates).
///
/// `path` addresses the activity inside nested subagent transcripts:
/// `[]` is a message-level activity, `[s]` an activity inside subagent `s`,
/// `[s, n]` an activity nested one level deeper.
#[derive(Debug, Clone)]
pub struct ActivityRowRange {
    pub start: u16,
    pub end: u16,
    pub message: usize,
    pub path: Vec<usize>,
    pub is_tool: bool,
}

// ---------------------------------------------------------------------------
// unified diffs
// ---------------------------------------------------------------------------

/// One line of a unified diff.
#[derive(Debug, Clone, PartialEq, Eq)]
pub enum DiffLine {
    Context(String),
    Removed(String),
    Added(String),
}

/// One hunk of a unified diff.
#[derive(Debug, Clone)]
pub struct Hunk {
    /// `@@ -a,b +c,d @@`
    pub header: String,
    pub lines: Vec<DiffLine>,
}

/// A file edit, rendered as a git-style unified diff.
#[derive(Debug, Clone)]
pub struct Diff {
    pub path: String,
    pub hunks: Vec<Hunk>,
}

/// The view of a [`DiffLine`].
pub enum DiffLineV {
    Context(Seq<char>),
    Removed(Seq<char>),
    Added(Seq<char>),
}

/// The view of a [`Hunk`].
pub struct HunkV {
    pub header: Seq<char>,
    pub lines: Seq<DiffLineV>,
}

impl View for DiffLine {
    type V = DiffLineV;

    open spec fn view(&self) -> DiffLineV {
        match self {
            DiffLine::Context(t) => DiffLineV::Context(t@),
            DiffLine::Removed(t) => DiffLineV::Removed(t@),
            DiffLine::Added(t) => DiffLineV::Added(t@),
        }
    }
}

impl View for Hunk {
    type V = HunkV;

    open spec fn view(&self) -> HunkV {
        HunkV { header: self.header@, lines: self.lines@.map_values(|l: DiffLine| l@) }
    }
}

pub open spec fn hunks_view(h: Seq<Hunk>) -> Seq<HunkV> {
    h.map_values(|x: Hunk| x@)
}

/// The lines of a text as `str::lines` yields them: split after each `\n`,
/// the newline and one `\r` before it removed, no empty last line.
pub open spec fn text_lines(s: Seq<char>, i: int) -> Seq<Seq<char>>
    decreases s.len() - i,
{
    if i < 0 || i >= s.len() {
        Seq::empty()
    } else {
        let e = find_char(s, '\n', i);
        if e < i || e >= s.len() {
            seq![strip_cr(s.subrange(i, s.len() as int))]
        } else {
            seq![strip_cr(s.subrange(i, e))] + text_lines(s, e + 1)
        }
    }
}

/// `t` without one trailing `\r`.
pub open spec fn strip_cr(t: Seq<char>) -> Seq<char> {
    if t.len() > 0 && t.last() == '\r' {
        t.drop_last()
    } else {
        t
    }
}

/// `t` starts with `p`.
pub open spec fn starts(t: Seq<char>, p: Seq<char>) -> bool {
    t.len() >= p.len() && t.take(p.len() as int) == p
}

/// One diff line read into the state (path, hunks).
pub open spec fn diff_step(st: (Seq<char>, Seq<HunkV>), line: Seq<char>) -> (Seq<char>, Seq<HunkV>) {
    let path = st.0;
    let hunks = st.1;
    if starts(line, seq!['+', '+', '+', ' ', 'b', '/']) {
        (line.skip(6), hunks)
    } else if starts(line, seq!['+', '+', '+', ' ']) {
        (line.skip(4), hunks)
    } else if starts(line, seq!['@', '@']) {
        (path, hunks.push(HunkV { header: line, lines: Seq::empty() }))
    } else if starts(line, seq!['-', '-', '-', ' ']) || hunks.len() == 0 {
        (path, hunks)
    } else {
        let h = hunks.last();
        let with_line = |x: DiffLineV|
            hunks.update(hunks.len() - 1, HunkV { header: h.header, lines: h.lines.push(x) });
        if starts(line, seq!['-']) && !starts(line.skip(1), seq!['-']) {
            (path, with_line(DiffLineV::Removed(line.skip(1))))
        } else if starts(line, seq!['+']) && !starts(line.skip(1), seq!['+']) {
            (path, with_line(DiffLineV::Added(line.skip(1))))
        } else if starts(line, seq![' ']) {
            (path, with_line(DiffLineV::Context(line.skip(1))))
        } else if line.len() > 0 {
            (path, with_line(DiffLineV::Context(line)))
        } else {
            (path, hunks)
        }
    }
}

/// The state after reading `lines`.
pub open spec fn diff_fold(lines: Seq<Seq<char>>) -> (Seq<char>, Seq<HunkV>)
    decreases lines.len(),
{
    if lines.len() == 0 {
        (Seq::empty(), Seq::empty())
    } else {
        diff_step(diff_fold(lines.drop_last()), lines.last())
    }
}

/// Count of the diff lines of a kind across hunks (`added` picks additions,
/// else removals).
pub open spec fn line_count(h: Seq<HunkV>, added: bool) -> nat
    decreases h.len(),
{
    if h.len() == 0 {
        0
    } else {
        line_count(h.drop_last(), added) + kind_count(h.last().lines, added)
    }
}

pub open spec fn kind_count(l: Seq<DiffLineV>, added: bool) -> nat
    decreases l.len(),
{
    if l.len() == 0 {
        0
    } else {
        kind_count(l.drop_last(), added) + if (added && l.last() is Added) || (!added
            && l.last() is Removed) {
            1nat
        } else {
            0nat
        }
    }
}

/// All diff lines across hunks.
pub open spec fn all_lines(h: Seq<HunkV>) -> nat
    decreases h.len(),
{
    if h.len() == 0 {
        0
    } else {
        all_lines(h.drop_last()) + h.last().lines.len()
    }
}

proof fn lemma_kind_count(l: Seq<DiffLineV>, added: bool)
    ensures
        kind_count(l, added) <= l.len(),
    decreases l.len(),
{
    if l.len() > 0 {
        lemma_kind_count(l.drop_last(), added);
    }
}

proof fn lemma_line_count(h: Seq<HunkV>, added: bool)
    ensures
        line_count(h, added) <= all_lines(h),
    decreases h.len(),
{
    if h.len() > 0 {
        lemma_line_count(h.drop_last(), added);
        lemma_kind_count(h.last().lines, added);
    }
}

fn starts_exec(t: &[char], p: &[char]) -> (b: bool)
    ensures
        b == starts(t@, p@),
{
    if t.len() < p.len() {
        return false;
    }
    let head = sub_vec(t, 0, p.len());
    assert(head@ == t@.take(p@.len() as int));
    crate::text::chars_eq(&head, p)
}

fn add_line(hunks: &mut Vec<Hunk>, x: DiffLine)
    requires
        old(hunks)@.len() > 0,
    ensures
        hunks_view(final(hunks)@) == hunks_view(old(hunks)@).update(
            old(hunks)@.len() - 1,
            HunkV {
                header: old(hunks)@.last().header@,
                lines: old(hunks)@.last()@.lines.push(x@),
            },
        ),
{
    let ghost h0 = hunks@;
    let mut h = hunks.pop().unwrap();
    let ghost l0 = h.lines@;
    h.lines.push(x);
    assert(h.lines@.map_values(|l: DiffLine| l@) =~= l0.map_values(|l: DiffLine| l@).push(x@));
    hunks.push(h);
    assert(hunks_view(hunks@) =~= hunks_view(h0).update(
        h0.len() - 1,
        HunkV { header: h0.last().header@, lines: h0.last()@.lines.push(x@) },
    ));
}

fn tail_string(line: &[char], k: usize) -> (r: String)
    requires
        k <= line@.len(),
    ensures
        r@ == line@.skip(k as int),
{
    let v = sub_vec(line, k, line.len());
    string_of(&v)
}

impl Diff {
    /// The hunks' views.
    pub open spec fn hunks_v(&self) -> Seq<HunkV> {
        hunks_view(self.hunks@)
    }

    /// Count added / removed lines across all hunks.
    pub fn stats(&self) -> (r: (usize, usize))
        requires
            all_lines(self.hunks_v()) <= usize::MAX,
        ensures
            r.0 == line_count(self.hunks_v(), true),
            r.1 == line_count(self.hunks_v(), false),
    {
        let mut added: usize = 0;
        let mut removed: usize = 0;
        let mut k: usize = 0;
        while k < self.hunks.len()
            invariant
                k <= self.hunks@.len(),
                all_lines(self.hunks_v()) <= usize::MAX,
                added == line_count(self.hunks_v().take(k as int), true),
                removed == line_count(self.hunks_v().take(k as int), false),
            decreases self.hunks@.len() - k,
        {
            let ghost hv = self.hunks_v();
            assert(hv.take(k + 1).drop_last() == hv.take(k as int));
            let lines = &self.hunks[k].lines;
            assert(hv.take(k + 1).last().lines == lines@.map_values(|l: DiffLine| l@));
            let ghost lv = lines@.map_values(|l: DiffLine| l@);
            let mut j: usize = 0;
            let ghost a0 = added;
            let ghost r0 = removed;
            proof {
                lemma_line_count(hv.take(k + 1), true);
                lemma_line_count(hv.take(k + 1), false);
                lemma_all_lines_take(hv, k + 1);
                assert(lv.take(0) =~= Seq::<DiffLineV>::empty());
            }
            while j < lines.len()
                invariant
                    j <= lines@.len(),
                    lv == lines@.map_values(|l: DiffLine| l@),
                    added == a0 + kind_count(lv.take(j as int), true),
                    removed == r0 + kind_count(lv.take(j as int), false),
                    a0 + kind_count(lv, true) <= usize::MAX,
                    r0 + kind_count(lv, false) <= usize::MAX,
                decreases lines@.len() - j,
            {
                assert(lv.take(j + 1).drop_last() == lv.take(j as int));
                proof {
                    lemma_kind_count_take(lv, j + 1, true);
                    lemma_kind_count_take(lv, j + 1, false);
                }
                match &lines[j] {
                    DiffLine::Added(_) => {
                        added += 1;
                    },
                    DiffLine::Removed(_) => {
                        removed += 1;
                    },
                    DiffLine::Context(_) => {},
                }
                j += 1;
            }
            assert(lv.take(lines@.len() as int) == lv);
            k += 1;
        }
        assert(self.hunks_v().take(self.hunks@.len() as int) == self.hunks_v());
        (added, removed)
    }

    /// Parse a unified diff (git format: `---` / `+++` / `@@` / `-` `+` ` `).
    pub fn parse_unified(text: &str) -> (d: Self)
        ensures
            (d.path@, d.hunks_v()) == diff_fold(text_lines(text@, 0)),
    {
        let s = chars_of(text);
        let mut path: Vec<char> = Vec::new();
        let mut hunks: Vec<Hunk> = Vec::new();
        let mut i: usize = 0;
        let ghost all = text_lines(s@, 0);
        let ghost mut done: Seq<Seq<char>> = Seq::empty();
        assert(hunks_view(hunks@) =~= Seq::<HunkV>::empty());
        while i < s.len()
            invariant
                i <= s@.len(),
                all == done + text_lines(s@, i as int),
                (path@, hunks_view(hunks@)) == diff_fold(done),
            decreases s@.len() - i,
        {
            let e = match find_char_from(&s, '\n', i) {
                Some(e) => e,
                None => s.len(),
            };
            proof {
                lemma_find_char_bounds(s@, '\n', i as int);
            }
            let mut b = e;
            if b > i && s[b - 1] == '\r' {
                b = b - 1;
            }
            let line = sub_vec(&s, i, b);
            assert(line@ == strip_cr(s@.subrange(i as int, e as int)));
            proof {
                assert(text_lines(s@, i as int) == seq![line@] + text_lines(s@, e + 1)) by {
                    if e == s.len() {
                        assert(text_lines(s@, e + 1) =~= Seq::<Seq<char>>::empty());
                    }
                }
                assert(done.push(line@).drop_last() == done);
                assert(all == done.push(line@) + text_lines(s@, e + 1));
                done = done.push(line@);
            }
            self::read_line(&mut path, &mut hunks, &line);
            if e < s.len() {
                i = e + 1;
            } else {
                i = s.len();
            }
        }
        assert(done == all);
        Diff { path: string_of(&path), hunks }
    }
}

proof fn lemma_all_lines_take(h: Seq<HunkV>, k: int)
    requires
        0 <= k <= h.len(),
    ensures
        all_lines(h.take(k)) <= all_lines(h),
    decreases h.len() - k,
{
    if k < h.len() {
        lemma_all_lines_take(h, k + 1);
        assert(h.take(k + 1).drop_last() == h.take(k));
    } else {
        assert(h.take(k) == h);
    }
}

proof fn lemma_kind_count_take(l: Seq<DiffLineV>, k: int, added: bool)
    requires
        0 <= k <= l.len(),
    ensures
        kind_count(l.take(k), added) <= kind_count(l, added),
    decreases l.len() - k,
{
    if k < l.len() {
        lemma_kind_count_take(l, k + 1, added);
        assert(l.take(k + 1).drop_last() == l.take(k));
    } else {
        assert(l.take(k) == l);
    }
}

/// Reads one diff line into the path and hunks.
fn read_line(path: &mut Vec<char>, hunks: &mut Vec<Hunk>, line: &Vec<char>)
    ensures
        (final(path)@, hunks_view(final(hunks)@)) == diff_step(
            (old(path)@, hunks_view(old(hunks)@)),
            line@,
        ),
{
    let pb = vec!['+', '+', '+', ' ', 'b', '/'];
    let pp = vec!['+', '+', '+', ' '];
    let at = vec!['@', '@'];
    let mm = vec!['-', '-', '-', ' '];
    assert(pb@ =~= seq!['+', '+', '+', ' ', 'b', '/']);
    assert(pp@ =~= seq!['+', '+', '+', ' ']);
    assert(at@ =~= seq!['@', '@']);
    assert(mm@ =~= seq!['-', '-', '-', ' ']);
    if starts_exec(line, &pb) {
        *path = sub_vec(line, 6, line.len());
        return;
    }
    if starts_exec(line, &pp) {
        *path = sub_vec(line, 4, line.len());
        return;
    }
    if starts_exec(line, &at) {
        let h = Hunk { header: string_of(line), lines: Vec::new() };
        assert(h@.lines =~= Seq::<DiffLineV>::empty());
        let ghost h0 = hunks@;
        hunks.push(h);
        assert(hunks_view(hunks@) =~= hunks_view(h0).push(HunkV { header: line@, lines: Seq::empty() }));
        return;
    }
    if starts_exec(line, &mm) || hunks.len() == 0 {
        return;
    }
    let n = line.len();
    proof {
        lemma_starts1(line@, '-');
        lemma_starts1(line@, '+');
        lemma_starts1(line@, ' ');
        lemma_starts1(line@.skip(1), '-');
        lemma_starts1(line@.skip(1), '+');
        if n > 1 {
            assert(line@.skip(1)[0] == line@[1]);
        }
    }
    if n > 0 && line[0] == '-' && !(n > 1 && line[1] == '-') {
        add_line(hunks, DiffLine::Removed(tail_string(line, 1)));
    } else if n > 0 && line[0] == '+' && !(n > 1 && line[1] == '+') {
        add_line(hunks, DiffLine::Added(tail_string(line, 1)));
    } else if n > 0 && line[0] == ' ' {
        add_line(hunks, DiffLine::Context(tail_string(line, 1)));
    } else if n > 0 {
        add_line(hunks, DiffLine::Context(string_of(line)));
    }
}

/// Starting with a one-character prefix is having that first character.
proof fn lemma_starts1(t: Seq<char>, c: char)
    ensures
        starts(t, seq![c]) == (t.len() > 0 && t[0] == c),
{
    if t.len() > 0 {
        if t[0] == c {
            assert(t.take(1) =~= seq![c]);
        }
        if t.take(1) == seq![c] {
            assert(t.take(1)[0] == t[0]);
        }
    }
}

/// The spinner repeats every ten frames.
pub proof fn lemma_spinner_period(frame: u64)
    requires
        frame + 10 <= usize::MAX,
    ensures
        SPINNERS@[(((frame + 10) as u64 as usize) % 10) as int] == SPINNERS@[((frame as usize) % 10) as int],
{
    assert((frame + 10) as u64 as usize == frame as usize + 10);
}

// ---------------------------------------------------------------------------
// activities
// ---------------------------------------------------------------------------

/// A delegated subagent, shown as a tool-call row `<name> (<task>)`; its
/// own transcript (`L` is the display layer's line type) is nested.
#[derive(Debug)]
pub struct SubAgent<L> {
    pub name: String,
    pub status: SubAgentStatus,
    /// Short task description shown next to the name.
    pub task: String,
    pub duration_ms: u64,
    /// One-line result preview once done.
    pub result: Option<String>,
    /// The subagent's own transcript (recursively foldable).
    pub transcript: Vec<Activity<L>>,
    /// The subagent's final markdown reply.
    pub reply: String,
}

impl<L> SubAgent<L> {
    /// A subagent that just started on `task`.
    pub fn running(name: &str, task: &str) -> (a: Self)
        ensures
            a.name@ == name@,
            a.status == SubAgentStatus::Running,
            a.task@ == task@,
            a.duration_ms == 0,
            a.result is None,
            a.transcript@.len() == 0,
            a.reply@ == Seq::<char>::empty(),
    {
        SubAgent {
            name: name.to_owned(),
            status: SubAgentStatus::Running,
            task: task.to_owned(),
            duration_ms: 0,
            result: None,
            transcript: Vec::new(),
            reply: String::new(),
        }
    }
}

/// What an activity is about: the presentation differs, the foldable
/// behavior does not.
#[derive(Debug)]
pub enum ActivityKind<L> {
    Thinking(Thinking),
    Tool(ToolCall),
    SubAgent(SubAgent<L>),
    Todo(TodoList),
    /// A file edit, shown as a unified diff.
    Diff(Diff),
}

/// A foldable agent hint: a header line plus content revealed when
/// expanded.
#[derive(Debug)]
pub struct Activity<L> {
    pub kind: ActivityKind<L>,
    /// Collapsed (`false`) or expanded (`true`).
    pub expanded: bool,
    /// Full content revealed when expanded.
    pub content: Vec<L>,
}

impl<L> Activity<L> {
    /// A collapsed activity without content.
    pub fn new(kind: ActivityKind<L>) -> (a: Self)
        ensures
            a.kind == kind,
            !a.expanded,
            a.content@.len() == 0,
    {
        Activity { kind, expanded: false, content: Vec::new() }
    }

    /// Expand or collapse.
    pub fn toggle(&mut self)
        ensures
            final(self).expanded == !old(self).expanded,
            final(self).kind == old(self).kind,
            final(self).content == old(self).content,
    {
        self.expanded = !self.expanded;
    }

    /// Whether expansion reveals anything at all.
    pub fn expandable(&self) -> (b: bool)
        ensures
            b == (self.content@.len() > 0),
    {
        self.content.len() > 0
    }

    /// Whether the activity is expanded.
    pub fn is_expanded(&self) -> (b: bool)
        ensures
            b == self.expanded,
    {
        self.expanded
    }

    /// Replace the content.
    pub fn set_content(&mut self, content: Vec<L>)
        ensures
            final(self).content == content,
            final(self).kind == old(self).kind,
            final(self).expanded == old(self).expanded,
    {
        self.content = content;
    }
}

/// Whether an activity is shown expanded while it is active: a todo list
/// with an item in progress, or a running subagent.
pub open spec fn auto_expands<L>(k: ActivityKind<L>) -> bool {
    match k {
        ActivityKind::Todo(t) => exists|i: int| 0 <= i < t.items@.len() && (#[trigger] t.items@[i]).status == TodoStatus::InProgress,
        ActivityKind::SubAgent(a) => a.status == SubAgentStatus::Running,
        _ => false,
    }
}

/// Whether a todo list has an item in progress.
fn any_in_progress(t: &TodoList) -> (b: bool)
    ensures
        b == exists|i: int| 0 <= i < t.items@.len() && (#[trigger] t.items@[i]).status == TodoStatus::InProgress,
{
    let mut k: usize = 0;
    while k < t.items.len()
        invariant
            k <= t.items@.len(),
            forall|i: int| 0 <= i < k ==> (#[trigger] t.items@[i]).status != TodoStatus::InProgress,
        decreases t.items@.len() - k,
    {
        if t.items[k].status == TodoStatus::InProgress {
            return true;
        }
        k += 1;
    }
    false
}

/// Whether an activity should be shown expanded while it is active: a todo
/// with an in-progress item, or a running subagent.
pub fn auto_expand<L>(h: &Activity<L>) -> (b: bool)
    ensures
        b == auto_expands(h.kind),
{
    match &h.kind {
        ActivityKind::Todo(t) => any_in_progress(t),
        ActivityKind::SubAgent(a) => a.status == SubAgentStatus::Running,
        _ => false,
    }
}

/// What tells updates of one hint apart from other hints: the reasoning
/// stage, the tool name, the subagent name, the todo title or the edited
/// path, with its kind.
#[derive(Debug, Clone, PartialEq, Eq)]
pub enum ActivityId {
    Thinking(&'static str),
    Tool(&'static str),
    SubAgent(String),
    Todo(String),
    Diff(String),
}

/// The view of an [`ActivityId`].
pub enum IdV {
    Thinking(Seq<char>),
    Tool(Seq<char>),
    SubAgent(Seq<char>),
    Todo(Seq<char>),
    Diff(Seq<char>),
}

impl View for ActivityId {
    type V = IdV;

    open spec fn view(&self) -> IdV {
        match self {
            ActivityId::Thinking(s) => IdV::Thinking(s@),
            ActivityId::Tool(s) => IdV::Tool(s@),
            ActivityId::SubAgent(s) => IdV::SubAgent(s@),
            ActivityId::Todo(s) => IdV::Todo(s@),
            ActivityId::Diff(s) => IdV::Diff(s@),
        }
    }
}

/// The identity of an activity of kind `k`.
pub open spec fn identity_of<L>(k: ActivityKind<L>) -> IdV {
    match k {
        ActivityKind::Thinking(t) => IdV::Thinking(t.stage@),
        ActivityKind::Tool(t) => IdV::Tool(t.name@),
        ActivityKind::SubAgent(a) => IdV::SubAgent(a.name@),
        ActivityKind::Todo(t) => IdV::Todo(t.title@),
        ActivityKind::Diff(d) => IdV::Diff(d.path@),
    }
}

/// Whether two strings hold the same characters.
fn same_str(a: &str, b: &str) -> (r: bool)
    ensures
        r == (a@ == b@),
{
    let x = chars_of(a);
    let y = chars_of(b);
    chars_eq(&x, &y)
}

impl ActivityId {
    /// Whether two identities are the same.
    pub fn same(&self, other: &ActivityId) -> (r: bool)
        ensures
            r == (self@ == other@),
    {
        match (self, other) {
            (ActivityId::Thinking(a), ActivityId::Thinking(b)) => same_str(a, b),
            (ActivityId::Tool(a), ActivityId::Tool(b)) => same_str(a, b),
            (ActivityId::SubAgent(a), ActivityId::SubAgent(b)) => *a == *b,
            (ActivityId::Todo(a), ActivityId::Todo(b)) => *a == *b,
            (ActivityId::Diff(a), ActivityId::Diff(b)) => *a == *b,
            _ => false,
        }
    }
}

impl<L> ActivityKind<L> {
    /// Identity used to deduplicate consecutive updates of the same hint.
    pub(crate) fn identity(&self) -> (id: ActivityId)
        ensures
            id@ == identity_of(*self),
    {
        match self {
            ActivityKind::Thinking(t) => ActivityId::Thinking(t.stage),
            ActivityKind::Tool(t) => ActivityId::Tool(t.name),
            ActivityKind::SubAgent(a) => ActivityId::SubAgent(a.name.clone()),
            ActivityKind::Todo(t) => ActivityId::Todo(t.title.clone()),
            ActivityKind::Diff(d) => ActivityId::Diff(d.path.clone()),
        }
    }
}

// ---------------------------------------------------------------------------
// header and content lines
// ---------------------------------------------------------------------------

/// The checklist lines of a todo list: `[ ] `, `[<spinner>] ` or `[x] ` and
/// the item text, both in the item's style.
pub open spec fn todo_lines_spec(items: Seq<TodoItem>, spinner: char) -> Seq<LineV> {
    items.map_values(
        |it: TodoItem| {
            let (marker, tag) = match it.status {
                TodoStatus::Pending => (seq!['[', ' ', ']', ' '], StyleTag::TaskOpen),
                TodoStatus::InProgress => (seq!['[', spinner, ']', ' '], StyleTag::ToolRunning),
                TodoStatus::Done => (seq!['[', 'x', ']', ' '], StyleTag::TaskDone),
            };
            line_of(seq![styled(marker, tag), styled(it.text@, tag)])
        },
    )
}

/// Render a todo list as checklist items (expanded content of a todo hint).
pub fn todo_lines(t: &TodoList, spinner: char) -> (r: Vec<Line>)
    ensures
        lines_view(r@) == todo_lines_spec(t.items@, spinner),
{
    let mut out: Vec<Line> = Vec::new();
    let mut k: usize = 0;
    while k < t.items.len()
        invariant
            k <= t.items@.len(),
            lines_view(out@) == todo_lines_spec(t.items@.take(k as int), spinner),
        decreases t.items@.len() - k,
    {
        let item = &t.items[k];
        let (marker, tag): (Vec<char>, StyleTag) = match item.status {
            TodoStatus::Pending => (vec!['[', ' ', ']', ' '], StyleTag::TaskOpen),
            TodoStatus::InProgress => (vec!['[', spinner, ']', ' '], StyleTag::ToolRunning),
            TodoStatus::Done => (vec!['[', 'x', ']', ' '], StyleTag::TaskDone),
        };
        let text = chars_of(item.text.as_str());
        let mut spans: Vec<Span> = Vec::new();
        push_span(&mut spans, styled_span(&marker, tag));
        push_span(&mut spans, styled_span(&text, tag));
        push_plain_line(&mut out, spans);
        proof {
            let f = |it: TodoItem| {
                let (marker, tag) = match it.status {
                    TodoStatus::Pending => (seq!['[', ' ', ']', ' '], StyleTag::TaskOpen),
                    TodoStatus::InProgress => (seq!['[', spinner, ']', ' '], StyleTag::ToolRunning),
                    TodoStatus::Done => (seq!['[', 'x', ']', ' '], StyleTag::TaskDone),
                };
                line_of(seq![styled(marker, tag), styled(it.text@, tag)])
            };
            assert(marker@ =~= match item.status {
                TodoStatus::Pending => seq!['[', ' ', ']', ' '],
                TodoStatus::InProgress => seq!['[', spinner, ']', ' '],
                TodoStatus::Done => seq!['[', 'x', ']', ' '],
            });
            assert(spans_view(spans@) =~= f(t.items@[k as int]).spans);
            assert(todo_lines_spec(t.items@.take(k + 1), spinner) =~= todo_lines_spec(t.items@.take(k as int), spinner).push(
                f(t.items@[k as int]),
            ));
        }
        k += 1;
    }
    assert(t.items@.take(k as int) =~= t.items@);
    out
}

/// The header of a todo hint: `<spinner> todo · d/n tasks · <title>` (the
/// spinner only while an item is in progress).
pub open spec fn todo_header_spec(t: TodoList, spinner: char) -> LineV {
    let marker = if exists|i: int| 0 <= i < t.items@.len() && (#[trigger] t.items@[i]).status == TodoStatus::InProgress {
        seq![spinner, ' ']
    } else {
        Seq::empty()
    };
    line_of(seq![
        styled(marker + seq!['t', 'o', 'd', 'o'], StyleTag::ToolRunning),
        styled(seq![' ', '\u{b7}', ' '] + decimal(done_count(t.items@, t.items@.len() as int)) + seq!['/']
            + decimal(t.items@.len()) + seq![' ', 't', 'a', 's', 'k', 's'], StyleTag::Dim),
        styled(seq![' ', '\u{b7}', ' '] + t.title@, StyleTag::Dim),
    ])
}

/// The header line of a todo hint.
pub fn todo_header(t: &TodoList, spinner: char) -> (l: Line)
    ensures
        l@ == todo_header_spec(*t, spinner),
{
    let mut first: Vec<char> = Vec::new();
    if any_in_progress(t) {
        first.push(spinner);
        first.push(' ');
    }
    let todo: Vec<char> = vec!['t', 'o', 'd', 'o'];
    extend_all(&mut first, &todo);
    let dot: Vec<char> = vec![' ', '\u{b7}', ' '];
    let mut second: Vec<char> = Vec::new();
    extend_all(&mut second, &dot);
    let done = decimal_exec(t.done() as u64);
    extend_all(&mut second, &done);
    second.push('/');
    let total = decimal_exec(t.total() as u64);
    extend_all(&mut second, &total);
    let tasks: Vec<char> = vec![' ', 't', 'a', 's', 'k', 's'];
    extend_all(&mut second, &tasks);
    let mut third: Vec<char> = Vec::new();
    extend_all(&mut third, &dot);
    let title = chars_of(t.title.as_str());
    extend_all(&mut third, &title);
    let mut spans: Vec<Span> = Vec::new();
    push_span(&mut spans, styled_span(&first, StyleTag::ToolRunning));
    push_span(&mut spans, styled_span(&second, StyleTag::Dim));
    push_span(&mut spans, styled_span(&third, StyleTag::Dim));
    let l = Line { spans, style: Vec::new() };
    proof {
        let marker = if exists|i: int| 0 <= i < t.items@.len() && (#[trigger] t.items@[i]).status == TodoStatus::InProgress {
            seq![spinner, ' ']
        } else {
            Seq::empty()
        };
        assert(first@ =~= marker + seq!['t', 'o', 'd', 'o']);
        assert(second@ =~= seq![' ', '\u{b7}', ' '] + decimal(done_count(t.items@, t.items@.len() as int)) + seq!['/']
            + decimal(t.items@.len()) + seq![' ', 't', 'a', 's', 'k', 's']);
        assert(third@ =~= seq![' ', '\u{b7}', ' '] + t.title@);
        assert(l@.spans =~= todo_header_spec(*t, spinner).spans);
        assert(l@.style =~= Seq::<StyleTag>::empty());
    }
    l
}

/// The header of a diff hint: `✻ Edit · <path> · +<added> −<removed>`.
pub open spec fn diff_header_spec(d: Diff) -> LineV {
    line_of(seq![
        styled(seq!['\u{273b}', ' ', 'E', 'd', 'i', 't', ' ', '\u{b7}', ' '], StyleTag::DiffEdit),
        styled(d.path@, StyleTag::Text),
        styled(seq![' ', '\u{b7}', ' ', '+'] + decimal(line_count(d.hunks_v(), true)) + seq![' ', '\u{2212}']
            + decimal(line_count(d.hunks_v(), false)), StyleTag::DiffHunk),
    ])
}

/// The header line of a diff hint.
pub fn diff_header(d: &Diff) -> (l: Line)
    requires
        all_lines(d.hunks_v()) <= usize::MAX,
    ensures
        l@ == diff_header_spec(*d),
{
    let (added, removed) = d.stats();
    let edit: Vec<char> = vec!['\u{273b}', ' ', 'E', 'd', 'i', 't', ' ', '\u{b7}', ' '];
    let path = chars_of(d.path.as_str());
    let mut third: Vec<char> = vec![' ', '\u{b7}', ' ', '+'];
    let a = decimal_exec(added as u64);
    extend_all(&mut third, &a);
    third.push(' ');
    third.push('\u{2212}');
    let r = decimal_exec(removed as u64);
    extend_all(&mut third, &r);
    let mut spans: Vec<Span> = Vec::new();
    push_span(&mut spans, styled_span(&edit, StyleTag::DiffEdit));
    push_span(&mut spans, styled_span(&path, StyleTag::Text));
    push_span(&mut spans, styled_span(&third, StyleTag::DiffHunk));
    let l = Line { spans, style: Vec::new() };
    proof {
        assert(edit@ =~= seq!['\u{273b}', ' ', 'E', 'd', 'i', 't', ' ', '\u{b7}', ' ']);
        assert(third@ =~= seq![' ', '\u{b7}', ' ', '+'] + decimal(line_count(d.hunks_v(), true)) + seq![' ', '\u{2212}']
            + decimal(line_count(d.hunks_v(), false)));
        assert(l@.spans =~= diff_header_spec(*d).spans);
        assert(l@.style =~= Seq::<StyleTag>::empty());
    }
    l
}

/// The lines of one hunk: its header in hunk style, then each line with its
/// prefix (` `, `-`, `+`) and text in the line's style.
pub open spec fn hunk_lines(h: HunkV) -> Seq<LineV> {
    seq![LineV { spans: seq![raw(h.header)], style: seq![StyleTag::DiffHunk] }] + h.lines.map_values(
        |l: DiffLineV| {
            let (prefix, tag, text) = match l {
                DiffLineV::Context(t) => (' ', StyleTag::DiffContext, t),
                DiffLineV::Removed(t) => ('-', StyleTag::DiffRemoved, t),
                DiffLineV::Added(t) => ('+', StyleTag::DiffAdded, t),
            };
            line_of(seq![styled(seq![prefix], tag), styled(text, tag)])
        },
    )
}

/// The lines of all hunks.
pub open spec fn diff_lines_spec(h: Seq<HunkV>) -> Seq<LineV>
    decreases h.len(),
{
    if h.len() == 0 {
        Seq::empty()
    } else {
        diff_lines_spec(h.drop_last()) + hunk_lines(h.last())
    }
}

/// Render a diff as styled lines: `@@` hunk headers, `-` removed, `+`
/// added.
pub fn diff_lines(d: &Diff) -> (r: Vec<Line>)
    ensures
        lines_view(r@) == diff_lines_spec(d.hunks_v()),
{
    let ghost hv = d.hunks_v();
    let mut out: Vec<Line> = Vec::new();
    let mut k: usize = 0;
    assert(hv.take(0) =~= Seq::<HunkV>::empty());
    assert(lines_view(out@) =~= Seq::<LineV>::empty());
    while k < d.hunks.len()
        invariant
            k <= d.hunks@.len(),
            hv == d.hunks_v(),
            hv.len() == d.hunks@.len(),
            lines_view(out@) == diff_lines_spec(hv.take(k as int)),
        decreases d.hunks@.len() - k,
    {
        let hunk = &d.hunks[k];
        let ghost h = hunk@;
        assert(hv[k as int] == h);
        let ghost start = lines_view(out@);
        let header = chars_of(hunk.header.as_str());
        let mut spans: Vec<Span> = Vec::new();
        push_span(&mut spans, crate::tui::renderer::raw_span(&header));
        let mut st: Vec<StyleTag> = Vec::new();
        st.push(StyleTag::DiffHunk);
        assert(st@ =~= seq![StyleTag::DiffHunk]);
        assert(header@ == h.header);
        assert(spans_view(spans@) =~= seq![raw(h.header)]);
        let hl = Line { spans, style: st };
        assert(hl@ =~~= LineV { spans: seq![raw(h.header)], style: seq![StyleTag::DiffHunk] });
        crate::tui::renderer::push_lines(&mut out, hl);
        let ghost f = |l: DiffLineV| {
            let (prefix, tag, text) = match l {
                DiffLineV::Context(t) => (' ', StyleTag::DiffContext, t),
                DiffLineV::Removed(t) => ('-', StyleTag::DiffRemoved, t),
                DiffLineV::Added(t) => ('+', StyleTag::DiffAdded, t),
            };
            line_of(seq![styled(seq![prefix], tag), styled(text, tag)])
        };
        let mut j: usize = 0;
        while j < hunk.lines.len()
            invariant
                j <= hunk.lines@.len(),
                h == hunk@,
                h.lines == hunk.lines@.map_values(|l: DiffLine| l@),
                f == (|l: DiffLineV| {
                    let (prefix, tag, text) = match l {
                        DiffLineV::Context(t) => (' ', StyleTag::DiffContext, t),
                        DiffLineV::Removed(t) => ('-', StyleTag::DiffRemoved, t),
                        DiffLineV::Added(t) => ('+', StyleTag::DiffAdded, t),
                    };
                    line_of(seq![styled(seq![prefix], tag), styled(text, tag)])
                }),
                lines_view(out@) == start + seq![LineV { spans: seq![raw(h.header)], style: seq![StyleTag::DiffHunk] }]
                    + h.lines.take(j as int).map_values(f),
            decreases hunk.lines@.len() - j,
        {
            let (prefix, tag, text): (char, StyleTag, &String) = match &hunk.lines[j] {
                DiffLine::Context(t) => (' ', StyleTag::DiffContext, t),
                DiffLine::Removed(t) => ('-', StyleTag::DiffRemoved, t),
                DiffLine::Added(t) => ('+', StyleTag::DiffAdded, t),
            };
            let p: Vec<char> = vec![prefix];
            let tc = chars_of(text.as_str());
            let mut spans: Vec<Span> = Vec::new();
            push_span(&mut spans, styled_span(&p, tag));
            push_span(&mut spans, styled_span(&tc, tag));
            let ghost prev = lines_view(out@);
            push_plain_line(&mut out, spans);
            proof {
                assert(h.lines[j as int] == hunk.lines@[j as int]@);
                assert(p@ =~= seq![prefix]);
                assert(spans_view(spans@) =~= f(h.lines[j as int]).spans);
                assert(h.lines.take(j + 1).map_values(f) =~= h.lines.take(j as int).map_values(f).push(f(h.lines[j as int])));
                assert(lines_view(out@) =~= prev.push(f(h.lines[j as int])));
            }
            j += 1;
        }
        proof {
            assert(h.lines.take(j as int) =~= h.lines);
            assert(hv.take(k + 1).drop_last() =~= hv.take(k as int));
            assert(hv.take(k + 1).last() == h);
            assert(hunk_lines(h) =~= seq![LineV { spans: seq![raw(h.header)], style: seq![StyleTag::DiffHunk] }] + h.lines.map_values(f));
            assert(lines_view(out@) =~= start + hunk_lines(h));
        }
        k += 1;
    }
    assert(hv.take(k as int) =~= hv);
    out
}

/// The header of a tool hint: glyph and name in the status style, the
/// summary, then (once finished) the duration and the output preview.
pub open spec fn tool_header_spec(t: ToolCall, spinner: char) -> LineV {
    let (glyph, tag) = match t.status {
        ToolStatus::Running => (spinner, StyleTag::ToolRunning),
        ToolStatus::Done => ('\u{2713}', StyleTag::ToolDone),
        ToolStatus::Error => ('\u{2717}', StyleTag::ToolError),
    };
    let base = seq![
        styled(seq![glyph, ' '] + t.name@ + seq![' '], tag),
        styled(t.summary@, StyleTag::Text),
    ];
    let with_time = if t.status != ToolStatus::Running {
        base.push(styled(seq![' ', '\u{b7}', ' '] + decimal(t.duration_ms as nat) + seq!['m', 's'], StyleTag::Dim))
    } else {
        base
    };
    let spans = match t.output {
        Some(out) => if t.status != ToolStatus::Running {
            with_time.push(styled(seq![' ', '\u{b7}', ' '] + out@, StyleTag::ToolOutput))
        } else {
            with_time
        },
        None => with_time,
    };
    line_of(spans)
}

/// The header line of a tool hint.
pub fn tool_header(t: &ToolCall, spinner: char) -> (l: Line)
    ensures
        l@ == tool_header_spec(*t, spinner),
{
    let (glyph, tag) = match t.status {
        ToolStatus::Running => (spinner, StyleTag::ToolRunning),
        ToolStatus::Done => ('\u{2713}', StyleTag::ToolDone),
        ToolStatus::Error => ('\u{2717}', StyleTag::ToolError),
    };
    let mut first: Vec<char> = vec![glyph, ' '];
    let name = chars_of(t.name);
    extend_all(&mut first, &name);
    first.push(' ');
    let summary = chars_of(t.summary.as_str());
    let mut spans: Vec<Span> = Vec::new();
    push_span(&mut spans, styled_span(&first, tag));
    push_span(&mut spans, styled_span(&summary, StyleTag::Text));
    assert(first@ =~= seq![glyph, ' '] + t.name@ + seq![' ']);
    let running = t.status == ToolStatus::Running;
    if !running {
        let mut time: Vec<char> = vec![' ', '\u{b7}', ' '];
        let ms = decimal_exec(t.duration_ms);
        extend_all(&mut time, &ms);
        time.push('m');
        time.push('s');
        push_span(&mut spans, styled_span(&time, StyleTag::Dim));
        assert(time@ =~= seq![' ', '\u{b7}', ' '] + decimal(t.duration_ms as nat) + seq!['m', 's']);
    }
    match &t.output {
        Some(out) => {
            if !running {
                let mut o: Vec<char> = vec![' ', '\u{b7}', ' '];
                let oc = chars_of(out.as_str());
                extend_all(&mut o, &oc);
                push_span(&mut spans, styled_span(&o, StyleTag::ToolOutput));
                assert(o@ =~= seq![' ', '\u{b7}', ' '] + out@);
            }
        },
        None => {},
    }
    let l = Line { spans, style: Vec::new() };
    assert(l@.spans =~= tool_header_spec(*t, spinner).spans);
    assert(l@.style =~= Seq::<StyleTag>::empty());
    l
}

// ---------------------------------------------------------------------------
// headers of reasoning and subagent hints
// ---------------------------------------------------------------------------

/// `" · "`.
pub open spec fn dot_sep() -> Seq<char> {
    seq![' ', '\u{b7}', ' ']
}

/// The header of a reasoning hint, with `secs` the text of its duration in
/// seconds: the spinner (or a rule once done) and `thinking`, the duration,
/// the digest cut to 60 columns, and a closing rule once done.
pub open spec fn thinking_header_spec(t: Thinking, spinner: char, secs: Seq<char>) -> LineV {
    let think = seq![' ', 't', 'h', 'i', 'n', 'k', 'i', 'n', 'g'];
    let first = match t.state {
        ThinkingState::Running => styled(seq![spinner] + think, StyleTag::Thinking),
        ThinkingState::Done => styled(seq!['\u{2500}'] + think, StyleTag::Thinking),
    };
    let base = seq![first, styled(dot_sep() + secs + seq!['s'], StyleTag::Dim)];
    let with_digest = match t.digest {
        Some(d) => base.push(styled(dot_sep() + truncate_spec(d@, 60), StyleTag::Dim)),
        None => base,
    };
    line_of(
        if t.state == ThinkingState::Done {
            with_digest.push(styled(seq![' ', '\u{2500}'], StyleTag::Thinking))
        } else {
            with_digest
        },
    )
}

/// The header line of a reasoning hint, with `secs` the text of its
/// duration in seconds.
pub fn thinking_header(t: &Thinking, spinner: char, secs: &str) -> (l: Line)
    ensures
        l@ == thinking_header_spec(*t, spinner, secs@),
{
    let mut spans: Vec<Span> = Vec::new();
    let lead: char = match t.state {
        ThinkingState::Running => spinner,
        ThinkingState::Done => '\u{2500}',
    };
    let mut first: Vec<char> = Vec::new();
    first.push(lead);
    let think: Vec<char> = vec![' ', 't', 'h', 'i', 'n', 'k', 'i', 'n', 'g'];
    extend_all(&mut first, &think);
    assert(first@ =~= seq![lead] + seq![' ', 't', 'h', 'i', 'n', 'k', 'i', 'n', 'g']);
    push_span(&mut spans, styled_span(&first, StyleTag::Thinking));
    let mut time: Vec<char> = vec![' ', '\u{b7}', ' '];
    let sc = chars_of(secs);
    extend_all(&mut time, &sc);
    time.push('s');
    push_span(&mut spans, styled_span(&time, StyleTag::Dim));
    assert(time@ =~= dot_sep() + secs@ + seq!['s']);
    match &t.digest {
        Some(d) => {
            let cut = truncate(d.as_str(), 60);
            let mut dg: Vec<char> = vec![' ', '\u{b7}', ' '];
            let dc = chars_of(cut.as_str());
            extend_all(&mut dg, &dc);
            push_span(&mut spans, styled_span(&dg, StyleTag::Dim));
            assert(dg@ =~= dot_sep() + truncate_spec(d@, 60));
        },
        None => {},
    }
    if t.state == ThinkingState::Done {
        let close: Vec<char> = vec![' ', '\u{2500}'];
        push_span(&mut spans, styled_span(&close, StyleTag::Thinking));
    }
    let l = Line { spans, style: Vec::new() };
    assert(l@.spans =~= thinking_header_spec(*t, spinner, secs@).spans);
    assert(l@.style =~= Seq::<StyleTag>::empty());
    l
}

/// The header of a subagent hint, with `secs` the text of its duration in
/// seconds: glyph and name in the status style, the task in brackets, and
/// once finished the duration and the result.
pub open spec fn subagent_header_spec<L>(a: SubAgent<L>, spinner: char, secs: Seq<char>) -> LineV {
    let (glyph, tag) = match a.status {
        SubAgentStatus::Running => (spinner, StyleTag::ToolRunning),
        SubAgentStatus::Done => ('\u{2713}', StyleTag::ToolDone),
        SubAgentStatus::Error => ('\u{2717}', StyleTag::ToolError),
    };
    let base = seq![
        styled(seq![glyph, ' '] + a.name@ + seq![' '], tag),
        styled(seq!['('] + a.task@ + seq![')'], StyleTag::Text),
    ];
    let with_time = if a.status != SubAgentStatus::Running {
        base.push(styled(dot_sep() + secs + seq!['s'], StyleTag::Dim))
    } else {
        base
    };
    line_of(
        match a.result {
            Some(r) => if a.status != SubAgentStatus::Running {
                with_time.push(styled(dot_sep() + r@, StyleTag::ToolOutput))
            } else {
                with_time
            },
            None => with_time,
        },
    )
}

/// The header line of a subagent hint, with `secs` the text of its
/// duration in seconds.
pub fn subagent_header<L>(a: &SubAgent<L>, spinner: char, secs: &str) -> (l: Line)
    ensures
        l@ == subagent_header_spec(*a, spinner, secs@),
{
    let (glyph, tag) = match a.status {
        SubAgentStatus::Running => (spinner, StyleTag::ToolRunning),
        SubAgentStatus::Done => ('\u{2713}', StyleTag::ToolDone),
        SubAgentStatus::Error => ('\u{2717}', StyleTag::ToolError),
    };
    let mut spans: Vec<Span> = Vec::new();
    let mut first: Vec<char> = vec![glyph, ' '];
    let name = chars_of(a.name.as_str());
    extend_all(&mut first, &name);
    first.push(' ');
    push_span(&mut spans, styled_span(&first, tag));
    assert(first@ =~= seq![glyph, ' '] + a.name@ + seq![' ']);
    let mut task: Vec<char> = vec!['('];
    let tc = chars_of(a.task.as_str());
    extend_all(&mut task, &tc);
    task.push(')');
    push_span(&mut spans, styled_span(&task, StyleTag::Text));
    assert(task@ =~= seq!['('] + a.task@ + seq![')']);
    let running = a.status == SubAgentStatus::Running;
    if !running {
        let mut time: Vec<char> = vec![' ', '\u{b7}', ' '];
        let sc = chars_of(secs);
        extend_all(&mut time, &sc);
        time.push('s');
        push_span(&mut spans, styled_span(&time, StyleTag::Dim));
        assert(time@ =~= dot_sep() + secs@ + seq!['s']);
    }
    match &a.result {
        Some(r) => {
            if !running {
                let mut o: Vec<char> = vec![' ', '\u{b7}', ' '];
                let rc = chars_of(r.as_str());
                extend_all(&mut o, &rc);
                push_span(&mut spans, styled_span(&o, StyleTag::ToolOutput));
                assert(o@ =~= dot_sep() + r@);
            }
        },
        None => {},
    }
    let l = Line { spans, style: Vec::new() };
    assert(l@.spans =~= subagent_header_spec(*a, spinner, secs@).spans);
    assert(l@.style =~= Seq::<StyleTag>::empty());
    l
}

// ---------------------------------------------------------------------------
// layout of activities into rows and clickable ranges
// ---------------------------------------------------------------------------

/// `f` gives the text of a duration in seconds for every duration, the same
/// text each time. (Durations are shown with one decimal, which the host
/// formats.)
pub open spec fn gives_seconds<F: Fn(u64) -> String>(f: F) -> bool {
    &&& forall|ms: u64| #[trigger] f.requires((ms,))
    &&& forall|ms: u64, a: String, b: String|
        #![trigger f.ensures((ms,), a), f.ensures((ms,), b)]
        f.ensures((ms,), a) && f.ensures((ms,), b) ==> a@ == b@
}

/// The text `f` gives a duration (none when it gives nothing).
pub open spec fn seconds_of<F: Fn(u64) -> String>(f: F, ms: u64) -> Seq<char> {
    if exists|a: String| f.ensures((ms,), a) {
        (choose|a: String| f.ensures((ms,), a))@
    } else {
        Seq::empty()
    }
}

/// The seconds text of every duration, as a spec function.
pub open spec fn seconds_spec<F: Fn(u64) -> String>(f: F) -> spec_fn(u64) -> Seq<char> {
    |ms: u64| seconds_of(f, ms)
}

proof fn lemma_seconds_of<F: Fn(u64) -> String>(f: F, ms: u64, a: String)
    requires
        gives_seconds(f),
        f.ensures((ms,), a),
    ensures
        seconds_spec(f)(ms) == a@,
{
    let c = choose|c: String| f.ensures((ms,), c);
    assert(f.ensures((ms,), c));
}

/// `r` renders every reply text to lines, the same lines for the same text.
pub open spec fn gives_lines<R: Fn(String) -> Vec<Line>>(r: R) -> bool {
    &&& forall|t: String| #[trigger] r.requires((t,))
    &&& forall|t1: String, t2: String, a: Vec<Line>, b: Vec<Line>|
        #![trigger r.ensures((t1,), a), r.ensures((t2,), b)]
        t1@ == t2@ && r.ensures((t1,), a) && r.ensures((t2,), b) ==> lines_view(a@) == lines_view(b@)
}

/// The lines `r` renders a reply text to (none when it renders nothing).
pub open spec fn reply_lines_of<R: Fn(String) -> Vec<Line>>(r: R, text: Seq<char>) -> Seq<LineV> {
    if exists|t: String, a: Vec<Line>| t@ == text && r.ensures((t,), a) {
        let (t, a) = choose|t: String, a: Vec<Line>| t@ == text && r.ensures((t,), a);
        lines_view(a@)
    } else {
        Seq::empty()
    }
}

/// The reply lines of every text, as a spec function.
pub open spec fn replies_spec<R: Fn(String) -> Vec<Line>>(r: R) -> spec_fn(Seq<char>) -> Seq<LineV> {
    |text: Seq<char>| reply_lines_of(r, text)
}

proof fn lemma_reply_lines_of<R: Fn(String) -> Vec<Line>>(r: R, t: String, a: Vec<Line>)
    requires
        gives_lines(r),
        r.ensures((t,), a),
    ensures
        replies_spec(r)(t@) == lines_view(a@),
{
    let (t2, b) = choose|t2: String, b: Vec<Line>| t2@ == t@ && r.ensures((t2,), b);
    assert(r.ensures((t2,), b));
}

/// The header of any hint, with `sec` the seconds text of a duration.
pub open spec fn header_spec(a: Activity<Line>, spinner: char, sec: spec_fn(u64) -> Seq<char>) -> LineV {
    match a.kind {
        ActivityKind::Thinking(t) => thinking_header_spec(t, spinner, sec(t.duration_ms)),
        ActivityKind::Tool(t) => tool_header_spec(t, spinner),
        ActivityKind::SubAgent(x) => subagent_header_spec(x, spinner, sec(x.duration_ms)),
        ActivityKind::Todo(t) => todo_header_spec(t, spinner),
        ActivityKind::Diff(d) => diff_header_spec(d),
    }
}

/// A line indented by two steps (four spaces, with no line style).
pub open spec fn indented(l: LineV) -> LineV {
    line_of(seq![styled(spaces(4), StyleTag::ToolOutput)] + l.spans)
}

/// Lines indented by two steps.
pub open spec fn indent_all(ls: Seq<LineV>) -> Seq<LineV> {
    ls.map_values(|l: LineV| indented(l))
}

/// Every diff in the hint (and in nested transcripts) counts its lines
/// within `usize`.
pub open spec fn act_fits(a: Activity<Line>) -> bool
    decreases a, 0int,
{
    match a.kind {
        ActivityKind::Diff(d) => all_lines(d.hunks_v()) <= usize::MAX,
        ActivityKind::SubAgent(x) => list_fits(x.transcript@, 0),
        _ => true,
    }
}

/// Every hint of `ts[i..]` fits (see [`act_fits`]).
pub open spec fn list_fits(ts: Seq<Activity<Line>>, i: int) -> bool
    decreases ts, ts.len() - i,
{
    if i < 0 || i >= ts.len() {
        true
    } else {
        act_fits(ts[i]) && list_fits(ts, i + 1)
    }
}

/// The rows of a hint: its header, and when expanded its content (a
/// subagent: the rows of its transcript and its reply), indented.
pub open spec fn act_rows(
    a: Activity<Line>,
    spinner: char,
    sec: spec_fn(u64) -> Seq<char>,
    rep: spec_fn(Seq<char>) -> Seq<LineV>,
) -> Seq<LineV>
    decreases a, 0int,
{
    seq![header_spec(a, spinner, sec)] + if a.expanded {
        match a.kind {
            ActivityKind::SubAgent(x) => indent_all(list_rows(x.transcript@, 0, spinner, sec, rep))
                + if x.reply@.len() > 0 {
                indent_all(rep(x.reply@))
            } else {
                Seq::empty()
            },
            _ => indent_all(lines_view(a.content@)),
        }
    } else {
        Seq::empty()
    }
}

/// The rows of the hints `ts[i..]`, one after the other.
pub open spec fn list_rows(
    ts: Seq<Activity<Line>>,
    i: int,
    spinner: char,
    sec: spec_fn(u64) -> Seq<char>,
    rep: spec_fn(Seq<char>) -> Seq<LineV>,
) -> Seq<LineV>
    decreases ts, ts.len() - i,
{
    if i < 0 || i >= ts.len() {
        Seq::empty()
    } else {
        act_rows(ts[i], spinner, sec, rep) + list_rows(ts, i + 1, spinner, sec, rep)
    }
}

/// The view of a clickable row range.
pub struct RangeV {
    pub start: int,
    pub end: int,
    pub message: int,
    pub path: Seq<usize>,
    pub is_tool: bool,
}

/// The view of a clickable row range.
pub open spec fn range_view(r: ActivityRowRange) -> RangeV {
    RangeV { start: r.start as int, end: r.end as int, message: r.message as int, path: r.path@, is_tool: r.is_tool }
}

/// Views of clickable row ranges.
pub open spec fn ranges_view(rs: Seq<ActivityRowRange>) -> Seq<RangeV> {
    rs.map_values(|r: ActivityRowRange| range_view(r))
}

/// The clickable ranges of a hint laid out from row `base` at `path`: those
/// of its visible nested hints, then its own, over all its rows.
pub open spec fn act_ranges(
    a: Activity<Line>,
    path: Seq<usize>,
    message: int,
    base: int,
    spinner: char,
    sec: spec_fn(u64) -> Seq<char>,
    rep: spec_fn(Seq<char>) -> Seq<LineV>,
) -> Seq<RangeV>
    decreases a, 0int,
{
    let nested = if a.expanded {
        match a.kind {
            ActivityKind::SubAgent(x) => list_ranges(x.transcript@, 0, path, message, base + 1, spinner, sec, rep),
            _ => Seq::empty(),
        }
    } else {
        Seq::empty()
    };
    nested.push(
        RangeV {
            start: base,
            end: base + act_rows(a, spinner, sec, rep).len(),
            message,
            path,
            is_tool: a.kind is Tool,
        },
    )
}

/// The clickable ranges of the hints `ts[i..]` laid out from row `cursor`,
/// hint `j` at `path` followed by `j`.
pub open spec fn list_ranges(
    ts: Seq<Activity<Line>>,
    i: int,
    path: Seq<usize>,
    message: int,
    cursor: int,
    spinner: char,
    sec: spec_fn(u64) -> Seq<char>,
    rep: spec_fn(Seq<char>) -> Seq<LineV>,
) -> Seq<RangeV>
    decreases ts, ts.len() - i,
{
    if i < 0 || i >= ts.len() {
        Seq::empty()
    } else {
        act_ranges(ts[i], path.push(i as usize), message, cursor, spinner, sec, rep) + list_ranges(
            ts,
            i + 1,
            path,
            message,
            cursor + act_rows(ts[i], spinner, sec, rep).len(),
            spinner,
            sec,
            rep,
        )
    }
}

/// The header line of any hint.
fn header_for<F: Fn(u64) -> String>(a: &Activity<Line>, spinner: char, secs: &F) -> (l: Line)
    requires
        gives_seconds(*secs),
        act_fits(*a),
    ensures
        l@ == header_spec(*a, spinner, seconds_spec(*secs)),
{
    match &a.kind {
        ActivityKind::Thinking(t) => {
            let st = secs(t.duration_ms);
            proof {
                lemma_seconds_of(*secs, t.duration_ms, st);
            }
            thinking_header(t, spinner, st.as_str())
        },
        ActivityKind::Tool(t) => tool_header(t, spinner),
        ActivityKind::SubAgent(x) => {
            let st = secs(x.duration_ms);
            proof {
                lemma_seconds_of(*secs, x.duration_ms, st);
            }
            subagent_header(x, spinner, st.as_str())
        },
        ActivityKind::Todo(t) => todo_header(t, spinner),
        ActivityKind::Diff(d) => diff_header(d),
    }
}

/// A line indented by two steps.
fn indent_line(l: &Line) -> (r: Line)
    ensures
        r@ == indented(l@),
{
    let pad: Vec<char> = vec![' ', ' ', ' ', ' '];
    assert(pad@ =~= spaces(4));
    let mut spans: Vec<Span> = Vec::new();
    push_span(&mut spans, styled_span(&pad, StyleTag::ToolOutput));
    let c = copy_line(l);
    let Line { spans: rest, style: _ } = c;
    let mut k: usize = 0;
    let ghost start = spans_view(spans@);
    while k < rest.len()
        invariant
            k <= rest@.len(),
            spans_view(rest@) == l@.spans,
            spans_view(spans@) == start + spans_view(rest@).take(k as int),
        decreases rest@.len() - k,
    {
        let sp = Span { content: rest[k].content.clone(), style: crate::tui::renderer::copy_tags(&rest[k].style) };
        assert(sp@ == rest@[k as int]@);
        push_span(&mut spans, sp);
        assert(spans_view(rest@).take(k + 1) =~= spans_view(rest@).take(k as int).push(rest@[k as int]@));
        k += 1;
    }
    assert(spans_view(rest@).take(k as int) =~= spans_view(rest@));
    let r = Line { spans, style: Vec::new() };
    assert(r@.spans =~= indented(l@).spans);
    assert(r@.style =~= Seq::<StyleTag>::empty());
    r
}

/// Append the lines `ls`, indented, to `rows`.
fn push_indented(rows: &mut Vec<Line>, ls: &Vec<Line>)
    ensures
        lines_view(final(rows)@) == lines_view(old(rows)@) + indent_all(lines_view(ls@)),
{
    let ghost start = lines_view(rows@);
    let mut k: usize = 0;
    while k < ls.len()
        invariant
            k <= ls@.len(),
            lines_view(rows@) == start + indent_all(lines_view(ls@)).take(k as int),
        decreases ls@.len() - k,
    {
        let l = indent_line(&ls[k]);
        let ghost before = rows@;
        rows.push(l);
        assert(lines_view(rows@) =~= lines_view(before).push(l@));
        assert(indent_all(lines_view(ls@)).take(k + 1) =~= indent_all(lines_view(ls@)).take(k as int).push(
            indented(ls@[k as int]@),
        ));
        k += 1;
    }
    assert(indent_all(lines_view(ls@)).take(k as int) =~= indent_all(lines_view(ls@)));
}

/// A copy of a path with `i` added.
fn path_with(path: &Vec<usize>, i: usize) -> (r: Vec<usize>)
    ensures
        r@ == path@.push(i),
{
    let mut r: Vec<usize> = Vec::new();
    let mut k: usize = 0;
    while k < path.len()
        invariant
            k <= path@.len(),
            r@ == path@.take(k as int),
        decreases path@.len() - k,
    {
        r.push(path[k]);
        assert(path@.take(k + 1) =~= path@.take(k as int).push(path@[k as int]));
        k += 1;
    }
    assert(path@.take(k as int) =~= path@);
    r.push(i);
    r
}

/// A copy of a path.
fn copy_path(path: &Vec<usize>) -> (r: Vec<usize>)
    ensures
        r@ == path@,
{
    let mut r: Vec<usize> = Vec::new();
    let mut k: usize = 0;
    while k < path.len()
        invariant
            k <= path@.len(),
            r@ == path@.take(k as int),
        decreases path@.len() - k,
    {
        r.push(path[k]);
        assert(path@.take(k + 1) =~= path@.take(k as int).push(path@[k as int]));
        k += 1;
    }
    assert(path@.take(k as int) =~= path@);
    r
}

/// Lay out one hint from row `base_row` at `path`: its rows and the
/// clickable ranges of it and its visible nested hints.
fn layout_one<F: Fn(u64) -> String, R: Fn(String) -> Vec<Line>>(
    act: &Activity<Line>,
    path: &Vec<usize>,
    message: usize,
    base_row: u16,
    spinner: char,
    secs: &F,
    reply: &R,
) -> (r: (Vec<Line>, Vec<ActivityRowRange>))
    requires
        gives_seconds(*secs),
        gives_lines(*reply),
        act_fits(*act),
        base_row + act_rows(*act, spinner, seconds_spec(*secs), replies_spec(*reply)).len() <= u16::MAX,
    ensures
        lines_view(r.0@) == act_rows(*act, spinner, seconds_spec(*secs), replies_spec(*reply)),
        ranges_view(r.1@) == act_ranges(
            *act,
            path@,
            message as int,
            base_row as int,
            spinner,
            seconds_spec(*secs),
            replies_spec(*reply),
        ),
    decreases act, 0nat,
{
    let ghost sec = seconds_spec(*secs);
    let ghost rep = replies_spec(*reply);
    let mut rows: Vec<Line> = Vec::new();
    let h = header_for(act, spinner, secs);
    rows.push(h);
    assert(lines_view(rows@) =~= seq![header_spec(*act, spinner, sec)]);
    let mut ranges: Vec<ActivityRowRange> = Vec::new();
    if act.expanded {
        match &act.kind {
            ActivityKind::SubAgent(x) => {
                assert(decreases_to!(act => x.transcript@));
                let (nested, nr) = layout_list(
                    x.transcript.as_slice(),
                    path,
                    message,
                    base_row + 1,
                    spinner,
                    secs,
                    reply,
                );
                push_indented(&mut rows, &nested);
                ranges = nr;
                if !x.reply.as_str().is_empty() {
                    let t = x.reply.clone();
                    let ghost tg = t;
                    let lines = reply(t);
                    proof {
                        lemma_reply_lines_of(*reply, tg, lines);
                    }
                    push_indented(&mut rows, &lines);
                } else {
                    assert(lines_view(rows@) =~= lines_view(rows@) + Seq::<LineV>::empty());
                }
            },
            _ => {
                push_indented(&mut rows, &act.content);
            },
        }
    }
    assert(lines_view(rows@) == act_rows(*act, spinner, sec, rep));
    let end = base_row + rows.len() as u16;
    let p = copy_path(path);
    let is_tool = match &act.kind {
        ActivityKind::Tool(_) => true,
        _ => false,
    };
    let ghost before = ranges@;
    ranges.push(ActivityRowRange { start: base_row, end, message, path: p, is_tool });
    assert(ranges_view(ranges@) =~= ranges_view(before).push(range_view(ranges@.last())));
    (rows, ranges)
}

/// Lay out the hints `ts` from row `base_row`, hint `j` at `path` followed
/// by `j`.
fn layout_list<F: Fn(u64) -> String, R: Fn(String) -> Vec<Line>>(
    ts: &[Activity<Line>],
    path: &Vec<usize>,
    message: usize,
    base_row: u16,
    spinner: char,
    secs: &F,
    reply: &R,
) -> (r: (Vec<Line>, Vec<ActivityRowRange>))
    requires
        gives_seconds(*secs),
        gives_lines(*reply),
        list_fits(ts@, 0),
        base_row + list_rows(ts@, 0, spinner, seconds_spec(*secs), replies_spec(*reply)).len() <= u16::MAX,
    ensures
        lines_view(r.0@) == list_rows(ts@, 0, spinner, seconds_spec(*secs), replies_spec(*reply)),
        ranges_view(r.1@) == list_ranges(
            ts@,
            0,
            path@,
            message as int,
            base_row as int,
            spinner,
            seconds_spec(*secs),
            replies_spec(*reply),
        ),
    decreases ts@, 1nat,
{
    let ghost sec = seconds_spec(*secs);
    let ghost rep = replies_spec(*reply);
    let mut rows: Vec<Line> = Vec::new();
    let mut ranges: Vec<ActivityRowRange> = Vec::new();
    let mut cursor: u16 = base_row;
    let mut i: usize = 0;
    assert(lines_view(rows@) =~= Seq::<LineV>::empty());
    assert(ranges_view(ranges@) =~= Seq::<RangeV>::empty());
    while i < ts.len()
        invariant
            i <= ts@.len(),
            gives_seconds(*secs),
            gives_lines(*reply),
            sec == seconds_spec(*secs),
            rep == replies_spec(*reply),
            list_fits(ts@, i as int),
            lines_view(rows@) + list_rows(ts@, i as int, spinner, sec, rep) == list_rows(ts@, 0, spinner, sec, rep),
            ranges_view(ranges@) + list_ranges(ts@, i as int, path@, message as int, cursor as int, spinner, sec, rep)
                == list_ranges(ts@, 0, path@, message as int, base_row as int, spinner, sec, rep),
            cursor as int + list_rows(ts@, i as int, spinner, sec, rep).len() <= u16::MAX,
        decreases ts@.len() - i,
    {
        assert(decreases_to!(ts@ => ts@[i as int]));
        let p = path_with(path, i);
        let (lines, mut local) = layout_one(&ts[i], &p, message, cursor, spinner, secs, reply);
        let n = lines.len();
        let ghost rv = ranges@;
        let ghost lv = local@;
        let ghost rows0 = lines_view(rows@);
        append_lines(&mut rows, lines);
        ranges.append(&mut local);
        proof {
            assert(ranges@ == rv + lv);
            assert(ranges_view(ranges@) =~= ranges_view(rv) + ranges_view(lv));
            assert(lines_view(rows@) == rows0 + act_rows(ts@[i as int], spinner, sec, rep));
        }
        cursor = cursor + n as u16;
        i += 1;
    }
    (rows, ranges)
}

/// Lay out the hints of message `message` from document row `base_row`:
/// their rows, and the clickable range of every visible hint (nested ones
/// included), addressed by its path. `secs` gives the text of a duration in
/// seconds and `render_reply` the lines of a subagent's reply.
pub fn layout_activities<F: Fn(u64) -> String, R: Fn(String) -> Vec<Line>>(
    message: usize,
    base_row: u16,
    acts: &[Activity<Line>],
    spinner: char,
    secs: &F,
    render_reply: &R,
) -> (r: (Vec<Line>, Vec<ActivityRowRange>))
    requires
        gives_seconds(*secs),
        gives_lines(*render_reply),
        list_fits(acts@, 0),
        base_row + list_rows(acts@, 0, spinner, seconds_spec(*secs), replies_spec(*render_reply)).len()
            <= u16::MAX,
    ensures
        lines_view(r.0@) == list_rows(acts@, 0, spinner, seconds_spec(*secs), replies_spec(*render_reply)),
        ranges_view(r.1@) == list_ranges(
            acts@,
            0,
            Seq::empty(),
            message as int,
            base_row as int,
            spinner,
            seconds_spec(*secs),
            replies_spec(*render_reply),
        ),
{
    let p: Vec<usize> = Vec::new();
    assert(p@ =~= Seq::<usize>::empty());
    layout_list(acts, &p, message, base_row, spinner, secs, render_reply)
}

/// No reply lines, for any text.
pub open spec fn no_reply() -> spec_fn(Seq<char>) -> Seq<LineV> {
    |t: Seq<char>| Seq::<LineV>::empty()
}

/// The lines of one hint on its own, subagent replies left out. `secs`
/// gives the text of a duration in seconds.
pub fn activity_lines<F: Fn(u64) -> String>(h: &Activity<Line>, spinner: char, secs: &F) -> (r: Vec<Line>)
    requires
        gives_seconds(*secs),
        act_fits(*h),
        act_rows(*h, spinner, seconds_spec(*secs), no_reply()).len() <= u16::MAX,
    ensures
        lines_view(r@) == act_rows(*h, spinner, seconds_spec(*secs), no_reply()),
{
    let none = |t: String| -> (v: Vec<Line>)
        ensures
            v@.len() == 0,
        { Vec::new() };
    proof {
        assert forall|t1: String, t2: String, a: Vec<Line>, b: Vec<Line>|
            t1@ == t2@ && none.ensures((t1,), a) && none.ensures((t2,), b) implies lines_view(a@)
            == lines_view(b@) by {
            assert(lines_view(a@) =~= lines_view(b@));
        }
        assert forall|text: Seq<char>| #[trigger] replies_spec(none)(text) == no_reply()(text) by {
            if exists|t: String, a: Vec<Line>| t@ == text && none.ensures((t,), a) {
                let (t, a) = choose|t: String, a: Vec<Line>| t@ == text && none.ensures((t,), a);
                assert(lines_view(a@) =~= Seq::<LineV>::empty());
            }
        }
        assert(replies_spec(none) =~= no_reply());
    }
    let mut p: Vec<usize> = Vec::new();
    p.push(0);
    let (rows, _ranges) = layout_one(h, &p, 0, 0, spinner, secs, &none);
    rows
}

} // verus!
