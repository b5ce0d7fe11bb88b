//! The scripted agent turn of the chat: its phases, the hints each step
//! shows and the reply that streams at the end.
use vstd::prelude::*;
use crate::tui::activities::{
    spinner, todo_lines, todo_lines_spec, Activity, ActivityKind, Diff, SubAgent, SubAgentStatus,
    Thinking, ThinkingState, TodoItem, TodoList, TodoStatus, ToolCall, ToolStatus, SPINNERS,
};
use crate::tui::activities::{diff_fold, diff_lines, diff_lines_spec, text_lines};
use crate::tui::renderer::{line_of, lines_view, raw, Line, LineV, Span};
use crate::bytes::{byte_offset, lemma_byte_offset_end, lemma_byte_offset_mono, lemma_byte_offset_step, utf8_len, utf8_width};
use crate::text::{chars_of, sub_vec};
use vstd::string::StringSliceAdditionalSpecFns;

verus! {

/// How long the first reasoning stage runs.
pub const THINK_MS: u64 = 1400;

/// How long the exploring subagent runs.
pub const EXPLORE_MS: u64 = 1200;

/// How long the test run takes.
pub const TEST_MS: u64 = 900;

/// How long the edit takes.
pub const EDIT_MS: u64 = 700;

/// How long the composing stage runs.
pub const COMPOSE_MS: u64 = 800;

/// Reasoning of the first stage.
pub const REASONING_UNDERSTAND: [&'static str; 4] = [
    "Let me check how the pipeline is structured.",
    "The document is split into stable blocks by blank lines and fences.",
    "Only the trailing block needs re-parsing as new chunks arrive.",
    "Preprocessing self-heals incomplete syntax on that block.",
];

/// Reasoning of the composing stage.
pub const REASONING_COMPOSE: [&'static str; 2] = [
    "The checks passed — composing the final answer as markdown.",
    "Summarizing the architecture and the verification results.",
];

/// The test run's output, line by line.
pub const TEST_OUTPUT: [&'static str; 4] = [
    "$ cargo test -p rsmarkdown-core",
    "running 54 tests",
    "test result: ok. 54 passed; 0 failed; 0 ignored; 0 measured; 0 filtered out",
    "finished in 0.02s",
];

/// The subagent's reasoning.
pub const SCAN_NOTES: [&'static str; 2] = [
    "Looking for parse_markdown_into_blocks…",
    "Fence tracking is line-based.",
];

/// The subagent's search output.
pub const GREP_OUTPUT: [&'static str; 2] = [
    "$ grep -n parse_markdown_into_blocks crates/core/src/blocks.rs",
    "blocks.rs:24: pub fn parse_markdown_into_blocks",
];

/// The subagent's markdown reply.
pub const EXPLORE_REPLY: &'static str = "Found it — `parse_markdown_into_blocks` lives in `blocks.rs`:

- line-based tokenization with fence tracking
- html and math merging in the same module";

/// Where the turn stands.
#[derive(Debug, Clone, Copy, PartialEq, Eq, Structural)]
pub enum TurnPhase {
    /// The checklist is about to be shown.
    Todo,
    /// Reasoning about the request, for `elapsed_ms` so far.
    Thinking { elapsed_ms: u64 },
    /// A subagent explores the code.
    Explore { elapsed_ms: u64 },
    /// The tests run.
    Test { elapsed_ms: u64 },
    /// The file is edited.
    Edit { elapsed_ms: u64 },
    /// Reasoning about the answer.
    Compose { elapsed_ms: u64 },
    /// The reply streams in.
    Stream,
}

/// A line of `t` with no style.
pub open spec fn plain(t: Seq<char>) -> LineV {
    line_of(seq![raw(t)])
}

/// The first `n` texts as plain lines.
pub open spec fn plain_lines(ts: Seq<&'static str>, n: int) -> Seq<LineV> {
    Seq::new(n as nat, |i: int| plain(ts[i]@))
}

/// A plain line.
pub fn plain_line(t: &str) -> (l: Line)
    ensures
        l@ == plain(t@),
{
    let sp = Span { content: t.to_owned(), style: Vec::new() };
    let spans = vec![sp];
    let l = Line { spans, style: Vec::new() };
    assert(l@.spans =~= seq![raw(t@)]);
    assert(l@.style =~= Seq::<crate::tui::renderer::StyleTag>::empty());
    l
}

/// The first `n` texts as plain lines.
pub fn plain_lines_of(ts: &[&'static str], n: usize) -> (r: Vec<Line>)
    requires
        n <= ts@.len(),
    ensures
        lines_view(r@) == plain_lines(ts@, n as int),
{
    let mut out: Vec<Line> = Vec::new();
    let mut i: usize = 0;
    while i < n
        invariant
            i <= n <= ts@.len(),
            out@.len() == i,
            lines_view(out@) == plain_lines(ts@, i as int),
        decreases n - i,
    {
        let l = plain_line(ts[i]);
        let ghost prev = out@;
        out.push(l);
        assert(out@ == prev.push(l));
        assert forall|k: int| 0 <= k < i + 1 implies #[trigger] lines_view(out@)[k] == plain_lines(
            ts@,
            i + 1,
        )[k] by {
            if k < i {
                assert(out@[k] == prev[k]);
                assert(lines_view(prev)[k] == plain_lines(ts@, i as int)[k]);
            }
        }
        assert(lines_view(out@) =~= plain_lines(ts@, i + 1));
        i += 1;
    }
    out
}

/// How many of `len` reasoning lines show: `shown`, kept within one and
/// `len`.
pub open spec fn shown_count(shown: usize, len: int) -> int {
    if shown < 1 {
        1
    } else if shown > len {
        len
    } else {
        shown as int
    }
}

/// The text of an optional string.
pub open spec fn opt_text(o: Option<String>) -> Option<Seq<char>> {
    match o {
        Some(s) => Some(s@),
        None => None,
    }
}

/// A collapsed reasoning hint with the given fields and content.
pub open spec fn thinking_is(
    a: Activity<Line>,
    state: ThinkingState,
    duration: u64,
    digest: Option<Seq<char>>,
    stage: Seq<char>,
    lines: Seq<LineV>,
) -> bool {
    &&& !a.expanded
    &&& lines_view(a.content@) == lines
    &&& match a.kind {
        ActivityKind::Thinking(t) => t.state == state && t.duration_ms == duration && opt_text(
            t.digest,
        ) == digest && t.stage@ == stage,
        _ => false,
    }
}

/// A reasoning hint.
pub fn thinking_hint(
    state: ThinkingState,
    duration: u64,
    digest: Option<&str>,
    stage: &'static str,
    lines: Vec<Line>,
) -> (a: Activity<Line>)
    ensures
        thinking_is(
            a,
            state,
            duration,
            match digest {
                Some(d) => Some(d@),
                None => None,
            },
            stage@,
            lines_view(lines@),
        ),
{
    let d = match digest {
        Some(x) => Some(x.to_owned()),
        None => None,
    };
    let mut a = Activity::new(ActivityKind::Thinking(Thinking { state, duration_ms: duration, digest: d, stage }));
    a.set_content(lines);
    a
}

/// A collapsed tool hint with the given fields and content.
pub open spec fn tool_is(
    a: Activity<Line>,
    name: Seq<char>,
    status: ToolStatus,
    summary: Seq<char>,
    duration: u64,
    output: Option<Seq<char>>,
    lines: Seq<LineV>,
) -> bool {
    &&& !a.expanded
    &&& lines_view(a.content@) == lines
    &&& match a.kind {
        ActivityKind::Tool(t) => t.name@ == name && t.status == status && t.summary@ == summary
            && t.duration_ms == duration && opt_text(t.output) == output,
        _ => false,
    }
}

/// A tool hint.
pub fn tool_hint(
    name: &'static str,
    status: ToolStatus,
    summary: &str,
    duration: u64,
    output: Option<&str>,
    lines: Vec<Line>,
) -> (a: Activity<Line>)
    ensures
        tool_is(
            a,
            name@,
            status,
            summary@,
            duration,
            match output {
                Some(o) => Some(o@),
                None => None,
            },
            lines_view(lines@),
        ),
{
    let o = match output {
        Some(x) => Some(x.to_owned()),
        None => None,
    };
    let mut a = Activity::new(
        ActivityKind::Tool(ToolCall { name, status, summary: summary.to_owned(), duration_ms: duration, output: o }),
    );
    a.set_content(lines);
    a
}

/// The subagent has reached `pct` percent of its run after `e` ms. The
/// fraction is compared in integers: with a run of this length, a fraction
/// that meets a threshold exactly is the same number in binary floating
/// point, and one that misses it misses by far more than any rounding.
pub open spec fn reached(e: u64, pct: u64) -> bool {
    e * 100 >= pct * EXPLORE_MS
}

fn reached_exec(e: u64, pct: u64) -> (b: bool)
    requires
        pct <= 100,
    ensures
        b == reached(e, pct),
{
    (e as u128) * 100 >= (pct as u128) * (EXPLORE_MS as u128)
}

/// Status of the subagent's first task after `e` ms.
pub open spec fn read_status(e: u64) -> TodoStatus {
    if reached(e, 35) {
        TodoStatus::Done
    } else {
        TodoStatus::InProgress
    }
}

/// Status of the subagent's second task after `e` ms.
pub open spec fn report_status(e: u64) -> TodoStatus {
    if reached(e, 80) {
        TodoStatus::Done
    } else if reached(e, 35) {
        TodoStatus::InProgress
    } else {
        TodoStatus::Pending
    }
}

/// The subagent's checklist after `e` ms, shown with spinner frame `tick`.
pub open spec fn explore_todo_is(a: Activity<Line>, e: u64, tick: u64) -> bool {
    &&& a.expanded
    &&& match a.kind {
        ActivityKind::Todo(t) => {
            &&& t.title@ == "Explore the codebase"@
            &&& t.items@.len() == 2
            &&& t.items@[0].text@ == "Read blocks.rs"@
            &&& t.items@[0].status == read_status(e)
            &&& t.items@[1].text@ == "Report findings"@
            &&& t.items@[1].status == report_status(e)
            &&& lines_view(a.content@) == todo_lines_spec(t.items@, SPINNERS@[((tick as usize) % 10) as int])
        },
        _ => false,
    }
}

/// The subagent hint after `e` ms of its run: its checklist, from a fifth
/// of the run its reasoning (done from half), from half its search (done,
/// with output, from four fifths, having taken `grep_ms`), and once the run
/// is over its result and reply.
pub open spec fn explore_is(a: Activity<Line>, e: u64, grep_ms: u64, tick: u64) -> bool {
    &&& !a.expanded
    &&& a.content@.len() == 0
    &&& match a.kind {
        ActivityKind::SubAgent(s) => {
            let done = reached(e, 100);
            let tr = s.transcript@;
            &&& s.name@ == "explore"@
            &&& s.task@ == "Find the block splitter and its fence handling"@
            &&& s.status == (if done {
                SubAgentStatus::Done
            } else {
                SubAgentStatus::Running
            })
            &&& s.duration_ms == e
            &&& opt_text(s.result) == (if done {
                Some("found parse_markdown_into_blocks · blocks.rs:24"@)
            } else {
                None
            })
            &&& s.reply@ == (if done {
                EXPLORE_REPLY@
            } else {
                Seq::empty()
            })
            &&& tr.len() == 1 + (if reached(e, 20) {
                1int
            } else {
                0
            }) + (if reached(e, 50) {
                1int
            } else {
                0
            })
            &&& explore_todo_is(tr[0], e, tick)
            &&& reached(e, 20) ==> tr[1].expanded && thinking_is(
                Activity { expanded: false, ..tr[1] },
                if reached(e, 50) {
                    ThinkingState::Done
                } else {
                    ThinkingState::Running
                },
                e,
                Some("scanning blocks.rs"@),
                "scan"@,
                plain_lines(SCAN_NOTES@, 2),
            )
            &&& reached(e, 50) ==> tr[2].expanded && tool_is(
                Activity { expanded: false, ..tr[2] },
                "grep"@,
                if reached(e, 80) {
                    ToolStatus::Done
                } else {
                    ToolStatus::Running
                },
                "-n parse_markdown_into_blocks crates/core/src/blocks.rs"@,
                grep_ms,
                if reached(e, 80) {
                    Some("blocks.rs:24"@)
                } else {
                    None
                },
                if reached(e, 80) {
                    plain_lines(GREP_OUTPUT@, 2)
                } else {
                    Seq::empty()
                },
            )
        },
        _ => false,
    }
}

/// The subagent hint after `e` ms of its run (see [`explore_is`]).
pub fn explore_hint(e: u64, grep_ms: u64, tick: u64) -> (a: Activity<Line>)
    ensures
        explore_is(a, e, grep_ms, tick),
{
    let r35 = reached_exec(e, 35);
    let r80 = reached_exec(e, 80);
    let r20 = reached_exec(e, 20);
    let r50 = reached_exec(e, 50);
    let done = reached_exec(e, 100);
    let mut items: Vec<TodoItem> = Vec::new();
    items.push(TodoItem {
        text: "Read blocks.rs".to_owned(),
        status: if r35 {
            TodoStatus::Done
        } else {
            TodoStatus::InProgress
        },
    });
    items.push(TodoItem {
        text: "Report findings".to_owned(),
        status: if r80 {
            TodoStatus::Done
        } else if r35 {
            TodoStatus::InProgress
        } else {
            TodoStatus::Pending
        },
    });
    let todo = TodoList { title: "Explore the codebase".to_owned(), items };
    let lines = todo_lines(&todo, spinner(tick));
    let mut sub_todo = Activity::new(ActivityKind::Todo(todo));
    sub_todo.set_content(lines);
    sub_todo.expanded = true;
    let mut transcript: Vec<Activity<Line>> = Vec::new();
    transcript.push(sub_todo);
    let ghost t0 = sub_todo;
    assert(explore_todo_is(t0, e, tick));
    if r20 {
        let notes = plain_lines_of(&SCAN_NOTES, 2);
        let mut th = thinking_hint(
            if r50 {
                ThinkingState::Done
            } else {
                ThinkingState::Running
            },
            e,
            Some("scanning blocks.rs"),
            "scan",
            notes,
        );
        let ghost th0 = th;
        th.expanded = true;
        assert(Activity { expanded: false, ..th } == th0);
        transcript.push(th);
    }
    if r50 {
        let out = if r80 {
            plain_lines_of(&GREP_OUTPUT, 2)
        } else {
            let v: Vec<Line> = Vec::new();
            assert(lines_view(v@) =~= Seq::<LineV>::empty());
            v
        };
        let mut g = tool_hint(
            "grep",
            if r80 {
                ToolStatus::Done
            } else {
                ToolStatus::Running
            },
            "-n parse_markdown_into_blocks crates/core/src/blocks.rs",
            grep_ms,
            if r80 {
                Some("blocks.rs:24")
            } else {
                None
            },
            out,
        );
        let ghost g0 = g;
        g.expanded = true;
        assert(Activity { expanded: false, ..g } == g0);
        transcript.push(g);
    }
    let sa = SubAgent {
        name: "explore".to_owned(),
        status: if done {
            SubAgentStatus::Done
        } else {
            SubAgentStatus::Running
        },
        task: "Find the block splitter and its fence handling".to_owned(),
        duration_ms: e,
        result: if done {
            Some("found parse_markdown_into_blocks · blocks.rs:24".to_owned())
        } else {
            None
        },
        transcript,
        reply: if done {
            EXPLORE_REPLY.to_owned()
        } else {
            String::new()
        },
    };
    Activity::new(ActivityKind::SubAgent(sa))
}

/// The file edit of the turn, as a unified diff.
pub const DIFF_SRC: &'static str = r#"--- a/crates/core/src/blocks.rs
+++ b/crates/core/src/blocks.rs
@@ -101,7 +101,7 @@
-    if has_footnote_reference(markdown) || has_footnote_definition(markdown) {
+    if has_footnote_reference(markdown) {
         return vec![markdown.to_string()];
     }
 
     let tokens = lex_tokens(markdown);
@@ -113,7 +113,7 @@
-        if !html_stack.is_empty() {
+        if let Some(top) = html_stack.last() {
             merged[merged_len - 1].push('\n');
             merged[merged_len - 1].push_str(current);
-            if let Some(closing) = current.find("</") {
+            if current.contains("</") {
                 if let Some(rest) = current[closing + 2..].split_whitespace().next() {
                     let tag = rest.trim_end_matches(['>', '/', '\n']).to_string();
                     if let Some(top) = html_stack.last() {
                         if *top == tag {
                             html_stack.pop();
                         }
                     }
                 }
             }
         }
     }

     let mut merged: Vec<String> = Vec::new();
-    let mut html_stack: Vec<String> = Vec::new();
+    let html_stack: Vec<String> = Vec::new();
 
     for token in tokens {
         let current = token;
         let merged_len = merged.len();

         // inside an unclosed HTML block — merge with previous
-        if !html_stack.is_empty() {
+        if let Some(top) = html_stack.last() {
             merged[merged_len - 1].push('\n');
             merged[merged_len - 1].push_str(current);
-            if let Some(closing) = current.find("</") {
+            if current.contains("</") {
                 if let Some(rest) = current[closing + 2..].split_whitespace().next() {
                     let tag = rest.trim_end_matches(['>', '/', '\n']).to_string();
                     if let Some(top) = html_stack.last() {
                         if *top == tag {
                             html_stack.pop();
                         }
                     }
                 }
             }
         }
     }
}"#;

/// The reply that streams at the end of the turn.
pub const ANSWER: &'static str = "Done — here is the summary:

- The **core** pipeline re-parses only the trailing block
- Completed blocks hit the 100% LRU cache
- Tool calls and thinking are foldable hints, like a real agent session

```bash
cargo test -p rsmarkdown-core
```

**54 tests passed.** The reply itself is markdown, streamed through the same
display adapter as the markdown component.";

/// The edit hint: the turn's diff, its lines as content.
pub open spec fn diff_is(a: Activity<Line>) -> bool {
    &&& !a.expanded
    &&& match a.kind {
        ActivityKind::Diff(d) => (d.path@, d.hunks_v()) == diff_fold(text_lines(DIFF_SRC@, 0))
            && lines_view(a.content@) == diff_lines_spec(d.hunks_v()),
        _ => false,
    }
}

/// The edit hint (see [`diff_is`]).
pub fn diff_hint() -> (a: Activity<Line>)
    ensures
        diff_is(a),
{
    let d = Diff::parse_unified(DIFF_SRC);
    let lines = diff_lines(&d);
    let mut a = Activity::new(ActivityKind::Diff(d));
    a.set_content(lines);
    a
}

/// The first character index from `k` on whose byte offset in `s` is at
/// least `target` (or the end).
pub open spec fn boundary_at_least(s: Seq<char>, target: int, k: int) -> int
    decreases s.len() - k,
{
    if k >= s.len() || byte_offset(s, k) >= target {
        k
    } else {
        boundary_at_least(s, target, k + 1)
    }
}

/// How far the reply has streamed after one more step from byte offset
/// `pos`: to the first character boundary at least six bytes further, or
/// to its end.
pub open spec fn stream_index(s: Seq<char>, pos: int) -> int {
    let total = utf8_len(s);
    boundary_at_least(s, if pos + 6 < total { pos + 6 } else { total }, 0)
}

/// One streaming step from byte offset `pos`: the streamed text and its
/// end.
pub fn stream_step(pos: usize) -> (r: (Vec<char>, usize))
    ensures
        ({
            let k = stream_index(ANSWER@, pos as int);
            &&& r.0@ == ANSWER@.take(k)
            &&& r.1 as int == byte_offset(ANSWER@, k)
            &&& 0 <= k <= ANSWER@.len()
        }),
{
    let a = chars_of(ANSWER);
    let total = ANSWER.as_bytes().len();
    let target = if pos < total && total - pos > 6 {
        pos + 6
    } else {
        total
    };
    proof {
        lemma_byte_offset_end(a@);
    }
    let n = a.len();
    let mut k: usize = 0;
    let mut off: usize = 0;
    while k < n && off < target
        invariant
            n == a@.len(),
            a@ == ANSWER@,
            k <= n,
            total as int == utf8_len(a@),
            byte_offset(a@, n as int) == utf8_len(a@),
            off as int == byte_offset(a@, k as int),
            target as int == (if pos + 6 < total { pos + 6 } else { total as int }),
            boundary_at_least(a@, target as int, 0) == boundary_at_least(a@, target as int, k as int),
        decreases n - k,
    {
        let w = utf8_width(a[k]);
        proof {
            lemma_byte_offset_step(a@, k as int);
            if k + 1 < n {
                lemma_byte_offset_mono(a@, k + 1, n as int);
            }
        }
        off = off + w;
        k += 1;
    }
    let t = sub_vec(&a, 0, k);
    assert(t@ == a@.take(k as int));
    (t, off)
}

/// The byte length of the reply.
pub fn answer_len() -> (n: usize)
    ensures
        n as int == utf8_len(ANSWER@),
{
    ANSWER.as_bytes().len()
}

} // verus!
