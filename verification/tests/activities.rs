use rsmarkdown::tui::activities::{
    activity_lines, layout_activities, subagent_header, auto_expand, diff_header, diff_lines, spinner, todo_header, todo_lines, tool_header, Activity, ActivityKind,
    Diff, SubAgent, SubAgentStatus, Thinking, ThinkingState, TodoItem, TodoList, TodoStatus, ToolCall, ToolStatus,
};
use rsmarkdown::tui::renderer::{Line, Span, StyleTag};

fn text(line: &Line) -> String {
    line.spans.iter().map(|s| s.content.as_str()).collect()
}

#[test]
fn activities_spinner_cycles() {
    let a = spinner(0);
    let b = spinner(1);
    assert_ne!(a, b);
    assert_eq!(spinner(10), a, "cycles after full rotation");
}

#[test]
fn todo_lifecycle_and_rendering() {
    let mut todo = TodoList {
        title: "Fix".to_string(),
        items: vec![
            TodoItem {
                text: "a".into(),
                status: TodoStatus::Done,
            },
            TodoItem {
                text: "b".into(),
                status: TodoStatus::InProgress,
            },
            TodoItem {
                text: "c".into(),
                status: TodoStatus::Pending,
            },
        ],
    };
    assert_eq!(todo.done(), 1);
    assert_eq!(todo.total(), 3);
    let lines = todo_lines(&todo, '⠋');
    assert!(text(&lines[0]).starts_with("[x] "));
    assert!(text(&lines[1]).starts_with("[⠋] "));
    assert!(text(&lines[2]).starts_with("[ ] "));

    todo.set(2, TodoStatus::Done);
    assert_eq!(todo.done(), 2);

    let header = todo_header(&todo, '⠋');
    assert!(text(&header).contains("2/3 tasks"), "{}", text(&header));
}

#[test]
fn diff_parse_and_render() {
    let d = Diff::parse_unified(
        "--- a/src/lib.rs\n+++ b/src/lib.rs\n@@ -1,2 +1,3 @@\n ctx\n-old\n+new\n",
    );
    assert_eq!(d.path, "src/lib.rs");
    assert_eq!(d.hunks.len(), 1);
    assert_eq!(d.hunks[0].header, "@@ -1,2 +1,3 @@");
    assert_eq!(d.stats(), (1, 1));
    let lines = diff_lines(&d);
    assert_eq!(text(&lines[0]), "@@ -1,2 +1,3 @@");
    assert!(text(&lines[1]).starts_with(" ctx"), "{}", text(&lines[1]));
    assert!(text(&lines[2]).starts_with("-old"), "{}", text(&lines[2]));
    assert!(text(&lines[3]).starts_with("+new"), "{}", text(&lines[3]));
}

#[test]
fn diff_activity_header() {
    let d = Diff::parse_unified("--- a/x.rs\n+++ b/x.rs\n@@ -1 +1 @@\n-a\n+b\n");
    let header = diff_header(&d);
    assert_eq!(text(&header), "✻ Edit · x.rs · +1 −1");
}

#[test]
fn tool_headers_show_time_and_output_once_finished() {
    let done = ToolCall {
        name: "bash",
        status: ToolStatus::Done,
        summary: "cargo test -p core".into(),
        duration_ms: 12,
        output: Some("54 passed".into()),
    };
    assert_eq!(text(&tool_header(&done, '⠙')), "✓ bash cargo test -p core · 12ms · 54 passed");
    let running = ToolCall::running("grep", "-n foo");
    let l = tool_header(&running, '⠙');
    assert_eq!(text(&l), "⠙ grep -n foo");
    assert_eq!(l.spans[0].style, vec![StyleTag::ToolRunning]);
    let failed = ToolCall { status: ToolStatus::Error, output: None, ..done };
    assert_eq!(text(&tool_header(&failed, '⠙')), "✗ bash cargo test -p core · 12ms");
}

#[test]
fn activities_fold_and_auto_expand() {
    let mut h: Activity<String> = Activity::new(ActivityKind::Thinking(Thinking {
        state: ThinkingState::Done,
        duration_ms: 2300,
        digest: None,
        stage: "understand",
    }));
    assert!(!h.expandable());
    h.set_content(vec!["reasoning line".to_string()]);
    assert!(h.expandable());
    assert!(!h.is_expanded());
    h.toggle();
    assert!(h.is_expanded());
    assert!(!auto_expand(&h));
    let sub: SubAgent<String> = SubAgent::running("explore", "Find the parser");
    assert_eq!(sub.status, SubAgentStatus::Running);
    assert!(auto_expand(&Activity::new(ActivityKind::SubAgent(sub))));
    let todo = TodoList {
        title: "t".into(),
        items: vec![TodoItem { text: "a".into(), status: TodoStatus::InProgress }],
    };
    assert!(auto_expand(&Activity::<String>::new(ActivityKind::Todo(todo))));
    let idle = TodoList { title: "t".into(), items: vec![TodoItem { text: "a".into(), status: TodoStatus::Done }] };
    assert!(!auto_expand(&Activity::<String>::new(ActivityKind::Todo(idle))));
}

/// The host's seconds text of a duration.
fn secs(ms: u64) -> String {
    format!("{:.1}", ms as f64 / 1000.0)
}

fn plain_line(t: &str) -> Line {
    Line { spans: vec![Span { content: t.to_string(), style: Vec::new() }], style: Vec::new() }
}

fn thinking(stage: &'static str, state: ThinkingState) -> Activity<Line> {
    let mut h = Activity::new(ActivityKind::Thinking(Thinking {
        state,
        duration_ms: 2300,
        digest: if state == ThinkingState::Done {
            Some("checking imports".into())
        } else {
            None
        },
        stage,
    }));
    if state == ThinkingState::Done {
        h.set_content(vec![plain_line("reasoning line")]);
    }
    h
}

#[test]
fn thinking_collapsed_and_expanded() {
    let mut h = thinking("understand", ThinkingState::Done);
    assert!(h.expandable());
    let lines = activity_lines(&h, '⠋', &secs);
    assert_eq!(text(&lines[0]), "─ thinking · 2.3s · checking imports ─");
    assert_eq!(lines.len(), 1, "collapsed: header only");

    h.toggle();
    assert!(h.is_expanded());
    let lines = activity_lines(&h, '⠋', &secs);
    assert_eq!(text(&lines[0]), "─ thinking · 2.3s · checking imports ─");
    assert_eq!(lines.len(), 2, "expanded: header + content");
    assert!(text(&lines[1]).contains("reasoning line"));

    h.toggle();
    assert!(!h.is_expanded());
}

#[test]
fn running_hint_is_not_expandable() {
    let h = thinking("understand", ThinkingState::Running);
    assert!(!h.expandable());
    let lines = activity_lines(&h, '⠋', &secs);
    assert_eq!(text(&lines[0]), "⠋ thinking · 2.3s");
}

#[test]
fn tool_collapsed_and_expanded() {
    let mut h = Activity::new(ActivityKind::Tool(ToolCall {
        name: "bash",
        status: ToolStatus::Done,
        summary: "cargo test -p core".into(),
        duration_ms: 12,
        output: Some("54 passed".into()),
    }));
    h.set_content(vec![plain_line("$ cargo test -p core"), plain_line("54 passed; 0 failed")]);
    let lines = activity_lines(&h, '⠙', &secs);
    assert_eq!(text(&lines[0]), "✓ bash cargo test -p core · 12ms · 54 passed");

    h.toggle();
    let lines = activity_lines(&h, '⠙', &secs);
    assert!(text(&lines[1]).contains("$ cargo test -p core"));
    assert!(text(&lines[2]).contains("54 passed; 0 failed"));
}

#[test]
fn subagent_running_and_done() {
    let mut a: SubAgent<Line> = SubAgent::running("explore", "Find the parser");
    a.duration_ms = 1200;
    let l = subagent_header(&a, '⠋', &secs(a.duration_ms));
    assert!(text(&l).starts_with("⠋ explore (Find the parser)"), "{}", text(&l));

    let done: SubAgent<Line> = SubAgent {
        name: "explore".into(),
        status: SubAgentStatus::Done,
        task: "Find the parser".into(),
        duration_ms: 1200,
        result: Some("found blocks.rs:24".into()),
        transcript: Vec::new(),
        reply: String::new(),
    };
    let l = subagent_header(&done, '⠋', &secs(done.duration_ms));
    assert!(text(&l).starts_with("✓ explore (Find the parser)"), "{}", text(&l));
    assert!(text(&l).contains("blocks.rs:24"));
    assert_eq!(text(&l), "✓ explore (Find the parser) · 1.2s · found blocks.rs:24");
}

#[test]
fn layout_nests_subagent_transcripts() {
    let mut tool = Activity::new(ActivityKind::Tool(ToolCall {
        name: "grep",
        status: ToolStatus::Done,
        summary: "x".into(),
        duration_ms: 5,
        output: None,
    }));
    tool.set_content(vec![plain_line("hit")]);
    tool.expanded = true;
    let sub = SubAgent {
        name: "explore".into(),
        status: SubAgentStatus::Done,
        task: "t".into(),
        duration_ms: 1000,
        result: None,
        transcript: vec![tool],
        reply: "done".into(),
    };
    let mut hint = Activity::new(ActivityKind::SubAgent(sub));
    hint.expanded = true;
    let first = thinking("understand", ThinkingState::Running);
    let acts = vec![first, hint];
    let render = |t: String| vec![plain_line(&format!("reply: {t}"))];
    let (rows, ranges) = layout_activities(3, 10, &acts, '⠋', &secs, &render);
    let texts: Vec<String> = rows.iter().map(text).collect();
    assert_eq!(
        texts,
        vec![
            "⠋ thinking · 2.3s".to_string(),
            "✓ explore (t) · 1.0s".to_string(),
            "    ✓ grep x · 5ms".to_string(),
            "        hit".to_string(),
            "    reply: done".to_string(),
        ]
    );
    let spans: Vec<(u16, u16, usize, Vec<usize>, bool)> =
        ranges.iter().map(|r| (r.start, r.end, r.message, r.path.clone(), r.is_tool)).collect();
    assert_eq!(
        spans,
        vec![
            (10, 11, 3, vec![0], false),
            (12, 14, 3, vec![1, 0], true),
            (11, 15, 3, vec![1], false),
        ]
    );
}
