use rsmarkdown::tui::activities::{
    Activity, ActivityKind, ActivityRowRange, SubAgent, SubAgentStatus, ToolCall, ToolStatus,
};
use rsmarkdown::tui::chat::{push_hint_into, AgentChat};
use rsmarkdown::tui::turn::TurnPhase;
use rsmarkdown::tui::input::{InputEvent, Key, Mouse, MouseKind, Rect};
use rsmarkdown::tui::renderer::{Line, Span, StyleTag};

fn key(k: Key) -> InputEvent {
    InputEvent::Key(k)
}

fn click(row: u16) -> InputEvent {
    InputEvent::Mouse(Mouse { kind: MouseKind::LeftDown, column: 1, row })
}

fn text(line: &Line) -> String {
    line.spans.iter().map(|s| s.content.as_str()).collect()
}

fn plain(t: &str) -> Line {
    Line { spans: vec![Span { content: t.to_string(), style: Vec::new() }], style: Vec::new() }
}

fn tool(name: &'static str, status: ToolStatus) -> Activity<Line> {
    let call = ToolCall { name, status, summary: "cargo test".to_string(), duration_ms: 12, output: None };
    let mut a = Activity::new(ActivityKind::Tool(call));
    a.set_content(vec![plain("$ cargo test"), plain("ok")]);
    a
}

#[test]
fn new_session_starts_a_turn() {
    let chat = AgentChat::new();
    assert_eq!(chat.message_count(), 2, "question + assistant turn");
    assert!(!chat.phase_done(), "the first turn runs");
    assert_eq!(chat.title(), "chat");
    assert_eq!(chat.hints(), "[enter] send  [esc] view  click a hint to expand");
    assert!(chat.last_tool_hint().is_none());
    assert_eq!(chat.status(&[]), "2 messages · 0 replies · 0 hints · working… · 1 rows");
}

#[test]
fn typed_text_is_sent_on_enter() {
    let mut chat = AgentChat::new();
    for c in "hello agent".chars() {
        assert!(chat.event(key(Key::Char(c))), "typing consumed");
    }
    assert_eq!(text(&chat.input_line()), "you › hello agent▋");
    assert!(chat.event(key(Key::Enter)), "enter consumed");
    assert_eq!(chat.message_count(), 4, "user message + new turn appended");
    assert_eq!(text(&chat.input_line()), "you › ▋", "input cleared");
    // an empty input sends nothing
    assert!(chat.event(key(Key::Enter)));
    assert_eq!(chat.message_count(), 4);
}

#[test]
fn backspace_escape_and_scroll_keys() {
    let mut chat = AgentChat::new();
    chat.event(key(Key::Char('a')));
    chat.event(key(Key::Char('b')));
    assert!(chat.event(key(Key::Backspace)));
    assert_eq!(text(&chat.input_line()), "you › a▋");
    assert!(chat.event(key(Key::Esc)), "esc leaves the input line");
    assert_eq!(chat.hints(), "[esc] type  [j/k] scroll  click a hint to expand/collapse");
    assert_eq!(text(&chat.input_line()), "you › a ");
    // `j` scrolls now instead of typing
    assert!(chat.event(key(Key::Char('g'))));
    assert!(chat.event(key(Key::Char('j'))));
    assert_eq!(text(&chat.input_line()), "you › a ");
    assert!(!chat.event(key(Key::Tab)), "unbound key ignored");
    assert!(chat.event(key(Key::Esc)), "esc starts typing again");
    assert!(chat.event(key(Key::Char('j'))));
    assert_eq!(text(&chat.input_line()), "you › aj▋");
    assert!(!chat.event(InputEvent::Other));
}

#[test]
fn hint_updates_replace_in_place() {
    let mut chat = AgentChat::new();
    chat.push_hint(chat.todo_hint(0));
    chat.push_hint(tool("bash", ToolStatus::Running));
    chat.push_hint(chat.todo_hint(1));
    chat.push_hint(tool("bash", ToolStatus::Done));
    assert!(chat.status(&[]).contains(" 2 hints"), "{}", chat.status(&[]));
    let t = chat.last_tool_hint().expect("tool hint");
    match &t.kind {
        ActivityKind::Tool(c) => assert_eq!(c.status, ToolStatus::Done),
        _ => panic!("tool expected"),
    }
    // the todo is active, so it shows expanded: 1 + 1 + 5 rows + the tool row
    assert_eq!(chat.chat_height(&[]), 8);
    assert_eq!(chat.chat_height(&[0, 3]), 11, "reply rows count too");
}

#[test]
fn todo_hint_marks_progress() {
    let chat = AgentChat::new();
    let hint = chat.todo_hint(2);
    match &hint.kind {
        ActivityKind::Todo(t) => {
            assert_eq!(t.title, "Implement the fix");
            assert_eq!(t.items.len(), 5);
            assert_eq!(t.done(), 2);
            assert_eq!(t.items[2].text, "Run the tests");
        }
        _ => panic!("todo expected"),
    }
    assert_eq!(hint.content.len(), 5);
}

#[test]
fn click_toggles_the_hint_under_it() {
    let mut chat = AgentChat::new();
    chat.push_hint(tool("bash", ToolStatus::Done));
    let ranges =
        vec![ActivityRowRange { start: 1, end: 2, message: 1, path: vec![0], is_tool: true }];
    let first = chat.prepare_draw(Rect { x: 0, y: 0, width: 100, height: 30 }, ranges, 3);
    assert_eq!(first, 0, "scroll kept within the transcript");
    assert_eq!(chat.hint_row_ranges().len(), 1);
    assert!(!chat.last_tool_hint().unwrap().is_expanded());
    assert!(chat.event(click(1)));
    assert!(chat.last_tool_hint().unwrap().is_expanded(), "expanded by click");
    assert!(chat.event(click(1)));
    assert!(!chat.last_tool_hint().unwrap().is_expanded(), "collapsed again");
    // a row without a hint changes nothing
    assert!(chat.event(click(5)));
    assert!(!chat.last_tool_hint().unwrap().is_expanded());
}

#[test]
fn nested_subagent_activity_toggles_by_path() {
    let mut chat = AgentChat::new();
    let mut sub: SubAgent<Line> = SubAgent::running("explore", "find the splitter");
    sub.transcript.push(tool("grep", ToolStatus::Done));
    chat.push_hint(Activity::new(ActivityKind::SubAgent(sub)));
    let ranges =
        vec![ActivityRowRange { start: 3, end: 4, message: 1, path: vec![0, 0], is_tool: true }];
    chat.prepare_draw(Rect { x: 0, y: 0, width: 100, height: 30 }, ranges, 6);
    assert!(chat.event(click(3)));
    let before = chat.status(&[]);
    assert!(before.contains(" 1 hints"), "{before}");
    assert_eq!(chat.footer_badges()[0].text, "← for agents");
}

#[test]
fn footer_badge_counts_subagents() {
    let mut chat = AgentChat::new();
    assert!(chat.footer_badges().is_empty());
    let mut done: SubAgent<Line> = SubAgent::running("explore", "task");
    done.status = SubAgentStatus::Done;
    chat.push_hint(Activity::new(ActivityKind::SubAgent(done)));
    let b = chat.footer_badges();
    assert_eq!(b.len(), 1);
    assert_eq!(b[0].text, "← 1 done");
    assert_eq!(b[0].style, StyleTag::ToolDone);
    let mut other: SubAgent<Line> = SubAgent::running("review", "task");
    other.status = SubAgentStatus::Done;
    chat.push_hint(Activity::new(ActivityKind::SubAgent(other)));
    assert_eq!(chat.footer_badges()[0].text, "← 2 done");
    chat.push_hint(Activity::new(ActivityKind::SubAgent(SubAgent::running("plan", "task"))));
    let b = chat.footer_badges();
    assert_eq!(b[0].text, "← for agents");
    assert_eq!(b[0].style, StyleTag::ToolRunning);
}

#[test]
fn pushed_hint_keeps_the_users_fold_choice() {
    let mut hints: Vec<Activity<Line>> = Vec::new();
    push_hint_into(&mut hints, tool("bash", ToolStatus::Running));
    hints[0].toggle();
    push_hint_into(&mut hints, tool("bash", ToolStatus::Done));
    assert_eq!(hints.len(), 1, "updated in place");
    assert!(hints[0].is_expanded(), "expansion kept");
    push_hint_into(&mut hints, tool("grep", ToolStatus::Running));
    assert_eq!(hints.len(), 2, "a new identity is appended");
    assert!(!hints[1].is_expanded());
}

/// The host's side of a tick: the reasoning lines and the search time come
/// from the stage's progress, in floating point.
fn host_tick(chat: &mut AgentChat) {
    let progress = |e: u64, target: u64| ((e + 33) as f32 / target as f32).min(1.0);
    let (shown, grep_ms) = match chat.phase() {
        Some(TurnPhase::Thinking { elapsed_ms }) => {
            (((4.0 * progress(elapsed_ms, 1400)).ceil() as usize).clamp(1, 4), 0)
        }
        Some(TurnPhase::Compose { elapsed_ms }) => {
            (((2.0 * progress(elapsed_ms, 800)).ceil() as usize).clamp(1, 2), 0)
        }
        Some(TurnPhase::Explore { elapsed_ms }) => (1, (progress(elapsed_ms, 1200) * 600.0) as u64),
        _ => (1, 0),
    };
    chat.on_tick(shown, grep_ms);
}

#[test]
fn scripted_turn_runs_to_the_streamed_reply() {
    let mut chat = AgentChat::new();
    assert_eq!(chat.phase(), Some(TurnPhase::Todo));
    host_tick(&mut chat);
    assert_eq!(chat.phase(), Some(TurnPhase::Thinking { elapsed_ms: 0 }));
    host_tick(&mut chat);
    assert_eq!(chat.phase(), Some(TurnPhase::Thinking { elapsed_ms: 33 }));
    let mut ticks = 2;
    while !chat.phase_done() && ticks < 1000 {
        host_tick(&mut chat);
        ticks += 1;
    }
    assert!(chat.phase_done(), "turn should be finished");
    assert_eq!(chat.message_count(), 2);
    let tool = chat.last_tool_hint().expect("tool hint");
    match &tool.kind {
        ActivityKind::Tool(t) => {
            assert_eq!(t.name, "bash");
            assert_eq!(t.status, ToolStatus::Done);
            assert_eq!(t.duration_ms, 900);
        }
        _ => panic!("a tool hint"),
    }
    assert_eq!(tool.content.len(), 4);
    let status = chat.status(&[]);
    assert!(status.contains("1 replies"), "{status}");
    assert!(!status.contains("working"), "{status}");
}

#[test]
fn conversation_text_shows_the_finished_turn() {
    let mut chat = AgentChat::new();
    while !chat.phase_done() {
        host_tick(&mut chat);
    }
    let secs = |ms: u64| format!("{:.1}", ms as f64 / 1000.0);
    let text = chat.conversation_text(&secs);
    assert!(text.starts_with("you: What does the pipeline look like?\n"), "{text}");
    assert!(text.contains("✓ bash"), "done tool hint:\n{text}");
    assert!(text.contains("✓ explore"), "subagent hint:\n{text}");
    assert!(text.contains("✻ Edit"), "diff hint:\n{text}");
    assert!(text.contains("─ thinking · 1.4s · understanding the request ─"), "{text}");
    assert!(text.contains("54 tests passed"), "markdown reply streamed:\n{text}");
}
