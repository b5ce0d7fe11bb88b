use rsmarkdown::tui::agent::{merge_agents, Agent, AgentColor, AgentGroup, AgentStatus};
use rsmarkdown::tui::agent_view::{AgentView, TableRow, MAX_COMPLETED};
use rsmarkdown::tui::input::{InputEvent, Key, Mouse, MouseKind};
use rsmarkdown::tui::renderer::StyleTag;
use std::time::Duration;

fn key(k: Key) -> InputEvent {
    InputEvent::Key(k)
}

fn click(row: u16) -> InputEvent {
    InputEvent::Mouse(Mouse { kind: MouseKind::LeftDown, column: 5, row })
}

fn sample_agents() -> Vec<Agent<String>> {
    vec![
        Agent::new("clawd walk cycle", AgentStatus::Pinned)
            .description("Drawing the walk-cycle sprite frames")
            .activity("drawing")
            .age(Duration::from_secs(180))
            .color(AgentColor::Purple),
        Agent::new("jump physics", AgentStatus::ReadyForReview)
            .description("Opened PR with collision fix")
            .pr(2048)
            .age(Duration::from_secs(7200))
            .color(AgentColor::Blue),
        Agent::new("power-up design", AgentStatus::NeedsInput)
            .description("double jump or wall climb?")
            .waiting(Duration::from_secs(60))
            .age(Duration::from_secs(60))
            .color(AgentColor::Yellow),
        Agent::new("collision detection", AgentStatus::Working)
            .description("Adding swept-AABB checks to CollisionSystem")
            .age(Duration::from_secs(120))
            .color(AgentColor::Cyan),
        Agent::new("title screen", AgentStatus::Completed)
            .description("result: menu, options, and credits done")
            .age(Duration::from_secs(540))
            .color(AgentColor::Green),
        Agent::new("sound effects", AgentStatus::Completed)
            .description("result: 14 SFX exported to assets/audio")
            .age(Duration::from_secs(14400))
            .color(AgentColor::Orange),
        Agent::new("broken build", AgentStatus::Failed)
            .description("compile error in CollisionSystem")
            .age(Duration::from_secs(600))
            .color(AgentColor::Red),
    ]
}

#[test]
fn status_groups_and_icons() {
    assert_eq!(AgentStatus::Pinned.group(), AgentGroup::Pinned);
    assert_eq!(
        AgentStatus::ReadyForReview.group(),
        AgentGroup::ReadyForReview
    );
    assert_eq!(AgentStatus::NeedsInput.group(), AgentGroup::NeedsInput);
    assert_eq!(AgentStatus::Working.group(), AgentGroup::Working);
    assert_eq!(AgentStatus::Completed.group(), AgentGroup::Completed);
    assert_eq!(
        AgentStatus::Failed.group(),
        AgentGroup::Completed,
        "failed lands in completed"
    );
    assert_eq!(
        AgentStatus::Stopped.group(),
        AgentGroup::Completed,
        "stopped lands in completed"
    );
    assert_eq!(AgentStatus::Working.icon(false), "✽");
    assert_eq!(AgentStatus::Working.icon(true), "✢", "working animates");
    assert_eq!(AgentStatus::Completed.icon(false), "∙");
}

#[test]
fn eight_identity_colors_are_stable() {
    assert_eq!(AgentColor::ALL.len(), 8);
    let a = AgentColor::from_name("explore");
    let b = AgentColor::from_name("explore");
    assert_eq!(a, b, "stable per name");
}

#[test]
fn merge_updates_in_place_and_respects_dismissed() {
    let mut existing = sample_agents();
    let incoming = vec![
        Agent::new("collision detection", AgentStatus::Completed).description("swept-AABB done"),
        Agent::new("new agent", AgentStatus::Working),
    ];
    merge_agents(&mut existing, incoming, &[]);
    assert_eq!(existing.len(), 8, "updated + appended");
    assert_eq!(
        existing[3].status,
        AgentStatus::Completed,
        "updated in place"
    );
    assert!(existing.iter().any(|a| a.name == "new agent"));

    // dismissed names are ignored by later merges
    let mut existing = sample_agents();
    merge_agents(
        &mut existing,
        vec![Agent::new("ghost", AgentStatus::Working)],
        &["ghost".into()],
    );
    assert!(!existing.iter().any(|a| a.name == "ghost"));
}

#[test]
fn selection_moves_across_groups() {
    let mut view = AgentView::new();
    view.set_agents(sample_agents());
    assert_eq!(
        view.agents()[view.selected_agent().expect("agent selected")].name,
        "clawd walk cycle",
        "selection starts on the first agent row, not a header"
    );
    view.event(key(Key::Char('j')));
    view.event(key(Key::Char('j')));
    let agent = view.selected_agent().expect("agent selected");
    assert_eq!(
        view.agents()[agent].name,
        "power-up design",
        "jumps over headers"
    );
    view.event(key(Key::Char('k')));
    let agent = view.selected_agent().expect("agent selected");
    assert_eq!(view.agents()[agent].name, "jump physics");
}

#[test]
fn x_dismisses_agent_and_merge_ignores_it() {
    let mut view = AgentView::new();
    view.set_agents(sample_agents());
    view.event(key(Key::Char('x'))); // dismiss clawd (first agent row)
    assert_eq!(view.agents().len(), 6, "one dismissed");
    assert!(!view.agents().iter().any(|a| a.name == "clawd walk cycle"));
    let dismissed = view.take_dismissed();
    assert_eq!(dismissed, vec!["clawd walk cycle".to_string()]);

    // a later merge brings the same name back (dismissed queue emptied)
    view.merge_agents(vec![Agent::new("clawd walk cycle", AgentStatus::Working)]);
    assert!(view.agents().iter().any(|a| a.name == "clawd walk cycle"));
}

#[test]
fn table_rows_follow_group_order() {
    let mut view = AgentView::new();
    view.set_agents(sample_agents());
    assert_eq!(
        view.rows(),
        vec![
            TableRow::Header(AgentGroup::Pinned),
            TableRow::Agent(0),
            TableRow::Header(AgentGroup::ReadyForReview),
            TableRow::Agent(1),
            TableRow::Header(AgentGroup::NeedsInput),
            TableRow::Agent(2),
            TableRow::Header(AgentGroup::Working),
            TableRow::Agent(3),
            TableRow::Header(AgentGroup::Completed),
            TableRow::Agent(4),
            TableRow::Agent(5),
            TableRow::Agent(6),
        ]
    );
    assert_eq!(view.status(), "7 sessions · 1 working · 2 done");
}

#[test]
fn many_completed_collapse_and_e_expands() {
    let mut many = sample_agents();
    for i in 0..10 {
        many.push(Agent::new(&format!("extra {i}"), AgentStatus::Completed));
    }
    let mut view = AgentView::new();
    view.set_agents(many);
    let rows = view.rows();
    assert_eq!(rows.last(), Some(&TableRow::More(5)), "collapsed tail");
    let shown = rows.iter().filter(|r| matches!(r, TableRow::Agent(i) if *i >= 4)).count();
    assert_eq!(shown, MAX_COMPLETED);
    assert!(view.event(key(Key::Char('e'))));
    let rows = view.rows();
    assert!(!rows.iter().any(|r| matches!(r, TableRow::More(_))), "tail gone");
    assert!(rows.contains(&TableRow::Agent(16)), "last extra shown");
    // with nothing hidden, `e` changes nothing
    let mut small = AgentView::new();
    small.set_agents(sample_agents());
    let before = small.rows();
    assert!(small.event(key(Key::Char('e'))));
    assert_eq!(small.rows(), before);
}

#[test]
fn enter_and_space_open_overlays() {
    let mut view = AgentView::new();
    view.set_agents(sample_agents());
    assert_eq!(view.hints(), "[j/k] select  [enter] transcript  [space] peek  [x] dismiss  [e] expand");
    assert!(view.event(key(Key::Enter)));
    assert!(view.overlay_open(), "transcript open");
    assert_eq!(view.hints(), "[esc] close");
    // keys stay with the overlay; the selection does not move
    assert!(view.event(key(Key::Char('j'))));
    assert_eq!(view.selected_agent(), Some(0));
    assert!(view.event(key(Key::Esc)));
    assert!(!view.overlay_open(), "esc closed");

    view.event(key(Key::Char(' ')));
    assert!(view.overlay_open(), "peek open");
    view.event(key(Key::Char('y')));
    view.event(key(Key::Backspace));
    view.event(key(Key::Enter));
    assert!(!view.overlay_open(), "enter closes peek");
}

#[test]
fn unknown_keys_and_events_are_not_used() {
    let mut view: AgentView<String> = AgentView::new();
    view.set_agents(sample_agents());
    assert!(!view.event(key(Key::Left)));
    assert!(!view.event(InputEvent::Other));
    assert!(!view.event(InputEvent::Mouse(Mouse { kind: MouseKind::Other, column: 0, row: 0 })));
}

#[test]
fn wheel_and_page_keys_move_one_agent_row() {
    let mut view = AgentView::new();
    view.set_agents(sample_agents());
    view.event(key(Key::PageDown));
    assert_eq!(view.selected_agent(), Some(1), "page moves by one agent row");
    view.event(InputEvent::Mouse(Mouse { kind: MouseKind::ScrollDown, column: 0, row: 0 }));
    assert_eq!(view.selected_agent(), Some(2));
    view.event(key(Key::PageUp));
    view.event(key(Key::PageUp));
    assert_eq!(view.selected_agent(), Some(0));
    // moving up from the first agent wraps to the last one
    view.event(key(Key::Up));
    assert_eq!(view.selected_agent(), Some(6));
}

#[test]
fn click_selects_and_opens_transcript() {
    let mut view = AgentView::new();
    view.set_agents(sample_agents());
    // row 0 is the header line; table row 3 is `jump physics`
    assert!(view.event(click(4)));
    assert_eq!(view.selected_agent(), Some(1));
    assert!(view.overlay_open());
    // any click closes the overlay
    assert!(view.event(click(1)));
    assert!(!view.overlay_open());
    // a click on a group header does nothing
    view.event(click(1));
    assert_eq!(view.selected_agent(), Some(1));
    assert!(!view.overlay_open());
}

fn draw(view: &mut AgentView<String>, height: u16) -> String {
    view.prepare_draw(height);
    let lines = view.table_lines();
    lines
        .iter()
        .map(|l| l.spans.iter().map(|s| s.content.as_str()).collect::<String>())
        .collect::<Vec<_>>()
        .join("\n")
}

#[test]
fn draws_grouped_table_with_counts() {
    let mut view = AgentView::new();
    view.set_agents(sample_agents());
    let text = draw(&mut view, 40);

    assert!(text.contains("agents · 7 sessions"), "header counts");
    assert!(text.contains("Pinned"), "group header");
    assert!(text.contains("Ready for review"), "group header");
    assert!(text.contains("Needs input"), "group header");
    assert!(text.contains("Working"), "group header");
    assert!(text.contains("Completed"), "group header");
    assert!(text.contains("clawd walk cycle"), "agent row");
    assert!(text.contains("#2048"), "pr column");
    assert!(text.contains("2h"), "age formatted");
    assert!(text.contains("✽ collision detection"), "working icon");
    assert!(text.contains("✻ power-up design"), "needs-input icon");
    assert!(
        text.contains("✕ broken build"),
        "failed icon in completed group"
    );
}

#[test]
fn completed_collapses_and_expands() {
    let mut view = AgentView::new();
    view.set_agents(sample_agents());
    let text = draw(&mut view, 40);
    assert!(text.contains("title screen"), "first completed rows shown");
    assert!(
        text.contains("broken build"),
        "all completed shown (3 <= MAX)"
    );

    // many completed agents collapse to a tail
    let mut many = sample_agents();
    for i in 0..10 {
        many.push(Agent::new(&format!("extra {i}"), AgentStatus::Completed));
    }
    view.set_agents(many);
    let text = draw(&mut view, 40);
    assert!(text.contains("… 5 more"), "collapsed tail");
    assert!(!text.contains("extra 9"), "hidden");

    view.event(key(Key::Char('e'))); // expand
    let text = draw(&mut view, 40);
    assert!(text.contains("extra 9"), "expanded");
    assert!(!text.contains("… 5 more"), "tail gone");
}

#[test]
fn working_icon_animates_on_tick() {
    let mut view = AgentView::new();
    view.set_agents(vec![Agent::new("worker", AgentStatus::Working)]);
    let text1 = draw(&mut view, 40);
    assert!(text1.contains("✽ worker"));
    view.on_tick();
    let text2 = draw(&mut view, 40);
    assert!(text2.contains("✢ worker"), "animation frame flips");
}

#[test]
fn table_lines_mark_the_selected_row() {
    let mut view = AgentView::new();
    view.set_agents(sample_agents());
    view.prepare_draw(40);
    let lines = view.table_lines();
    // header, then the Pinned group header at row 0 and its agent at row 1
    assert_eq!(lines.len(), 1 + view.rows().len());
    let text = |l: &rsmarkdown::tui::renderer::Line| l.spans.iter().map(|s| s.content.as_str()).collect::<String>();
    assert_eq!(text(&lines[1]), "Pinned");
    // the selection (row 1) is marked and highlighted
    assert_eq!(text(&lines[2]), "❯✽ clawd walk cycle  Drawing the walk-cycle sprite frames  3m");
    assert_eq!(lines[2].style, vec![StyleTag::SelectedRow]);
    assert_eq!(text(&lines[4]), "∙ jump physics  Opened PR with collision fix  #2048  2h");
    assert!(lines[4].style.is_empty());
    view.prepare_draw(3);
    let lines = view.table_lines();
    assert_eq!(lines.len(), 3, "header plus the rows that fit");
}

#[test]
fn enter_opens_transcript_esc_closes() {
    let mut agent = Agent::new("explore", AgentStatus::Working);
    agent.transcript_lines = vec!["thinking".to_string(), "running bash".to_string()];
    let mut view = AgentView::new();
    view.set_agents(vec![agent]);
    view.event(key(Key::Enter));
    assert!(view.overlay_open(), "transcript open");
    let (title, first, end) = view.transcript_view(40).expect("transcript panel");
    assert!(title.contains("transcript · explore"), "overlay title");
    let shown = &view.agents()[0].transcript_lines[first..end];
    assert!(shown.iter().any(|l| l.contains("running bash")), "transcript line");
    view.event(key(Key::Esc));
    assert!(!view.overlay_open(), "esc closed");
    assert!(view.transcript_view(40).is_none());
}

#[test]
fn space_opens_peek_with_reply_input() {
    let mut view = AgentView::new();
    view.set_agents(sample_agents());
    // move to power-up design (waiting 1m)
    view.event(key(Key::Char('j')));
    view.event(key(Key::Char('j')));
    view.event(key(Key::Char(' ')));
    assert!(view.overlay_open(), "peek open");
    let text = |l: &rsmarkdown::tui::renderer::Line| l.spans.iter().map(|s| s.content.as_str()).collect::<String>();
    let (title, lines, reply) = view.peek().expect("peek panel");
    assert!(title.contains("peek · power-up design"), "peek title");
    let body: Vec<String> = lines.iter().map(|l| text(l)).collect();
    assert!(body.iter().any(|l| l.contains("waiting 1m")), "waiting duration");
    assert_eq!(text(&reply), "reply › ▋");
    // type a reply
    view.event(key(Key::Char('y')));
    let (_, _, reply) = view.peek().expect("peek panel");
    assert!(text(&reply).contains("reply › y"), "typed into reply");
    view.event(key(Key::Enter));
    assert!(!view.overlay_open(), "enter closes peek");
}

#[test]
fn transcript_scroll_stays_within_the_transcript() {
    let mut agent = Agent::new("explore", AgentStatus::Working);
    agent.transcript_lines = (0..30).map(|i| format!("line {i}")).collect();
    let mut view = AgentView::new();
    view.set_agents(vec![agent]);
    view.event(key(Key::Enter));
    // a 12-row area shows 10 lines inside the border
    assert_eq!(view.transcript_view(12).unwrap().1, 0);
    for _ in 0..40 {
        view.event(key(Key::Char('j')));
    }
    let (_, first, end) = view.transcript_view(12).unwrap();
    assert_eq!((first, end), (20, 30), "scroll kept at the last page");
}

#[test]
fn merge_keeps_the_last_version_of_each_name() {
    let mut existing: Vec<Agent<String>> = vec![
        Agent::new("a", AgentStatus::Working).description("old a"),
        Agent::new("b", AgentStatus::Working).description("old b"),
    ];
    let incoming = vec![
        Agent::new("c", AgentStatus::Working).description("first c"),
        Agent::new("a", AgentStatus::Working).description("first a"),
        Agent::new("c", AgentStatus::Completed).description("last c"),
        Agent::new("a", AgentStatus::Completed).description("last a"),
        Agent::new("d", AgentStatus::Working).description("gone"),
    ];
    merge_agents(&mut existing, incoming, &["d".into()]);
    let names: Vec<&str> = existing.iter().map(|a| a.name.as_str()).collect();
    assert_eq!(names, vec!["a", "b", "c"]);
    assert_eq!(existing[0].description, "last a");
    assert_eq!(existing[1].description, "old b");
    assert_eq!(existing[2].description, "last c");
    assert_eq!(existing[2].status, AgentStatus::Completed);
}

#[test]
fn merge_appends_new_names_in_order_of_first_appearance() {
    let mut existing: Vec<Agent<String>> = vec![Agent::new("a", AgentStatus::Working)];
    let incoming = vec![
        Agent::new("x", AgentStatus::Working).description("first x"),
        Agent::new("c", AgentStatus::Working),
        Agent::new("a", AgentStatus::Completed),
        Agent::new("x", AgentStatus::Completed).description("last x"),
        Agent::new("d", AgentStatus::Working),
    ];
    merge_agents(&mut existing, incoming, &[]);
    let names: Vec<&str> = existing.iter().map(|a| a.name.as_str()).collect();
    assert_eq!(names, vec!["a", "x", "c", "d"]);
    assert_eq!(existing[0].status, AgentStatus::Completed);
    assert_eq!(existing[1].description, "last x");
}
