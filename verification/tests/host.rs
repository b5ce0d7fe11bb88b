use rsmarkdown::tui::agent::{Agent, AgentStatus};
use rsmarkdown::tui::app::{broadcast_agents, App, FooterBadge, PrStatus, Route, SessionMode};
use rsmarkdown::tui::input::{InputEvent, Key, Mouse, MouseKind, Rect};
use rsmarkdown::tui::permission::{DialogAction, PermissionRequest};
use rsmarkdown::tui::renderer::{Line, StyleTag};

fn key(k: Key) -> InputEvent {
    InputEvent::Key(k)
}

fn click_at(column: u16, row: u16) -> InputEvent {
    InputEvent::Mouse(Mouse { kind: MouseKind::LeftDown, column, row })
}

fn line_text(line: &Line) -> String {
    line.spans.iter().map(|s| s.content.as_str()).collect()
}

fn request() -> PermissionRequest<String> {
    PermissionRequest::new(
        "Edit file",
        "Do you want to proceed?",
        vec!["Yes".to_string(), "Yes, and don't ask again".to_string(), "No".to_string()],
    )
    .target("crates/core/src/blocks.rs")
}

fn host(n: usize) -> App<String> {
    let mut app = App::new(n);
    app.prepare_frame(Rect { x: 0, y: 0, width: 80, height: 24 });
    app
}

#[test]
fn host_translates_clicks_and_drops_status_bar_clicks() {
    let mut app: App<String> = App::new(1);
    let content = app.prepare_frame(Rect { x: 2, y: 3, width: 40, height: 10 });
    assert_eq!(content, Rect { x: 2, y: 3, width: 40, height: 9 });
    assert_eq!(
        app.route(click_at(5, 4)),
        Route::ToFocused(InputEvent::Mouse(Mouse { kind: MouseKind::LeftDown, column: 3, row: 1 }))
    );
    // the status bar row (y = 12) and cells left of the content drop
    assert_eq!(app.route(click_at(5, 12)), Route::Handled);
    assert_eq!(app.route(click_at(1, 4)), Route::Handled);
    assert_eq!(app.route(key(Key::Char('x'))), Route::ToFocused(key(Key::Char('x'))));
    assert_eq!(app.route(InputEvent::Other), Route::Handled);
}

#[test]
fn host_keys_focus_mode_and_quit() {
    let mut app = host(3);
    assert!(app.host_key(Key::Tab));
    assert_eq!(app.focused(), 1);
    assert!(app.host_key(Key::Char(']')));
    assert!(app.host_key(Key::Char(']')));
    assert_eq!(app.focused(), 0, "wraps around");
    assert!(app.host_key(Key::BackTab));
    assert_eq!(app.focused(), 2);
    assert!(app.host_key(Key::Char('2')));
    assert_eq!(app.focused(), 1);
    assert!(app.host_key(Key::Char('9')), "a missing component is ignored");
    assert_eq!(app.focused(), 1);
    assert!(app.host_key(Key::Char('0')));
    assert_eq!(app.focused(), 1);
    assert_eq!(app.components(), 3);
    assert!(app.host_key(Key::Char('m')));
    assert_eq!(app.mode(), SessionMode::AcceptEdits);
    assert!(!app.host_key(Key::Char('q')), "q quits");
}

#[test]
fn footer_mode_badge_cycles_through_modes() {
    let mut app = host(1);
    assert!(app.footer_badges(Vec::new()).is_empty(), "no badge by default");
    app.cycle_mode();
    let b = app.footer_badges(Vec::new());
    assert_eq!(b[0].text, "⏵⏵ accept edits on (m to cycle)");
    assert_eq!(b[0].style, StyleTag::ModeOn);
    app.cycle_mode();
    assert_eq!(app.footer_badges(Vec::new())[0].text, "⏸ plan mode on (m to cycle)");
    app.cycle_mode();
    assert!(app.footer_badges(Vec::new()).is_empty(), "badge cleared");
    assert_eq!(SessionMode::Plan.badge().unwrap().text, "⏸ plan mode on (m to cycle)");
}

#[test]
fn footer_pr_and_component_badges() {
    let mut app = host(2);
    app.set_pr(446, PrStatus::Pending);
    let own = vec![FooterBadge::new("← 1 done", StyleTag::ToolDone)];
    let b = app.footer_badges(own);
    assert_eq!(b.len(), 2);
    assert_eq!(b[0].text, "PR #446");
    assert_eq!(b[0].style, StyleTag::PullRequest(PrStatus::Pending));
    assert_eq!(b[1].text, "← 1 done");
    let own = vec![FooterBadge::new("← 1 done", StyleTag::ToolDone)];
    let line = app.status_line("chat", "2 messages", "[esc] type", own);
    assert_eq!(
        line_text(&line),
        " [1] chat   PR #446  ← 1 done 2 messages [esc] type  [Tab] next  [m] mode  [q] quit"
    );
    assert_eq!(line.spans[0].style, vec![StyleTag::Status]);
}

#[test]
fn status_line_with_one_component_and_no_hints() {
    let app = host(1);
    let line = app.status_line("log", "10 lines", "", Vec::new());
    assert_eq!(line_text(&line), " [1] log  10 lines  [m] mode  [q] quit");
    assert_eq!(line.spans[0].style, vec![StyleTag::StatusInactive]);
}

#[test]
fn dialog_esc_cancels_and_reports() {
    let mut app = host(1);
    app.ask(request());
    assert!(app.permission_open());
    assert_eq!(app.route(key(Key::Esc)), Route::DialogClosed(DialogAction::Cancel));
    assert!(!app.permission_open());
    assert_eq!(app.take_dialog_action(), Some(DialogAction::Cancel));
    assert_eq!(app.take_dialog_action(), None, "taken once");
}

#[test]
fn dialog_digit_and_arrows_confirm() {
    let mut app = host(1);
    app.ask(request());
    assert_eq!(app.route(key(Key::Char('2'))), Route::DialogClosed(DialogAction::Confirm(1)));
    app.ask(request());
    assert_eq!(app.route(key(Key::Down)), Route::Handled);
    assert!(app.permission_open());
    assert_eq!(app.route(key(Key::Enter)), Route::DialogClosed(DialogAction::Confirm(1)));
    assert_eq!(app.take_dialog_action(), Some(DialogAction::Confirm(1)));
}

#[test]
fn dialog_is_modal() {
    let mut app = host(2);
    app.ask(request());
    assert_eq!(app.route(key(Key::Char('q'))), Route::Handled, "q swallowed by the dialog");
    assert_eq!(app.route(key(Key::Tab)), Route::Handled);
    assert!(app.permission_open(), "still open");
    assert_eq!(app.focused(), 0);
    let line = app.status_line("chat", "status", "hints", Vec::new());
    assert_eq!(
        line_text(&line),
        " [1] chat  Edit file — Do you want to proceed? esc cancel · enter confirm · digits 1-3"
    );
    // clicks outside the dialog drop
    assert_eq!(app.route(click_at(1, 0)), Route::Handled);
}

#[test]
fn dialog_click_selects_then_confirms() {
    let mut app = host(1);
    app.ask(request());
    app.prepare_frame(Rect { x: 0, y: 0, width: 80, height: 24 });
    let r = app.dialog_rect();
    assert!(r.width > 0 && r.height > 0, "dialog rect recorded");
    // options are the rows above the padding row and the bottom border
    let option2_y = r.y + r.height - 2 - 3 + 1;
    assert_eq!(app.route(click_at(r.x + 10, option2_y)), Route::Handled);
    assert!(app.permission_open(), "still open after select");
    assert_eq!(app.route(click_at(r.x + 10, option2_y)), Route::DialogClosed(DialogAction::Confirm(1)));
}

#[test]
fn agent_broadcast_last_publisher_wins() {
    let a: Vec<Agent<String>> = vec![
        Agent::new("explore", AgentStatus::Working).description("first"),
        Agent::new("plan", AgentStatus::Working),
    ];
    let b: Vec<Agent<String>> = vec![Agent::new("explore", AgentStatus::Completed).description("second")];
    let merged = broadcast_agents(vec![a, b]);
    assert_eq!(merged.len(), 2);
    assert_eq!(merged[0].name, "explore");
    assert_eq!(merged[0].description, "second");
    assert_eq!(merged[1].name, "plan");
}
