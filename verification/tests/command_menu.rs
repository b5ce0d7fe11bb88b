use rsmarkdown::tui::command_menu::{SlashCommand, SlashCommandMenu, MENU_ROWS};
use rsmarkdown::tui::help::{HelpEntry, HelpPanel, HelpSection};
use rsmarkdown::tui::input::{Key, Mouse, MouseKind, Rect};
use rsmarkdown::tui::permission::{DialogAction, DialogRow, PermissionDialog, PermissionRequest};

fn click(column: u16, row: u16) -> Mouse {
    Mouse { kind: MouseKind::LeftDown, column, row }
}

fn commands() -> Vec<SlashCommand> {
    vec![
        SlashCommand::new("clear", "Clear the transcript"),
        SlashCommand::new("help", "Show keyboard shortcuts"),
        SlashCommand::new("context", "Show context usage"),
        SlashCommand::new("model", "Choose a model"),
        SlashCommand::new("status", "Show session status"),
    ]
}

fn names(menu: &SlashCommandMenu) -> Vec<String> {
    menu.filtered().iter().map(|c| c.name.clone()).collect()
}

#[test]
fn filter_narrows_and_resets_selection() {
    let mut menu = SlashCommandMenu::new(commands());
    assert_eq!(
        names(&menu),
        vec!["clear", "help", "context", "model", "status"]
    );

    menu.set_filter("c");
    assert_eq!(names(&menu), vec!["clear", "context"], "prefix match");
    assert_eq!(menu.selected, 0, "selection resets to first match");

    menu.set_filter("mo");
    assert_eq!(names(&menu), vec!["model"]);
    assert_eq!(menu.selected, 0);

    menu.set_filter("zzz");
    assert!(menu.filtered().is_empty(), "no match");
}

#[test]
fn case_insensitive_filter() {
    let mut menu = SlashCommandMenu::new(commands());
    menu.set_filter("CL");
    assert_eq!(names(&menu), vec!["clear"]);
}

#[test]
fn arrows_move_selection_with_wrap_and_enter_confirms_absolute() {
    let mut menu = SlashCommandMenu::new(commands());
    // filter to [clear(0), context(2)]
    menu.set_filter("c");
    assert_eq!(menu.selected, 0);

    menu.key(Key::Down);
    assert_eq!(menu.selected, 1, "moved to context");
    assert_eq!(
        menu.key(Key::Enter),
        Some(2),
        "absolute index into commands"
    );

    // wrap around
    menu.key(Key::Down);
    assert_eq!(menu.selected, 0, "wrapped to first");
    menu.key(Key::Up);
    assert_eq!(menu.selected, 1, "wrapped back");

    // j/k also move
    menu.key(Key::Char('k'));
    assert_eq!(menu.selected, 0);
    menu.key(Key::Char('j'));
    assert_eq!(menu.selected, 1);
}

#[test]
fn enter_on_empty_match_returns_none() {
    let mut menu = SlashCommandMenu::new(commands());
    menu.set_filter("zzz");
    assert_eq!(menu.key(Key::Enter), None, "nothing to confirm");
}

#[test]
fn mouse_click_selects_then_confirms() {
    let mut menu = SlashCommandMenu::new(commands());
    let area = Rect { x: 0, y: 0, width: 100, height: 50 };
    let r = menu.layout(area);
    // row of the second command (inside the border)
    let second_y = r.y + 2;
    assert_eq!(
        menu.click(&click(10, second_y)),
        None,
        "first click selects"
    );
    assert_eq!(menu.selected, 1, "second row selected");
    assert_eq!(
        menu.click(&click(10, second_y)),
        Some(1),
        "second click confirms"
    );

    // clicks outside the menu drop
    assert_eq!(menu.click(&click(10, 99)), None);
    assert_eq!(menu.selected, 1, "unchanged");
}

#[test]
fn menu_rect_sits_above_the_prompt() {
    let many: Vec<SlashCommand> = (0..20)
        .map(|i| SlashCommand::new(&format!("cmd{i:02}"), "demo command"))
        .collect();
    let mut menu = SlashCommandMenu::new(many);
    let r = menu.layout(Rect { x: 3, y: 30, width: 60, height: 1 });
    assert_eq!(r, Rect { x: 3, y: 30 - (MENU_ROWS as u16 + 2), width: 60, height: MENU_ROWS as u16 + 2 });
    // before any draw, clicks are ignored
    let mut fresh = SlashCommandMenu::new(commands());
    assert_eq!(fresh.click(&click(1, 1)), None);
    assert_eq!(fresh.selected, 0);
    // only left clicks count
    menu.set_filter("cmd1");
    menu.layout(Rect { x: 0, y: 40, width: 60, height: 1 });
    let wheel = Mouse { kind: MouseKind::ScrollDown, column: 1, row: 2 };
    assert_eq!(menu.click(&wheel), None);
    assert_eq!(names(&menu).len(), 10);
}

#[test]
fn selection_runs_past_the_window() {
    let many: Vec<SlashCommand> = (0..20)
        .map(|i| SlashCommand::new(&format!("cmd{i:02}"), "demo command"))
        .collect();
    let mut menu = SlashCommandMenu::new(many);
    for _ in 0..15 {
        menu.key(Key::Down);
    }
    assert_eq!(menu.selected, 15);
    assert_eq!(menu.key(Key::Enter), Some(15), "selection stays valid");
}

fn edit_request() -> PermissionRequest<String> {
    PermissionRequest::new(
        "Edit file",
        "Do you want to proceed?",
        vec![
            "Yes".to_string(),
            "Yes, allow all edits this session".to_string(),
            "No, and say what to do differently (esc)".to_string(),
        ],
    )
    .target("src/main.rs")
}

#[test]
fn dialog_keys_move_and_confirm() {
    let mut d = PermissionDialog::new(edit_request());
    assert_eq!(d.option_count(), 3);
    assert_eq!(d.key(Key::Down), None);
    assert_eq!(d.selected, 1);
    assert_eq!(d.key(Key::Tab), None);
    assert_eq!(d.key(Key::Tab), None);
    assert_eq!(d.selected, 0, "wraps");
    assert_eq!(d.key(Key::BackTab), None);
    assert_eq!(d.selected, 2, "wraps back");
    assert_eq!(d.key(Key::Enter), Some(DialogAction::Confirm(2)));
    assert_eq!(d.key(Key::Char('2')), Some(DialogAction::Confirm(1)));
    assert_eq!(d.key(Key::Char('4')), None, "no fourth option");
    assert_eq!(d.key(Key::Char('0')), None);
    assert_eq!(d.key(Key::Esc), Some(DialogAction::Cancel));
    let mut empty: PermissionDialog<String> =
        PermissionDialog::new(PermissionRequest::new("t", "q", Vec::new()));
    assert_eq!(empty.key(Key::Down), Some(DialogAction::Cancel), "nothing to choose");
}

#[test]
fn dialog_layout_and_clicks() {
    let mut d = PermissionDialog::new(edit_request());
    // borders 2 + target 1 + question 1 + options 3 + padding 1
    let r = d.layout(Rect { x: 0, y: 0, width: 120, height: 40 });
    assert_eq!(r, Rect { x: 0, y: 32, width: 120, height: 8 });
    // options sit on local rows 3, 4, 5
    assert_eq!(d.click(&click(4, 4)), None, "first click selects");
    assert_eq!(d.selected, 1);
    assert_eq!(d.click(&click(4, 4)), Some(DialogAction::Confirm(1)), "second click confirms");
    assert_eq!(d.click(&click(4, 6)), None, "padding row");
    assert_eq!(d.click(&click(4, 2)), None, "question row");
    // a tiny area clips the dialog
    let r = d.layout(Rect { x: 0, y: 0, width: 120, height: 6 });
    assert_eq!(r, Rect { x: 0, y: 0, width: 120, height: 6 });
    let long = edit_request().content((0..30).map(|i| format!("line {i}")).collect());
    let mut d = PermissionDialog::new(long);
    let r = d.layout(Rect { x: 0, y: 0, width: 120, height: 40 });
    assert_eq!(r.height, 8 + 8 + 1, "content capped with a tail row");
}

#[test]
fn help_panel_keys_scroll_and_close() {
    let mut panel = HelpPanel::new(vec![HelpSection {
        title: "chat",
        entries: vec![HelpEntry { keys: "enter", description: "send" }],
    }]);
    assert!(!panel.key(Key::Down));
    assert!(!panel.key(Key::Char('j')));
    assert_eq!(panel.scroll, 2);
    assert!(!panel.key(Key::Up));
    assert!(!panel.key(Key::Char('k')));
    assert!(!panel.key(Key::Char('k')));
    assert_eq!(panel.scroll, 0, "saturates at the top");
    assert!(!panel.key(Key::Enter));
    assert!(panel.key(Key::Esc), "esc closes");
}

fn panel_text(panel: &mut HelpPanel, area: Rect) -> String {
    let (_, title, lines) = panel.layout(area);
    let mut out: String = title.spans.iter().map(|s| s.content.as_str()).collect();
    for l in &lines {
        out.push('\n');
        out.push_str(&l.spans.iter().map(|s| s.content.as_str()).collect::<String>());
    }
    out
}

#[test]
fn help_panel_esc_closes_and_draws_sections() {
    let mut panel = HelpPanel::new(vec![HelpSection {
        title: "chat",
        entries: vec![
            HelpEntry {
                keys: "enter",
                description: "send",
            },
            HelpEntry {
                keys: "esc",
                description: "view",
            },
        ],
    }]);
    assert_eq!(panel.total_rows(), 3, "1 title + 2 entries");

    let area = Rect { x: 0, y: 0, width: 100, height: 50 };
    let text = panel_text(&mut panel, area);
    assert!(text.contains("Keyboard shortcuts"), "panel title");
    assert!(text.contains("chat"), "section title");
    assert!(text.contains("send"), "entry description");
    assert!(text.contains("enter"), "key name");
    assert!(text.contains("enter         send"), "keys padded to the column");

    assert!(panel.key(Key::Esc), "esc closes");
    assert!(!panel.key(Key::Char('x')), "other keys keep it open");
}

#[test]
fn help_panel_scrolls_when_taller_than_area() {
    let mut panel = HelpPanel::new(vec![HelpSection {
        title: "big",
        entries: (0..20)
            .map(|_| HelpEntry {
                keys: "k",
                description: "entry",
            })
            .collect(),
    }]);
    let area = Rect { x: 0, y: 0, width: 100, height: 10 };
    let text = panel_text(&mut panel, area);
    assert!(text.contains("Keyboard shortcuts"), "bordered panel fits");

    panel.key(Key::Down);
    let (rect, _, lines) = panel.layout(area);
    assert_eq!(panel.scroll, 1, "scrolled one row");
    assert_eq!(rect, Rect { x: 16, y: 0, width: 68, height: 10 });
    assert_eq!(lines.len(), 8, "the rows inside the border");
    // scroll is capped so the last row stays visible
    for _ in 0..100 {
        panel.key(Key::Down);
    }
    panel.layout(area);
    assert_eq!(panel.scroll, panel.total_rows().saturating_sub(area.height - 2));
}

fn menu_text(menu: &mut SlashCommandMenu, area: Rect) -> String {
    menu.layout(area);
    let (title, lines) = menu.lines();
    let mut out: String = title.spans.iter().map(|s| s.content.as_str()).collect();
    for l in &lines {
        out.push('\n');
        out.push_str(&l.spans.iter().map(|s| s.content.as_str()).collect::<String>());
    }
    out
}

#[test]
fn long_lists_scroll_and_draw_caps_rows() {
    let many: Vec<SlashCommand> = (0..20)
        .map(|i| SlashCommand::new(&format!("cmd{i:02}"), "demo command"))
        .collect();
    let mut menu = SlashCommandMenu::new(many);
    let area = Rect { x: 0, y: 0, width: 100, height: 50 };
    let text = menu_text(&mut menu, area);
    assert_eq!(text.matches("/cmd").count(), MENU_ROWS, "only MENU_ROWS rows drawn");

    // moving down past the window scrolls
    for _ in 0..15 {
        menu.key(Key::Down);
    }
    assert_eq!(menu.selected, 15);
    assert!(menu.key(Key::Enter).is_some(), "selection stays valid");
    // the window itself stays at the top of the list
    let text = menu_text(&mut menu, area);
    assert!(text.contains("  /cmd00  demo command"), "window unchanged:\n{text}");
    assert!(!text.contains("❯"), "the selection lies below the window");
}

#[test]
fn menu_title_shows_live_filter() {
    let mut menu = SlashCommandMenu::new(commands());
    menu.set_filter("mo");
    let area = Rect { x: 0, y: 0, width: 100, height: 50 };
    let text = menu_text(&mut menu, area);
    assert!(text.contains("/mo"), "filter in the menu title");
}

#[test]
fn dialog_rows_show_target_question_and_options() {
    let text = |l: &rsmarkdown::tui::renderer::Line| l.spans.iter().map(|s| s.content.as_str()).collect::<String>();
    let mut d = PermissionDialog::new(edit_request().source("explore"));
    d.key(Key::Down);
    let (title, rows) = d.rows();
    assert_eq!(text(&title), "Edit file");
    let lines: Vec<String> = rows
        .iter()
        .map(|r| match r {
            DialogRow::Line(x, l) => format!("{}{}", " ".repeat(*x as usize), text(l)),
            DialogRow::Content(i) => format!("<content {i}>"),
        })
        .collect();
    assert_eq!(
        lines,
        vec![
            "  src/main.rs".to_string(),
            "  ⏺ explore".to_string(),
            "  Do you want to proceed?".to_string(),
            "    1. Yes".to_string(),
            "  ❯ 2. Yes, allow all edits this session".to_string(),
            "    3. No, and say what to do differently (esc)".to_string(),
        ]
    );
    // long content: the first rows, then a tail row
    let long = edit_request().content((0..30).map(|i| format!("line {i}")).collect());
    let (_, rows) = PermissionDialog::new(long).rows();
    assert!(matches!(rows[1], DialogRow::Content(0)));
    assert!(matches!(rows[8], DialogRow::Content(7)));
    match &rows[9] {
        DialogRow::Line(2, l) => assert_eq!(text(l), "… +22 more"),
        _ => panic!("tail row expected"),
    }
}
