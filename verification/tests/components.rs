use rsmarkdown::tui::input::{InputEvent, Key};
use rsmarkdown::tui::list::ListView;
use rsmarkdown::tui::renderer::{Line, StyleTag};
use rsmarkdown::tui::text_reader::TextReader;

fn line_text(line: &Line) -> String {
    line.spans.iter().map(|s| s.content.as_str()).collect()
}

fn screen(lines: &[Line]) -> String {
    lines.iter().map(line_text).collect::<Vec<_>>().join("\n")
}

#[test]
fn text_component_ticks_and_draws() {
    let mut c = TextReader::new();
    for _ in 0..10 {
        c.on_tick();
    }
    let (first, end) = c.prepare_draw(10);
    let text = screen(&c.lines()[first..end]);
    assert!(text.contains("request"), "log lines visible:\n{text}");
}

#[test]
fn list_component_interacts() {
    let mut c = ListView::todo_examples();
    let before = screen(&c.lines(10));
    assert!(before.contains("[ ]"), "open items visible");

    // toggle the first item via space
    assert!(c.event(InputEvent::Key(Key::Char(' '))), "space should be consumed");
    let after = screen(&c.lines(10));
    assert!(after.contains("[x]"), "item toggled:\n{after}");
    assert!(c.status().starts_with("1/12 done"));
}

#[test]
fn host_key_routing() {
    // Tab is host-level: components do not consume it
    let mut c = TextReader::new();
    assert!(!c.event(InputEvent::Key(Key::Tab)), "Tab falls through to the host");
}

#[test]
fn list_lines_follow_the_selection() {
    let mut c = ListView::todo_examples();
    assert_eq!(c.title(), "tasks");
    assert_eq!(c.hints(), "[j/k] move  [space] toggle");
    let lines = c.lines(3);
    assert_eq!(lines.len(), 3);
    assert_eq!(line_text(&lines[0]), "[ ] Stream a markdown document");
    assert_eq!(lines[0].spans[2].style, vec![StyleTag::Reversed], "selected item reversed");
    assert_eq!(lines[0].spans[0].style, vec![StyleTag::TaskOpen]);
    // move past the bottom of the view: it scrolls to keep the selection
    for _ in 0..4 {
        assert!(c.event(InputEvent::Key(Key::Char('j'))));
    }
    let lines = c.lines(3);
    assert_eq!(line_text(&lines[2]), "[ ] Write the README");
    assert_eq!(c.status(), "0/12 done  selected 5");
    assert!(c.event(InputEvent::Key(Key::Enter)));
    let lines = c.lines(3);
    assert_eq!(lines[2].spans[2].style, vec![StyleTag::Dim, StyleTag::Reversed]);
    assert_eq!(lines[2].spans[0].style, vec![StyleTag::TaskDone]);
    // up from the top wraps to the last item
    assert!(c.event(InputEvent::Key(Key::Home)) == false);
    for _ in 0..5 {
        c.event(InputEvent::Key(Key::Up));
    }
    assert_eq!(c.status(), "1/12 done  selected 12");
}
