use rsmarkdown::tui::input::{InputEvent, Key, Mouse, MouseKind};
use rsmarkdown::tui::renderer::{Line, StyleTag};
use rsmarkdown::tui::text_reader::{TextReader, MAX_LINES};

fn text(line: &Line) -> String {
    line.spans.iter().map(|s| s.content.as_str()).collect()
}

#[test]
fn log_lines_follow_the_sequence() {
    let mut r = TextReader::new();
    assert_eq!(r.status(), "0 lines seq 0 0/0");
    for _ in 0..10 {
        r.on_tick();
    }
    let lines = r.lines();
    assert_eq!(text(&lines[0]), "00:00:00.000  INFO  request #0 ok in 1.0ms");
    assert_eq!(text(&lines[7]), "21:49:31.259  WARN  request #7 ok in 8.9ms");
    assert_eq!(text(&lines[9]), "03:03:57.333  ERROR request #9 failed after retries (timeout)");
    assert_eq!(lines[9].spans[1].style, vec![StyleTag::LogError]);
    assert_eq!(lines[0].spans[0].style, vec![StyleTag::Dim]);
    assert_eq!(r.status(), "10 lines seq 10 0/10");
    assert_eq!(r.title(), "log");
    assert_eq!(r.hints(), "[j/k] scroll  [s] autoscroll");
}

#[test]
fn log_scrolls_and_follows() {
    let mut r = TextReader::default();
    for _ in 0..10 {
        r.on_tick();
    }
    assert_eq!(r.prepare_draw(4), (6, 10), "auto-scroll shows the newest lines");
    assert!(r.event(InputEvent::Key(Key::Char('k'))));
    assert_eq!(r.prepare_draw(4), (5, 9), "scrolling stops following");
    for _ in 0..10 {
        r.event(InputEvent::Key(Key::Up));
    }
    assert_eq!(r.prepare_draw(4), (0, 4), "saturates at the top");
    r.event(InputEvent::Key(Key::End));
    assert_eq!(r.prepare_draw(4), (6, 10), "end is kept within the log");
    r.event(InputEvent::Key(Key::Home));
    r.event(InputEvent::Mouse(Mouse { kind: MouseKind::ScrollDown, column: 0, row: 0 }));
    assert_eq!(r.prepare_draw(4), (3, 7));
    assert!(r.event(InputEvent::Key(Key::Char('s'))));
    assert_eq!(r.prepare_draw(4), (6, 10), "following again");
    assert!(!r.event(InputEvent::Key(Key::Enter)));
    assert!(!r.event(InputEvent::Other));
}

#[test]
fn log_keeps_the_newest_lines() {
    let mut r = TextReader::new();
    for _ in 0..(MAX_LINES + 1) {
        r.on_tick();
    }
    assert_eq!(r.lines().len(), MAX_LINES);
    assert!(text(&r.lines()[0]).contains("request #1 "));
}
