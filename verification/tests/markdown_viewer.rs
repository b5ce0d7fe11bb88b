use rsmarkdown::tui::input::{InputEvent, Key, Mouse, MouseKind};
use rsmarkdown::tui::markdown::MarkdownViewer;

const DEMO: &str = "# Demo\n\nSome **bold** text — and é.\n";

fn key(k: Key) -> InputEvent {
    InputEvent::Key(k)
}

#[test]
fn demo_streams_two_bytes_per_tick() {
    let mut v = MarkdownViewer::new(DEMO);
    assert_eq!(v.content_debug(), "# De", "two chunks at start");
    v.on_tick();
    assert_eq!(v.content_debug(), "# Demo");
    for _ in 0..200 {
        v.on_tick();
    }
    assert_eq!(v.content_debug(), DEMO, "the whole demo streams in");
}

#[test]
fn multibyte_characters_stream_whole() {
    let mut v = MarkdownViewer::new("éa—b");
    // `é` is two bytes: one per chunk; then `a` plus the three-byte dash
    assert_eq!(v.content_debug(), "éa—");
    v.on_tick();
    assert_eq!(v.content_debug(), "éa—b");
}

#[test]
fn typing_edits_the_document() {
    let mut v = MarkdownViewer::new(DEMO);
    v.set_content("");
    assert!(v.event(key(Key::Char('t')), false), "t starts typing");
    assert_eq!(v.hints(), "[esc] stop typing  [d] demo");
    assert!(v.event(key(Key::Char('*')), false));
    assert!(v.event(key(Key::Char('x')), false));
    assert!(v.event(key(Key::Char('`')), true), "ctrl-backtick swallowed");
    assert_eq!(v.content_debug(), "*x");
    assert!(v.event(key(Key::Backspace), false));
    assert_eq!(v.content_debug(), "*");
    v.on_tick();
    assert_eq!(v.content_debug(), "*", "no streaming while typing");
    assert!(v.event(key(Key::Esc), false));
    assert_eq!(v.hints(), "[t] type  [d] demo  [p] stress 200KB  [j/k] scroll  [s] autoscroll");
}

#[test]
fn demo_restart_and_stress_document() {
    let mut v = MarkdownViewer::new(DEMO);
    assert!(v.event(key(Key::Char('d')), false));
    assert_eq!(v.content_debug(), "");
    assert!(v.event(key(Key::Char('r')), false));
    assert_eq!(v.content_debug(), "# ");
    assert!(v.event(key(Key::Char('p')), false));
    let big = v.content_debug();
    assert!(big.len() >= 200 * 1024);
    assert!(big.len() < 200 * 1024 + DEMO.len());
    assert!(big.starts_with(DEMO) && big.ends_with(DEMO));
    v.on_tick();
    assert_eq!(v.content_debug().len(), big.len(), "demo counts as streamed");
}

#[test]
fn scrolling_stops_auto_scroll() {
    let mut v = MarkdownViewer::new(DEMO);
    // auto-scroll keeps the bottom in view while the demo streams
    assert_eq!(v.prepare_draw(50, 10), 40);
    assert!(v.event(key(Key::Char('k')), false));
    assert_eq!(v.prepare_draw(50, 10), 39);
    assert!(v.event(InputEvent::Mouse(Mouse { kind: MouseKind::ScrollUp, column: 0, row: 0 }), false));
    assert_eq!(v.prepare_draw(50, 10), 36);
    assert!(v.event(key(Key::End), false));
    assert_eq!(v.prepare_draw(50, 10), 40, "kept within the document");
    assert!(v.event(key(Key::Home), false));
    assert_eq!(v.prepare_draw(50, 10), 0);
    assert!(!v.event(key(Key::Tab), false));
    assert_eq!(v.title(), "markdown");
}

#[test]
fn image_paragraphs_are_recognized() {
    let ast = rsmarkdown::parse::parse_block("![a gradient](demo://gradient)\n\nplain text");
    assert_eq!(MarkdownViewer::image_paragraph(&ast.children[0]), Some("demo://gradient"));
    assert_eq!(MarkdownViewer::image_paragraph(&ast.children[1]), None);
}
