use rsmarkdown::tui::image::{ImagePane, PaneAction};
use rsmarkdown::tui::input::{InputEvent, Key, Mouse, MouseKind};

fn key(k: Key) -> InputEvent {
    InputEvent::Key(k)
}

#[test]
fn image_pane_scrolls_within_the_image() {
    let mut p = ImagePane::with_picker("halfblocks", Some((60, 18)));
    assert_eq!(p.title(), "image");
    assert_eq!(p.total_rows(), 18);
    assert_eq!(p.status(), "halfblocks 60x18 cells  0/18");
    assert_eq!(p.event(key(Key::End)), PaneAction::Used);
    assert_eq!(p.prepare_draw(10), 8, "kept within the image");
    assert_eq!(p.status(), "halfblocks 60x18 cells  8/18");
    assert_eq!(p.event(key(Key::Char('k'))), PaneAction::Used);
    assert_eq!(p.event(InputEvent::Mouse(Mouse { kind: MouseKind::ScrollUp, column: 0, row: 0 })), PaneAction::Used);
    assert_eq!(p.prepare_draw(10), 4);
    assert_eq!(p.event(key(Key::Char('g'))), PaneAction::Used);
    assert_eq!(p.prepare_draw(10), 0);
    assert_eq!(p.event(key(Key::Tab)), PaneAction::Ignored);
    assert_eq!(p.hints(), "[j/k] scroll  [g/G] top/bottom  [r] reload");
}

#[test]
fn image_pane_reload_and_load() {
    let mut p = ImagePane::with_picker("kitty", Some((60, 18)));
    assert_eq!(p.event(key(Key::Char('r'))), PaneAction::Reload("demo://gradient".to_string()));
    p.event(key(Key::PageDown));
    p.load_image(Some((40, 12)), "assets/cat.png");
    assert_eq!(p.status(), "kitty 40x12 cells  0/12", "new image shown from the top");
    assert_eq!(p.event(key(Key::Char('r'))), PaneAction::Reload("assets/cat.png".to_string()));
    p.load_image(None, "missing.png");
    assert_eq!(p.status(), "kitty no image");
    assert_eq!(p.total_rows(), 0);
}
