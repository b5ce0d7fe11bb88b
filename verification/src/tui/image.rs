//! Where an image of a markdown document comes from.
use vstd::prelude::*;
use crate::text::{chars_of, extend_all, string_of, sub_vec, matches_at_exec};
use crate::tui::agent::{decimal, decimal_exec};
use crate::tui::input::{InputEvent, Key, MouseKind};
use crate::tui::text_reader::add_signed;

verus! {

/// The source an image URL resolves to. Loading it is the display layer's
/// job: a demo gradient is drawn, an asset is read from the crate's
/// `assets` directory (the demo gradient stands in when it cannot be
/// read), any other URL is opened as a file path (no image when it cannot
/// be read).
#[derive(Debug, Clone, PartialEq, Eq)]
pub enum ImageSource {
    /// The built-in demo gradient (`demo://gradient`).
    DemoGradient,
    /// A file under `assets/`, by its path relative to that directory.
    Asset(String),
    /// Any other URL, taken as a file path.
    File(String),
}

/// The view of an [`ImageSource`].
pub enum ImageSourceV {
    DemoGradient,
    Asset(Seq<char>),
    File(Seq<char>),
}

impl View for ImageSource {
    type V = ImageSourceV;

    open spec fn view(&self) -> ImageSourceV {
        match self {
            ImageSource::DemoGradient => ImageSourceV::DemoGradient,
            ImageSource::Asset(p) => ImageSourceV::Asset(p@),
            ImageSource::File(p) => ImageSourceV::File(p@),
        }
    }
}

/// The demo URL.
pub open spec fn demo_url() -> Seq<char> {
    seq!['d', 'e', 'm', 'o', ':', '/', '/', 'g', 'r', 'a', 'd', 'i', 'e', 'n', 't']
}

/// The asset prefix.
pub open spec fn assets_prefix() -> Seq<char> {
    seq!['a', 's', 's', 'e', 't', 's', '/']
}

/// The source of an image URL: the demo URL, an `assets/` path, or a file.
pub open spec fn source_of(url: Seq<char>) -> ImageSourceV {
    if url == demo_url() {
        ImageSourceV::DemoGradient
    } else if assets_prefix().is_prefix_of(url) {
        ImageSourceV::Asset(url.subrange(assets_prefix().len() as int, url.len() as int))
    } else {
        ImageSourceV::File(url)
    }
}

/// Resolve an image URL to its source.
pub fn resolve_image(url: &str) -> (s: ImageSource)
    ensures
        s@ == source_of(url@),
{
    let u = chars_of(url);
    let demo: Vec<char> = vec!['d', 'e', 'm', 'o', ':', '/', '/', 'g', 'r', 'a', 'd', 'i', 'e', 'n', 't'];
    let prefix: Vec<char> = vec!['a', 's', 's', 'e', 't', 's', '/'];
    assert(demo@ =~= demo_url());
    assert(prefix@ =~= assets_prefix());
    if crate::text::chars_eq(&u, &demo) {
        return ImageSource::DemoGradient;
    }
    if u.len() >= prefix.len() && matches_at_exec(&u, 0, &prefix) {
        assert(prefix@ =~= u@.subrange(0, prefix@.len() as int));
        let rest = sub_vec(&u, prefix.len(), u.len());
        return ImageSource::Asset(string_of(&rest));
    }
    proof {
        if assets_prefix().is_prefix_of(u@) {
            assert(crate::text::matches_at(u@, 0, prefix@));
        }
    }
    ImageSource::File(url.to_owned())
}

/// What the image pane did with an event.
#[derive(Debug, Clone, PartialEq, Eq)]
pub enum PaneAction {
    /// The event was not used.
    Ignored,
    /// The event was used.
    Used,
    /// The event was used and asks to load the image from this source
    /// again (the loading is the display layer's; see
    /// [`ImagePane::load_image`]).
    Reload(String),
}

/// The state of an image pane.
pub ghost struct PaneState {
    /// Name of the graphics protocol in use.
    pub protocol: Seq<char>,
    /// Where the image came from.
    pub source: Seq<char>,
    /// Size of the sliced image in cells (width, height), if one is loaded.
    pub size: Option<(u16, u16)>,
    /// First visible row.
    pub scroll: u16,
}

/// The reaction to an event: `j`/`k`, arrows, pages and the wheel scroll,
/// `g`/`Home` and `G`/`End` jump, `r` reloads the image.
pub open spec fn pane_event(s: PaneState, ev: InputEvent) -> (PaneState, Option<Option<Seq<char>>>) {
    match ev {
        InputEvent::Key(k) => match k {
            Key::Char('j') | Key::Down => (PaneState { scroll: add_signed(s.scroll, 1), ..s }, Some(None)),
            Key::Char('k') | Key::Up => (PaneState { scroll: add_signed(s.scroll, -1), ..s }, Some(None)),
            Key::PageDown => (PaneState { scroll: add_signed(s.scroll, 10), ..s }, Some(None)),
            Key::PageUp => (PaneState { scroll: add_signed(s.scroll, -10), ..s }, Some(None)),
            Key::Home | Key::Char('g') => (PaneState { scroll: 0, ..s }, Some(None)),
            Key::End | Key::Char('G') => (PaneState { scroll: u16::MAX, ..s }, Some(None)),
            Key::Char('r') => (s, Some(Some(s.source))),
            _ => (s, None),
        },
        InputEvent::Mouse(m) => match m.kind {
            MouseKind::ScrollUp => (PaneState { scroll: add_signed(s.scroll, -3), ..s }, Some(None)),
            MouseKind::ScrollDown => (PaneState { scroll: add_signed(s.scroll, 3), ..s }, Some(None)),
            _ => (s, None),
        },
        InputEvent::Other => (s, None),
    }
}

/// The outcome of an action: `None` when ignored, `Some(None)` when used,
/// `Some(Some(src))` when a reload of `src` is asked for.
pub open spec fn action_view(a: PaneAction) -> Option<Option<Seq<char>>> {
    match a {
        PaneAction::Ignored => None,
        PaneAction::Used => Some(None),
        PaneAction::Reload(src) => Some(Some(src@)),
    }
}

/// A scrollable image (the image itself, its graphics protocol and its
/// painting are the display layer's; the pane knows their names and the
/// image's size in cells).
pub struct ImagePane {
    protocol_name: &'static str,
    source_name: String,
    size: Option<(u16, u16)>,
    scroll: u16,
}

impl View for ImagePane {
    type V = PaneState;

    closed spec fn view(&self) -> PaneState {
        PaneState {
            protocol: self.protocol_name@,
            source: self.source_name@,
            size: self.size,
            scroll: self.scroll,
        }
    }
}

impl ImagePane {
    /// A pane showing the demo gradient through the protocol
    /// `protocol_name`, sliced to `size` cells.
    pub fn with_picker(protocol_name: &'static str, size: Option<(u16, u16)>) -> (p: Self)
        ensures
            p@ == (PaneState { protocol: protocol_name@, source: demo_url(), size, scroll: 0 }),
    {
        let demo: Vec<char> = vec!['d', 'e', 'm', 'o', ':', '/', '/', 'g', 'r', 'a', 'd', 'i', 'e', 'n', 't'];
        assert(demo@ =~= demo_url());
        ImagePane { protocol_name, source_name: string_of(&demo), size, scroll: 0 }
    }

    /// Show a newly loaded image from `name`, sliced to `size` cells, from
    /// its top.
    pub fn load_image(&mut self, size: Option<(u16, u16)>, name: &str)
        ensures
            final(self)@ == (PaneState { source: name@, size, scroll: 0, ..old(self)@ }),
    {
        self.size = size;
        self.source_name = name.to_owned();
        self.scroll = 0;
    }

    /// Rows of the image (0 without one).
    pub fn total_rows(&self) -> (n: u16)
        ensures
            n == match self@.size {
                Some(sz) => sz.1,
                None => 0,
            },
    {
        match self.size {
            Some((_, h)) => h,
            None => 0,
        }
    }

    fn scroll_by(&mut self, delta: i16)
        ensures
            final(self)@ == (PaneState { scroll: add_signed(old(self)@.scroll, delta as int), ..old(self)@ }),
    {
        self.scroll = if delta >= 0 {
            self.scroll.saturating_add(delta as u16)
        } else {
            let d: u16 = (0i32 - delta as i32) as u16;
            self.scroll.saturating_sub(d)
        };
    }

    /// Handle one event (see [`pane_event`]).
    pub fn event(&mut self, ev: InputEvent) -> (a: PaneAction)
        ensures
            (final(self)@, action_view(a)) == pane_event(old(self)@, ev),
    {
        match ev {
            InputEvent::Key(k) => match k {
                Key::Char('j') | Key::Down => {
                    self.scroll_by(1);
                    PaneAction::Used
                },
                Key::Char('k') | Key::Up => {
                    self.scroll_by(-1);
                    PaneAction::Used
                },
                Key::PageDown => {
                    self.scroll_by(10);
                    PaneAction::Used
                },
                Key::PageUp => {
                    self.scroll_by(-10);
                    PaneAction::Used
                },
                Key::Home | Key::Char('g') => {
                    self.scroll = 0;
                    PaneAction::Used
                },
                Key::End | Key::Char('G') => {
                    self.scroll = u16::MAX;
                    PaneAction::Used
                },
                Key::Char('r') => PaneAction::Reload(self.source_name.clone()),
                _ => PaneAction::Ignored,
            },
            InputEvent::Mouse(m) => match m.kind {
                MouseKind::ScrollUp => {
                    self.scroll_by(-3);
                    PaneAction::Used
                },
                MouseKind::ScrollDown => {
                    self.scroll_by(3);
                    PaneAction::Used
                },
                _ => PaneAction::Ignored,
            },
            InputEvent::Other => PaneAction::Ignored,
        }
    }

    /// Keep the scroll position within the image for an area `height`
    /// rows tall; returns the first visible row (nothing changes without an
    /// image).
    pub fn prepare_draw(&mut self, height: u16) -> (first: u16)
        ensures
            match old(self)@.size {
                Some(sz) => {
                    let top = if sz.1 > height {
                        (sz.1 - height) as u16
                    } else {
                        0
                    };
                    let sc = if old(self)@.scroll < top {
                        old(self)@.scroll
                    } else {
                        top
                    };
                    first == sc && final(self)@ == (PaneState { scroll: sc, ..old(self)@ })
                },
                None => first == old(self)@.scroll && final(self)@ == old(self)@,
            },
    {
        match self.size {
            Some((_, h)) => {
                let top = h.saturating_sub(height);
                if top < self.scroll {
                    self.scroll = top;
                }
                self.scroll
            },
            None => self.scroll,
        }
    }

    /// Component title.
    pub fn title(&self) -> (t: &'static str)
        ensures
            t@ == "image"@,
    {
        "image"
    }

    /// Status line: `PROTOCOL WxH cells  SCROLL/H`, or `PROTOCOL no image`.
    pub fn status(&self) -> (s: String)
        ensures
            s@ == match self@.size {
                Some(sz) => self@.protocol + seq![' '] + decimal(sz.0 as nat) + seq!['x'] + decimal(sz.1 as nat)
                    + " cells  "@ + decimal(self@.scroll as nat) + seq!['/'] + decimal(sz.1 as nat),
                None => self@.protocol + " no image"@,
            },
    {
        let mut v = chars_of(self.protocol_name);
        match self.size {
            Some((w, h)) => {
                v.push(' ');
                let a = decimal_exec(w as u64);
                extend_all(&mut v, &a);
                v.push('x');
                let b = decimal_exec(h as u64);
                extend_all(&mut v, &b);
                let c: Vec<char> = vec![' ', 'c', 'e', 'l', 'l', 's', ' ', ' '];
                extend_all(&mut v, &c);
                let d = decimal_exec(self.scroll as u64);
                extend_all(&mut v, &d);
                v.push('/');
                let e = decimal_exec(h as u64);
                extend_all(&mut v, &e);
                proof {
                    reveal_strlit(" cells  ");
                    assert(c@ =~= " cells  "@);
                }
                assert(v@ =~= self@.protocol + seq![' '] + decimal(w as nat) + seq!['x'] + decimal(h as nat)
                    + " cells  "@ + decimal(self@.scroll as nat) + seq!['/'] + decimal(h as nat));
            },
            None => {
                let c: Vec<char> = vec![' ', 'n', 'o', ' ', 'i', 'm', 'a', 'g', 'e'];
                extend_all(&mut v, &c);
                proof {
                    reveal_strlit(" no image");
                    assert(c@ =~= " no image"@);
                }
                assert(v@ =~= self@.protocol + " no image"@);
            },
        }
        string_of(&v)
    }

    /// Key hints for the footer.
    pub fn hints(&self) -> (h: &'static str)
        ensures
            h@ == "[j/k] scroll  [g/G] top/bottom  [r] reload"@,
    {
        "[j/k] scroll  [g/G] top/bottom  [r] reload"
    }
}

} // verus!
