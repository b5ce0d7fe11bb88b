//! Markdown viewer state: a demo document streamed in small chunks, typing
//! into the document, a stress document, and scrolling.
use vstd::prelude::*;
use crate::text::{extend_all, string_of};
use crate::tui::input::{InputEvent, Key, MouseKind};
use crate::tui::text_reader::add_signed;
use crate::ast::{block_view, Block, BlockV, Inline};

verus! {

/// Bytes of `c` in UTF-8.
pub open spec fn utf8_len(c: char) -> nat {
    if (c as u32) < 0x80 {
        1
    } else if (c as u32) < 0x800 {
        2
    } else if (c as u32) < 0x10000 {
        3
    } else {
        4
    }
}

fn utf8_len_exec(c: char) -> (n: usize)
    ensures
        n == utf8_len(c),
{
    let u = c as u32;
    if u < 0x80 {
        1
    } else if u < 0x800 {
        2
    } else if u < 0x10000 {
        3
    } else {
        4
    }
}

/// Bytes of `s` in UTF-8.
pub open spec fn utf8_bytes(s: Seq<char>) -> nat
    decreases s.len(),
{
    if s.len() == 0 {
        0
    } else {
        utf8_bytes(s.drop_last()) + utf8_len(s.last())
    }
}

/// Characters streamed per tick from `pos`: two bytes' worth, rounded up
/// to a whole character.
pub open spec fn chunk_len(demo: Seq<char>, pos: int) -> int {
    if utf8_len(demo[pos]) == 1 && pos + 1 < demo.len() {
        2
    } else {
        1
    }
}

/// Size of the stress document in UTF-8 bytes, at least.
pub const STRESS_BYTES: usize = 204800;

/// `s` repeated `n` times.
pub open spec fn repeated(s: Seq<char>, n: nat) -> Seq<char>
    decreases n,
{
    if n == 0 {
        Seq::empty()
    } else {
        repeated(s, (n - 1) as nat) + s
    }
}

/// Copies of the demo in the stress document: as many as it takes to
/// reach [`STRESS_BYTES`] bytes.
pub open spec fn stress_copies(demo: Seq<char>) -> nat {
    let b = utf8_bytes(demo);
    if b >= STRESS_BYTES {
        1
    } else {
        ((STRESS_BYTES + b - 1) / (b as int)) as nat
    }
}

/// The image URL of a paragraph whose last element is an image (the alt
/// text comes as a separate leading text element).
pub open spec fn image_paragraph_spec(b: BlockV) -> Option<Seq<char>> {
    match b {
        BlockV::Paragraph(v) => if v.len() > 0 && v.last() is Image {
            Some(v.last()->Image_url)
        } else {
            None
        },
        _ => None,
    }
}

/// The state of a markdown viewer.
pub ghost struct ViewerState {
    /// The document shown.
    pub content: Seq<char>,
    /// The demo document.
    pub demo: Seq<char>,
    /// How much of the demo has streamed, in characters.
    pub demo_pos: int,
    /// Whether keys are typed into the document.
    pub typing: bool,
    /// Whether the view follows the streaming end.
    pub auto_scroll: bool,
    /// First visible row.
    pub scroll: u16,
}

/// The state after one more chunk of the demo streamed in.
pub open spec fn demo_advanced(s: ViewerState) -> ViewerState {
    if s.demo_pos >= s.demo.len() {
        s
    } else {
        let k = chunk_len(s.demo, s.demo_pos);
        ViewerState {
            content: s.content + s.demo.subrange(s.demo_pos, s.demo_pos + k),
            demo_pos: s.demo_pos + k,
            ..s
        }
    }
}

/// The state with the demo starting over.
pub open spec fn demo_restarted(s: ViewerState) -> ViewerState {
    ViewerState { content: Seq::empty(), demo_pos: 0, typing: false, scroll: 0, auto_scroll: true, ..s }
}

/// The state with the stress document loaded.
pub open spec fn stress_loaded(s: ViewerState) -> ViewerState {
    ViewerState {
        content: repeated(s.demo, stress_copies(s.demo)),
        demo_pos: s.demo.len() as int,
        typing: false,
        auto_scroll: false,
        scroll: 0,
        ..s
    }
}

/// The state after scrolling by `d` rows (auto-scroll stops).
pub open spec fn viewer_scrolled(s: ViewerState, d: int) -> ViewerState {
    ViewerState { scroll: add_signed(s.scroll, d), auto_scroll: false, ..s }
}

/// The reaction to a key (`ctrl`: whether Ctrl was held): while typing,
/// characters (but Ctrl+`` ` ``) and `Backspace` edit the document and
/// `Esc` stops typing; otherwise `t` toggles typing, `d` restarts the demo,
/// `s` toggles auto-scroll, `r` restarts and streams a first chunk, `p`
/// loads the stress document, and `j`/`k`, arrows, pages, `g`/`Home` and
/// `G`/`End` scroll.
pub open spec fn viewer_key(s: ViewerState, k: Key, ctrl: bool) -> (ViewerState, bool) {
    if s.typing && (k is Char || k is Backspace || k is Esc) {
        match k {
            Key::Char(c) => if c == '`' && ctrl {
                (s, true)
            } else {
                (ViewerState { content: s.content.push(c), ..s }, true)
            },
            Key::Backspace => (
                ViewerState {
                    content: if s.content.len() > 0 {
                        s.content.drop_last()
                    } else {
                        s.content
                    },
                    ..s
                },
                true,
            ),
            _ => (ViewerState { typing: false, ..s }, true),
        }
    } else {
        match k {
            Key::Char('t') => (ViewerState { typing: !s.typing, auto_scroll: false, ..s }, true),
            Key::Char('d') => (demo_restarted(s), true),
            Key::Char('s') => (ViewerState { auto_scroll: !s.auto_scroll, ..s }, true),
            Key::Char('r') => (demo_advanced(demo_restarted(s)), true),
            Key::Char('p') => (stress_loaded(s), true),
            Key::Char('j') | Key::Down => (viewer_scrolled(s, 1), true),
            Key::Char('k') | Key::Up => (viewer_scrolled(s, -1), true),
            Key::PageDown => (viewer_scrolled(s, 10), true),
            Key::PageUp => (viewer_scrolled(s, -10), true),
            Key::Home | Key::Char('g') => (ViewerState { scroll: 0, ..s }, true),
            Key::End | Key::Char('G') => (ViewerState { scroll: u16::MAX, ..s }, true),
            Key::Esc => (ViewerState { typing: false, ..s }, true),
            _ => (s, false),
        }
    }
}

/// The reaction to an event: keys as [`viewer_key`], the wheel scrolls by
/// three rows.
pub open spec fn viewer_event(s: ViewerState, ev: InputEvent, ctrl: bool) -> (ViewerState, bool) {
    match ev {
        InputEvent::Key(k) => viewer_key(s, k, ctrl),
        InputEvent::Mouse(m) => match m.kind {
            MouseKind::ScrollUp => (viewer_scrolled(s, -3), true),
            MouseKind::ScrollDown => (viewer_scrolled(s, 3), true),
            _ => (s, false),
        },
        InputEvent::Other => (s, false),
    }
}

/// Streaming markdown viewer (parsing, rendering and images of the
/// document are the host's).
pub struct MarkdownViewer {
    content: Vec<char>,
    demo: Vec<char>,
    demo_pos: usize,
    typing: bool,
    auto_scroll: bool,
    scroll: u16,
}

impl View for MarkdownViewer {
    type V = ViewerState;

    closed spec fn view(&self) -> ViewerState {
        ViewerState {
            content: self.content@,
            demo: self.demo@,
            demo_pos: self.demo_pos as int,
            typing: self.typing,
            auto_scroll: self.auto_scroll,
            scroll: self.scroll,
        }
    }
}

impl MarkdownViewer {
    /// Well-formed: the streamed part lies within the demo, which is not
    /// empty.
    pub closed spec fn wf(&self) -> bool {
        0 < self.demo@.len() && self.demo_pos <= self.demo@.len()
    }

    /// Create the viewer for `demo`; the first two chunks stream in right
    /// away.
    pub fn new(demo: &str) -> (v: Self)
        requires
            demo@.len() > 0,
        ensures
            v.wf(),
            v@ == demo_advanced(
                demo_advanced(
                    ViewerState {
                        content: Seq::empty(),
                        demo: demo@,
                        demo_pos: 0,
                        typing: false,
                        auto_scroll: true,
                        scroll: 0,
                    },
                ),
            ),
    {
        let d = crate::text::chars_of(demo);
        let mut this = MarkdownViewer {
            content: Vec::new(),
            demo: d,
            demo_pos: 0,
            typing: false,
            auto_scroll: true,
            scroll: 0,
        };
        assert(this@.content =~= Seq::<char>::empty());
        this.advance_demo();
        this.advance_demo();
        this
    }

    fn advance_demo(&mut self)
        requires
            old(self).wf(),
        ensures
            final(self).wf(),
            final(self)@ == demo_advanced(old(self)@),
    {
        if self.demo_pos >= self.demo.len() {
            return;
        }
        let pos = self.demo_pos;
        let k: usize = if utf8_len_exec(self.demo[pos]) == 1 && pos + 1 < self.demo.len() {
            2
        } else {
            1
        };
        assert(k == chunk_len(self.demo@, pos as int));
        let end: usize = pos + k;
        let mut i: usize = pos;
        while i < end
            invariant
                pos < self.demo@.len(),
                end == pos + k,
                end <= self.demo@.len(),
                pos <= i <= end,
                self.demo@ == old(self).demo@,
                self.typing == old(self).typing,
                self.auto_scroll == old(self).auto_scroll,
                self.scroll == old(self).scroll,
                self.content@ == old(self).content@ + self.demo@.subrange(pos as int, i as int),
            decreases end - i,
        {
            self.content.push(self.demo[i]);
            assert(self.demo@.subrange(pos as int, i + 1) =~= self.demo@.subrange(pos as int, i as int).push(
                self.demo@[i as int],
            ));
            i += 1;
        }
        self.demo_pos = end;
    }

    fn restart_demo(&mut self)
        ensures
            final(self)@ == demo_restarted(old(self)@),
            old(self).wf() ==> final(self).wf(),
    {
        self.content = Vec::new();
        self.demo_pos = 0;
        self.typing = false;
        self.scroll = 0;
        self.auto_scroll = true;
        assert(self@.content =~= Seq::<char>::empty());
    }

    /// Replace the content directly (used by tests and external feeds):
    /// the demo counts as streamed, typing stops.
    pub fn set_content(&mut self, content: &str)
        requires
            old(self).wf(),
        ensures
            final(self).wf(),
            final(self)@ == (ViewerState {
                content: content@,
                demo_pos: old(self)@.demo.len() as int,
                typing: false,
                ..old(self)@
            }),
    {
        self.content = crate::text::chars_of(content);
        self.demo_pos = self.demo.len();
        self.typing = false;
    }

    /// Bytes of the demo in UTF-8, or [`STRESS_BYTES`] when there are at
    /// least that many.
    fn demo_bytes_capped(&self) -> (n: usize)
        ensures
            n == if utf8_bytes(self.demo@) >= STRESS_BYTES {
                STRESS_BYTES as nat
            } else {
                utf8_bytes(self.demo@)
            },
    {
        let mut n: usize = 0;
        let mut i: usize = 0;
        assert(self.demo@.take(0) =~= Seq::<char>::empty());
        while i < self.demo.len()
            invariant
                i <= self.demo@.len(),
                n == utf8_bytes(self.demo@.take(i as int)),
                n < STRESS_BYTES,
            decreases self.demo@.len() - i,
        {
            assert(self.demo@.take(i + 1).drop_last() =~= self.demo@.take(i as int));
            n = n + utf8_len_exec(self.demo[i]);
            i += 1;
            if n >= STRESS_BYTES {
                proof {
                    lemma_utf8_bytes_prefix(self.demo@, i as int);
                }
                return STRESS_BYTES;
            }
        }
        assert(self.demo@.take(i as int) =~= self.demo@);
        n
    }

    /// Load a document of at least [`STRESS_BYTES`] bytes: the demo
    /// repeated.
    fn load_stress_doc(&mut self)
        requires
            old(self).wf(),
        ensures
            final(self).wf(),
            final(self)@ == stress_loaded(old(self)@),
    {
        let b = self.demo_bytes_capped();
        proof {
            lemma_utf8_bytes_positive(self.demo@);
        }
        let copies: usize = if b >= STRESS_BYTES {
            1
        } else {
            (STRESS_BYTES + b - 1) / b
        };
        let mut big: Vec<char> = Vec::new();
        let mut c: usize = 0;
        assert(big@ =~= repeated(self.demo@, 0));
        while c < copies
            invariant
                c <= copies,
                big@ == repeated(self.demo@, c as nat),
            decreases copies - c,
        {
            extend_all(&mut big, &self.demo);
            c += 1;
        }
        self.content = big;
        self.demo_pos = self.demo.len();
        self.typing = false;
        self.auto_scroll = false;
        self.scroll = 0;
    }

    fn scroll_by(&mut self, delta: i16)
        ensures
            final(self)@ == viewer_scrolled(old(self)@, delta as int),
    {
        self.scroll = if delta >= 0 {
            self.scroll.saturating_add(delta as u16)
        } else {
            let d: u16 = (0i32 - delta as i32) as u16;
            self.scroll.saturating_sub(d)
        };
        self.auto_scroll = false;
    }

    fn handle_key(&mut self, k: Key, ctrl: bool) -> (used: bool)
        requires
            old(self).wf(),
        ensures
            final(self).wf(),
            (final(self)@, used) == viewer_key(old(self)@, k, ctrl),
    {
        if self.typing {
            match k {
                Key::Char(c) => {
                    if c == '`' && ctrl {
                        return true;
                    }
                    self.content.push(c);
                    return true;
                },
                Key::Backspace => {
                    if self.content.len() > 0 {
                        self.content.pop();
                    }
                    return true;
                },
                Key::Esc => {
                    self.typing = false;
                    return true;
                },
                _ => {},
            }
        }
        match k {
            Key::Char('t') => {
                self.typing = !self.typing;
                self.auto_scroll = false;
                true
            },
            Key::Char('d') => {
                self.restart_demo();
                true
            },
            Key::Char('s') => {
                self.auto_scroll = !self.auto_scroll;
                true
            },
            Key::Char('r') => {
                self.restart_demo();
                self.advance_demo();
                true
            },
            Key::Char('p') => {
                self.load_stress_doc();
                true
            },
            Key::Char('j') | Key::Down => {
                self.scroll_by(1);
                true
            },
            Key::Char('k') | Key::Up => {
                self.scroll_by(-1);
                true
            },
            Key::PageDown => {
                self.scroll_by(10);
                true
            },
            Key::PageUp => {
                self.scroll_by(-10);
                true
            },
            Key::Home | Key::Char('g') => {
                self.scroll = 0;
                true
            },
            Key::End | Key::Char('G') => {
                self.scroll = u16::MAX;
                true
            },
            Key::Esc => {
                self.typing = false;
                true
            },
            _ => false,
        }
    }

    /// Handle one event (`ctrl`: whether Ctrl was held with a key); returns
    /// whether it was used.
    pub fn event(&mut self, ev: InputEvent, ctrl: bool) -> (used: bool)
        requires
            old(self).wf(),
        ensures
            final(self).wf(),
            (final(self)@, used) == viewer_event(old(self)@, ev, ctrl),
    {
        match ev {
            InputEvent::Key(k) => self.handle_key(k, ctrl),
            InputEvent::Mouse(m) => match m.kind {
                MouseKind::ScrollUp => {
                    self.scroll_by(-3);
                    true
                },
                MouseKind::ScrollDown => {
                    self.scroll_by(3);
                    true
                },
                _ => false,
            },
            InputEvent::Other => false,
        }
    }

    /// One host tick: the demo streams on unless the user is typing.
    pub fn on_tick(&mut self)
        requires
            old(self).wf(),
        ensures
            final(self).wf(),
            final(self)@ == if old(self)@.typing {
                old(self)@
            } else {
                demo_advanced(old(self)@)
            },
    {
        if !self.typing {
            self.advance_demo();
        }
    }

    /// The first visible row for a document `total` rows long in an area
    /// `height` rows tall: the bottom while the demo streams with
    /// auto-scroll on, else the scroll position, kept within the document.
    pub fn prepare_draw(&mut self, total: u16, height: u16) -> (first: u16)
        ensures
            ({
                let top = if total > height {
                    total - height
                } else {
                    0
                };
                let sc = if old(self)@.auto_scroll && old(self)@.demo_pos < old(self)@.demo.len() {
                    top as u16
                } else {
                    old(self)@.scroll
                };
                &&& final(self)@ == (ViewerState { scroll: sc, ..old(self)@ })
                &&& first == if sc < top {
                    sc as int
                } else {
                    top
                }
            }),
    {
        let top = total.saturating_sub(height);
        if self.auto_scroll && self.demo_pos < self.demo.len() {
            self.scroll = top;
        }
        if self.scroll < top {
            self.scroll
        } else {
            top
        }
    }

    /// The image URL of an image paragraph (see [`image_paragraph_spec`]).
    pub fn image_paragraph(block: &Block) -> (r: Option<&str>)
        ensures
            match r {
                Some(u) => image_paragraph_spec(block_view(*block)) == Some(u@),
                None => image_paragraph_spec(block_view(*block)) is None,
            },
    {
        match block {
            Block::Paragraph(inlines) => {
                let n = inlines.len();
                if n == 0 {
                    return None;
                }
                assert(crate::ast::inlines_view(inlines@).last() == crate::ast::inline_view(inlines@[n - 1]));
                match &inlines[n - 1] {
                    Inline::Image { url, .. } => Some(url.as_str()),
                    _ => None,
                }
            },
            _ => None,
        }
    }

    /// Raw content.
    pub fn content_debug(&self) -> (s: String)
        ensures
            s@ == self@.content,
    {
        string_of(&self.content)
    }

    /// Component title.
    pub fn title(&self) -> (t: &'static str)
        ensures
            t@ == "markdown"@,
    {
        "markdown"
    }

    /// Key hints for the footer.
    pub fn hints(&self) -> (h: &'static str)
        ensures
            h@ == if self@.typing {
                "[esc] stop typing  [d] demo"@
            } else {
                "[t] type  [d] demo  [p] stress 200KB  [j/k] scroll  [s] autoscroll"@
            },
    {
        if self.typing {
            "[esc] stop typing  [d] demo"
        } else {
            "[t] type  [d] demo  [p] stress 200KB  [j/k] scroll  [s] autoscroll"
        }
    }
}

/// Streaming keeps the content the streamed prefix of the demo: from a
/// state showing the first `demo_pos` characters, one more chunk shows a
/// longer prefix (by one or two characters) until the whole demo shows.
pub proof fn lemma_demo_streams_prefix(s: ViewerState)
    requires
        0 <= s.demo_pos <= s.demo.len(),
        s.content == s.demo.take(s.demo_pos),
    ensures
        ({
            let t = demo_advanced(s);
            &&& 0 <= t.demo_pos <= s.demo.len()
            &&& t.content == s.demo.take(t.demo_pos)
            &&& s.demo_pos < s.demo.len() ==> s.demo_pos < t.demo_pos <= s.demo_pos + 2
            &&& s.demo_pos == s.demo.len() ==> t == s
        }),
{
    if s.demo_pos < s.demo.len() {
        let k = chunk_len(s.demo, s.demo_pos);
        assert(s.demo.take(s.demo_pos) + s.demo.subrange(s.demo_pos, s.demo_pos + k) =~= s.demo.take(
            s.demo_pos + k,
        ));
    }
}

proof fn lemma_utf8_bytes_prefix(s: Seq<char>, i: int)
    requires
        0 <= i <= s.len(),
    ensures
        utf8_bytes(s.take(i)) <= utf8_bytes(s),
    decreases s.len(),
{
    if i < s.len() {
        lemma_utf8_bytes_prefix(s.drop_last(), i);
        assert(s.drop_last().take(i) =~= s.take(i));
    } else {
        assert(s.take(i) =~= s);
    }
}

proof fn lemma_utf8_bytes_positive(s: Seq<char>)
    requires
        s.len() > 0,
    ensures
        utf8_bytes(s) > 0,
{
}

} // verus!
