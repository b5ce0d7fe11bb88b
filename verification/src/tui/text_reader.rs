//! Plain-text streaming log: a component that is not about markdown at all,
//! generating one log line per tick.
use vstd::prelude::*;
use crate::text::{extend_all, string_of};
use crate::tui::agent::{decimal, decimal_exec};
use crate::tui::input::{InputEvent, Key, MouseKind, sat_sub};
use crate::tui::renderer::{
    line_of, lines_view, push_lines, push_span, raw_span, styled, styled_span, raw, Line, LineV, Span,
    StyleTag,
};

verus! {

/// Lines kept in the log; older lines are dropped.
pub const MAX_LINES: usize = 10_000;

/// `n` with at least two digits.
pub open spec fn pad2(n: nat) -> Seq<char> {
    if n < 10 {
        seq!['0'] + decimal(n)
    } else {
        decimal(n)
    }
}

/// `n` with at least three digits.
pub open spec fn pad3(n: nat) -> Seq<char> {
    if n < 10 {
        seq!['0', '0'] + decimal(n)
    } else if n < 100 {
        seq!['0'] + decimal(n)
    } else {
        decimal(n)
    }
}

/// The log line number `seq`: a made-up timestamp, a level (errors every
/// tenth line, warnings on the two before) and a request message.
pub open spec fn log_line(seq: u64) -> LineV {
    let level = seq % 10;
    let (tag, style) = if level <= 6 {
        (seq!['I', 'N', 'F', 'O', ' '], StyleTag::LogInfo)
    } else if level <= 8 {
        (seq!['W', 'A', 'R', 'N', ' '], StyleTag::LogWarn)
    } else {
        (seq!['E', 'R', 'R', 'O', 'R'], StyleTag::LogError)
    };
    let ts = pad2(((seq * 3) % 24) as nat) + seq![':'] + pad2(((seq * 7) % 60) as nat) + seq![':'] + pad2(
        ((seq * 13) % 60) as nat,
    ) + seq!['.'] + pad3(((seq * 37) % 1000) as nat);
    let msg = if level >= 9 {
        seq!['r', 'e', 'q', 'u', 'e', 's', 't', ' ', '#'] + decimal(seq as nat) + " failed after retries (timeout)"@
    } else {
        seq!['r', 'e', 'q', 'u', 'e', 's', 't', ' ', '#'] + decimal(seq as nat) + seq![' ', 'o', 'k', ' ', 'i', 'n', ' ']
            + decimal((1 + level) as nat) + seq!['.'] + decimal(((seq * 7) % 10) as nat) + seq!['m', 's']
    };
    line_of(seq![styled(ts + seq![' ', ' '], StyleTag::Dim), styled(tag + seq![' '], style), raw(msg)])
}

/// The last `MAX_LINES` lines of `ls`.
pub open spec fn keep_last(ls: Seq<LineV>) -> Seq<LineV> {
    if ls.len() > MAX_LINES {
        ls.subrange(ls.len() - MAX_LINES, ls.len() as int)
    } else {
        ls
    }
}

/// `s + d`, kept within `0..=u16::MAX`.
pub open spec fn add_signed(s: u16, d: int) -> u16 {
    if s + d < 0 {
        0
    } else if s + d > u16::MAX {
        u16::MAX
    } else {
        (s + d) as u16
    }
}

/// The state of a log viewer.
pub ghost struct LogState {
    /// The log lines, oldest first.
    pub lines: Seq<LineV>,
    /// First visible line.
    pub scroll: u16,
    /// Whether the view follows the newest line.
    pub auto_scroll: bool,
    /// Number of the next line.
    pub seq: u64,
}

/// The state after scrolling by `d` lines (auto-scroll stops).
pub open spec fn scrolled(s: LogState, d: int) -> LogState {
    LogState { scroll: add_signed(s.scroll, d), auto_scroll: false, ..s }
}

/// The reaction to one event: `j`/`k`, arrows, pages and the wheel scroll,
/// `g`/`Home` and `G`/`End` jump, `s` toggles auto-scroll.
pub open spec fn log_event(s: LogState, ev: InputEvent) -> (LogState, bool) {
    match ev {
        InputEvent::Key(k) => match k {
            Key::Char('j') | Key::Down => (scrolled(s, 1), true),
            Key::Char('k') | Key::Up => (scrolled(s, -1), true),
            Key::PageDown => (scrolled(s, 10), true),
            Key::PageUp => (scrolled(s, -10), true),
            Key::Home | Key::Char('g') => (LogState { scroll: 0, ..s }, true),
            Key::End | Key::Char('G') => (LogState { scroll: u16::MAX, ..s }, true),
            Key::Char('s') => (LogState { auto_scroll: !s.auto_scroll, ..s }, true),
            _ => (s, false),
        },
        InputEvent::Mouse(m) => match m.kind {
            MouseKind::ScrollUp => (scrolled(s, -3), true),
            MouseKind::ScrollDown => (scrolled(s, 3), true),
            _ => (s, false),
        },
        InputEvent::Other => (s, false),
    }
}

/// Streaming plain-text log component.
pub struct TextReader {
    lines: Vec<Line>,
    scroll: u16,
    auto_scroll: bool,
    seq: u64,
}

impl View for TextReader {
    type V = LogState;

    closed spec fn view(&self) -> LogState {
        LogState {
            lines: lines_view(self.lines@),
            scroll: self.scroll,
            auto_scroll: self.auto_scroll,
            seq: self.seq,
        }
    }
}

/// Digits of `n` with at least `w` (2 or 3) places.
fn padded(n: u64, w: usize) -> (v: Vec<char>)
    requires
        w == 2 || w == 3,
    ensures
        v@ == if w == 2 {
            pad2(n as nat)
        } else {
            pad3(n as nat)
        },
{
    let mut v: Vec<char> = Vec::new();
    if n < 10 {
        v.push('0');
        if w == 3 {
            v.push('0');
        }
    } else if n < 100 && w == 3 {
        v.push('0');
    }
    let d = decimal_exec(n);
    extend_all(&mut v, &d);
    v
}

impl TextReader {
    /// Create an empty log; it generates entries on tick.
    pub fn new() -> (r: Self)
        ensures
            r@ == (LogState { lines: Seq::empty(), scroll: 0, auto_scroll: true, seq: 0 }),
    {
        let r = TextReader { lines: Vec::new(), scroll: 0, auto_scroll: true, seq: 0 };
        assert(r@.lines =~= Seq::<LineV>::empty());
        r
    }

    fn emit(&mut self)
        requires
            old(self)@.seq <= u64::MAX / 37,
        ensures
            final(self)@ == (LogState {
                lines: keep_last(old(self)@.lines.push(log_line(old(self)@.seq))),
                seq: (old(self)@.seq + 1) as u64,
                ..old(self)@
            }),
    {
        let seq = self.seq;
        let level = seq % 10;
        let (tag, style): (Vec<char>, StyleTag) = if level <= 6 {
            (vec!['I', 'N', 'F', 'O', ' '], StyleTag::LogInfo)
        } else if level <= 8 {
            (vec!['W', 'A', 'R', 'N', ' '], StyleTag::LogWarn)
        } else {
            (vec!['E', 'R', 'R', 'O', 'R'], StyleTag::LogError)
        };
        let mut ts = padded((seq * 3) % 24, 2);
        ts.push(':');
        let m = padded((seq * 7) % 60, 2);
        extend_all(&mut ts, &m);
        ts.push(':');
        let s = padded((seq * 13) % 60, 2);
        extend_all(&mut ts, &s);
        ts.push('.');
        let ms = padded((seq * 37) % 1000, 3);
        extend_all(&mut ts, &ms);
        let ghost ts_only = ts@;
        ts.push(' ');
        ts.push(' ');
        let mut msg: Vec<char> = vec!['r', 'e', 'q', 'u', 'e', 's', 't', ' ', '#'];
        let num = decimal_exec(seq);
        extend_all(&mut msg, &num);
        if level >= 9 {
            let tail: Vec<char> = vec![
                ' ', 'f', 'a', 'i', 'l', 'e', 'd', ' ', 'a', 'f', 't', 'e', 'r', ' ', 'r', 'e', 't', 'r', 'i', 'e',
                's', ' ', '(', 't', 'i', 'm', 'e', 'o', 'u', 't', ')',
            ];
            extend_all(&mut msg, &tail);
            proof {
                reveal_strlit(" failed after retries (timeout)");
                assert(tail@ =~= " failed after retries (timeout)"@);
                assert(msg@ =~= seq!['r', 'e', 'q', 'u', 'e', 's', 't', ' ', '#'] + decimal(seq as nat)
                    + " failed after retries (timeout)"@);
            }
        } else {
            let ok: Vec<char> = vec![' ', 'o', 'k', ' ', 'i', 'n', ' '];
            extend_all(&mut msg, &ok);
            let lv = decimal_exec(1 + level);
            extend_all(&mut msg, &lv);
            msg.push('.');
            let frac = decimal_exec((seq * 7) % 10);
            extend_all(&mut msg, &frac);
            msg.push('m');
            msg.push('s');
            assert(msg@ =~= seq!['r', 'e', 'q', 'u', 'e', 's', 't', ' ', '#'] + decimal(seq as nat) + seq![
                ' ',
                'o',
                'k',
                ' ',
                'i',
                'n',
                ' ',
            ] + decimal((1 + level) as nat) + seq!['.'] + decimal(((seq * 7) % 10) as nat) + seq!['m', 's']);
        }
        let ghost tag0 = tag@;
        let mut tag_text = tag;
        tag_text.push(' ');
        assert(tag_text@ =~= tag0 + seq![' ']);
        assert(tag0 =~= if level <= 6 {
            seq!['I', 'N', 'F', 'O', ' ']
        } else if level <= 8 {
            seq!['W', 'A', 'R', 'N', ' ']
        } else {
            seq!['E', 'R', 'R', 'O', 'R']
        });
        let mut spans: Vec<Span> = Vec::new();
        push_span(&mut spans, styled_span(&ts, StyleTag::Dim));
        push_span(&mut spans, styled_span(&tag_text, style));
        push_span(&mut spans, raw_span(&msg));
        let line = Line { spans, style: Vec::new() };
        proof {
            assert(ts@ =~= pad2(((seq * 3) % 24) as nat) + seq![':'] + pad2(((seq * 7) % 60) as nat) + seq![':']
                + pad2(((seq * 13) % 60) as nat) + seq!['.'] + pad3(((seq * 37) % 1000) as nat) + seq![' ', ' ']);
            assert(line@.spans =~= log_line(seq).spans);
            assert(line@.style =~= Seq::<StyleTag>::empty());
            assert(line@ == log_line(seq));
        }
        let ghost pushed = lines_view(self.lines@).push(line@);
        push_lines(&mut self.lines, line);
        while self.lines.len() > MAX_LINES
            invariant
                keep_last(lines_view(self.lines@)) == keep_last(pushed),
                lines_view(self.lines@).len() <= pushed.len(),
                self.scroll == old(self).scroll,
                self.auto_scroll == old(self).auto_scroll,
                self.seq == old(self).seq,
            decreases self.lines@.len(),
        {
            let ghost before = lines_view(self.lines@);
            self.lines.remove(0);
            assert(lines_view(self.lines@) =~= before.drop_first());
            assert(keep_last(lines_view(self.lines@)) =~= keep_last(before));
        }
        assert(keep_last(lines_view(self.lines@)) == lines_view(self.lines@));
        self.seq = seq + 1;
    }

    fn scroll_by(&mut self, delta: i16)
        ensures
            final(self)@ == scrolled(old(self)@, delta as int),
    {
        self.scroll = if delta >= 0 {
            self.scroll.saturating_add(delta as u16)
        } else {
            let d: u16 = (0i32 - delta as i32) as u16;
            self.scroll.saturating_sub(d)
        };
        self.auto_scroll = false;
    }

    /// Component title.
    pub fn title(&self) -> (t: &'static str)
        ensures
            t@ == "log"@,
    {
        "log"
    }

    /// Handle one event; returns whether it was used.
    pub fn event(&mut self, ev: InputEvent) -> (used: bool)
        ensures
            (final(self)@, used) == log_event(old(self)@, ev),
    {
        match ev {
            InputEvent::Key(k) => match k {
                Key::Char('j') | Key::Down => {
                    self.scroll_by(1);
                    true
                },
                Key::Char('k') | Key::Up => {
                    self.scroll_by(-1);
                    true
                },
                Key::PageDown => {
                    self.scroll_by(10);
                    true
                },
                Key::PageUp => {
                    self.scroll_by(-10);
                    true
                },
                Key::Home | Key::Char('g') => {
                    self.scroll = 0;
                    true
                },
                Key::End | Key::Char('G') => {
                    self.scroll = u16::MAX;
                    true
                },
                Key::Char('s') => {
                    self.auto_scroll = !self.auto_scroll;
                    true
                },
                _ => false,
            },
            InputEvent::Mouse(m) => match m.kind {
                MouseKind::ScrollUp => {
                    self.scroll_by(-3);
                    true
                },
                MouseKind::ScrollDown => {
                    self.scroll_by(3);
                    true
                },
                _ => false,
            },
            InputEvent::Other => false,
        }
    }

    /// One host tick: one more log line.
    pub fn on_tick(&mut self)
        requires
            old(self)@.seq <= u64::MAX / 37,
        ensures
            final(self)@ == (LogState {
                lines: keep_last(old(self)@.lines.push(log_line(old(self)@.seq))),
                seq: (old(self)@.seq + 1) as u64,
                ..old(self)@
            }),
    {
        self.emit();
    }

    /// The lines shown in an area `height` rows tall: the view follows the
    /// newest line while auto-scrolling, and is kept within the log. Returns
    /// the range of visible line indices.
    pub fn prepare_draw(&mut self, height: u16) -> (r: (usize, usize))
        ensures
            ({
                let total = (old(self)@.lines.len() as u16) as int;
                let top = sat_sub(total, height as int);
                let s0 = if old(self)@.auto_scroll {
                    top
                } else {
                    old(self)@.scroll as int
                };
                let first = if s0 < top {
                    s0
                } else {
                    top
                };
                &&& final(self)@ == (LogState { scroll: s0 as u16, ..old(self)@ })
                &&& r.0 == first
                &&& r.1 == if first + height < old(self)@.lines.len() {
                    first + height
                } else {
                    old(self)@.lines.len() as int
                }
            }),
    {
        let total = self.lines.len() as u16;
        let top = total.saturating_sub(height);
        if self.auto_scroll {
            self.scroll = top;
        }
        let first: usize = if self.scroll < top {
            self.scroll as usize
        } else {
            top as usize
        };
        let end: usize = if first + (height as usize) < self.lines.len() {
            first + height as usize
        } else {
            self.lines.len()
        };
        (first, end)
    }

    /// The log lines, oldest first.
    pub fn lines(&self) -> (r: &[Line])
        ensures
            lines_view(r@) == self@.lines,
    {
        self.lines.as_slice()
    }

    /// Status line: `N lines seq S scroll/N`.
    pub fn status(&self) -> (s: String)
        ensures
            s@ == decimal(self@.lines.len()) + " lines seq "@ + decimal(self@.seq as nat) + seq![' ']
                + decimal(self@.scroll as nat) + seq!['/'] + decimal(self@.lines.len()),
    {
        let mut v = decimal_exec(self.lines.len() as u64);
        let t: Vec<char> = vec![' ', 'l', 'i', 'n', 'e', 's', ' ', 's', 'e', 'q', ' '];
        extend_all(&mut v, &t);
        let s = decimal_exec(self.seq);
        extend_all(&mut v, &s);
        v.push(' ');
        let sc = decimal_exec(self.scroll as u64);
        extend_all(&mut v, &sc);
        v.push('/');
        let n = decimal_exec(self.lines.len() as u64);
        extend_all(&mut v, &n);
        proof {
            reveal_strlit(" lines seq ");
        }
        assert(v@ =~= decimal(self@.lines.len()) + " lines seq "@ + decimal(self@.seq as nat) + seq![' ']
            + decimal(self@.scroll as nat) + seq!['/'] + decimal(self@.lines.len()));
        string_of(&v)
    }

    /// Key hints for the footer.
    pub fn hints(&self) -> (h: &'static str)
        ensures
            h@ == "[j/k] scroll  [s] autoscroll"@,
    {
        "[j/k] scroll  [s] autoscroll"
    }
}

impl Default for TextReader {
    fn default() -> (r: Self)
        ensures
            r@ == (LogState { lines: Seq::empty(), scroll: 0, auto_scroll: true, seq: 0 }),
    {
        Self::new()
    }
}

} // verus!
