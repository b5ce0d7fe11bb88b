//! Keybinding help panel: sections of keybindings in a scrollable,
//! centered overlay.
use vstd::prelude::*;
use crate::text::chars_of;
use crate::tui::input::{Key, Rect, sat_sub};
use crate::tui::renderer::{line_of, lines_view, push_lines, push_span, styled, styled_span, Line, LineV, Span, StyleTag};

verus! {

/// One keybinding row.
#[derive(Debug, Clone)]
pub struct HelpEntry {
    /// Key name(s), e.g. `enter`, `esc`, `j/k`.
    pub keys: &'static str,
    /// What the key does.
    pub description: &'static str,
}

/// A titled group of keybindings.
#[derive(Debug, Clone)]
pub struct HelpSection {
    /// Section title (e.g. `chat`, `host`).
    pub title: &'static str,
    /// Keybindings in this section.
    pub entries: Vec<HelpEntry>,
}

/// The help overlay: sections of keybindings, scrollable.
#[derive(Debug)]
pub struct HelpPanel {
    /// Sections, in display order.
    pub sections: Vec<HelpSection>,
    /// Scroll offset of the panel content.
    pub scroll: u16,
}

/// Column width reserved for the key names.
pub const KEYS_COL: u16 = 14;

/// Rows of the first `k` sections: a title row plus one row per entry (the
/// entry count taken as a `u16`).
pub open spec fn rows_of(s: Seq<HelpSection>, k: int) -> int
    decreases k,
{
    if k <= 0 {
        0
    } else {
        rows_of(s, k - 1) + 1 + (s[k - 1].entries@.len() as u16) as int
    }
}

proof fn lemma_rows_of_mono(s: Seq<HelpSection>, j: int, k: int)
    requires
        0 <= j <= k,
    ensures
        rows_of(s, j) <= rows_of(s, k),
    decreases k - j,
{
    if j < k {
        lemma_rows_of_mono(s, j, k - 1);
    }
}

/// The line of a section title.
pub open spec fn title_line(t: Seq<char>) -> LineV {
    line_of(seq![styled(t, StyleTag::Dim)])
}

/// The line of an entry: the keys, padding up to [`KEYS_COL`] columns
/// (counting characters, as a `u16`), and the description.
pub open spec fn entry_line(e: HelpEntry) -> LineV {
    let pad = sat_sub(KEYS_COL as int, (e.keys@.len() as u16) as int);
    line_of(
        seq![
            styled(e.keys@, StyleTag::ToolRunning),
            styled(Seq::new(pad as nat, |i: int| ' '), StyleTag::Dim),
            styled(e.description@, StyleTag::Text),
        ],
    )
}

/// The lines of one section: its title, then its entries.
pub open spec fn section_lines(sec: HelpSection) -> Seq<LineV> {
    seq![title_line(sec.title@)] + sec.entries@.map_values(|e: HelpEntry| entry_line(e))
}

/// All content lines of the first `k` sections, in order.
pub open spec fn help_lines(s: Seq<HelpSection>, k: int) -> Seq<LineV>
    decreases k,
{
    if k <= 0 {
        Seq::empty()
    } else {
        help_lines(s, k - 1) + section_lines(s[k - 1])
    }
}

/// The panel's rectangle in `area`: at most 68 columns wide, as tall as
/// its `rows` plus borders (at least the borders, at most the area),
/// centered.
pub open spec fn help_rect(area: Rect, rows: int) -> Rect {
    let width = if area.width < 68 {
        area.width
    } else {
        68
    };
    let h = if rows + 2 < area.height {
        rows + 2
    } else {
        area.height as int
    };
    let height = if h < 2 {
        2
    } else {
        h
    };
    Rect {
        x: (area.x + sat_sub(area.width as int, width as int) / 2) as u16,
        y: (area.y + sat_sub(area.height as int, height) / 2) as u16,
        width: width as u16,
        height: height as u16,
    }
}

/// The scroll position kept so that the last row stays visible in `view`
/// rows.
pub open spec fn help_scroll(scroll: u16, rows: int, view: int) -> u16 {
    if rows > view {
        if scroll < rows - view {
            scroll
        } else {
            (rows - view) as u16
        }
    } else {
        0
    }
}

impl HelpPanel {
    /// Build a panel from sections (scroll starts at the top).
    pub fn new(sections: Vec<HelpSection>) -> (p: Self)
        ensures
            p.sections@ == sections@,
            p.scroll == 0,
    {
        HelpPanel { sections, scroll: 0 }
    }

    /// Total content rows (titles + entries).
    pub fn total_rows(&self) -> (n: u16)
        requires
            rows_of(self.sections@, self.sections@.len() as int) <= u16::MAX,
        ensures
            n == rows_of(self.sections@, self.sections@.len() as int),
    {
        let mut n: u16 = 0;
        let mut k: usize = 0;
        while k < self.sections.len()
            invariant
                k <= self.sections@.len(),
                n == rows_of(self.sections@, k as int),
                rows_of(self.sections@, self.sections@.len() as int) <= u16::MAX,
            decreases self.sections@.len() - k,
        {
            proof {
                lemma_rows_of_mono(self.sections@, k + 1, self.sections@.len() as int);
            }
            let e: u16 = self.sections[k].entries.len() as u16;
            n = n + 1 + e;
            k += 1;
        }
        n
    }

    /// Lay the panel out in `area`: its rectangle (the content sits inside
    /// the border, one column in), the title on its border, and, with the
    /// scroll position kept so that the last row stays visible, the content
    /// lines shown.
    pub fn layout(&mut self, area: Rect) -> (r: (Rect, Line, Vec<Line>))
        requires
            rows_of(old(self).sections@, old(self).sections@.len() as int) + 2 <= u16::MAX,
            area.x + area.width <= u16::MAX,
            area.y + area.height <= u16::MAX,
        ensures
            ({
                let rows = rows_of(old(self).sections@, old(self).sections@.len() as int);
                let rect = help_rect(area, rows);
                let view = rect.height - 2;
                let sc = help_scroll(old(self).scroll, rows, view);
                let all = help_lines(old(self).sections@, old(self).sections@.len() as int);
                let first = if (sc as int) < all.len() {
                    sc as int
                } else {
                    all.len() as int
                };
                let end = if first + view < all.len() {
                    first + view
                } else {
                    all.len() as int
                };
                &&& r.0 == rect
                &&& r.1@ == line_of(seq![styled("Keyboard shortcuts"@, StyleTag::ToolRunning)])
                &&& final(self).sections == old(self).sections
                &&& final(self).scroll == sc
                &&& lines_view(r.2@) == all.subrange(first, end)
            }),
    {
        let rows = self.total_rows();
        let width: u16 = if area.width < 68 {
            area.width
        } else {
            68
        };
        let h: u16 = if rows + 2 < area.height {
            rows + 2
        } else {
            area.height
        };
        let height: u16 = if h < 2 {
            2
        } else {
            h
        };
        let rect = Rect {
            x: area.x + area.width.saturating_sub(width) / 2,
            y: area.y + area.height.saturating_sub(height) / 2,
            width,
            height,
        };
        let view: u16 = height - 2;
        if rows > view {
            if self.scroll >= rows - view {
                self.scroll = rows - view;
            }
        } else {
            self.scroll = 0;
        }
        let all = self.all_lines();
        let n = all.len();
        let first: usize = if (self.scroll as usize) < n {
            self.scroll as usize
        } else {
            n
        };
        let end: usize = if first + (view as usize) < n {
            first + view as usize
        } else {
            n
        };
        let mut out: Vec<Line> = Vec::new();
        let mut rest = all;
        let mut k: usize = 0;
        let ghost allv = lines_view(rest@);
        while k < end
            invariant
                k <= end,
                end <= n,
                first <= end,
                n == allv.len(),
                rest@.len() + k == n,
                lines_view(rest@) == allv.subrange(k as int, n as int),
                lines_view(out@) == if k <= first {
                    Seq::<LineV>::empty()
                } else {
                    allv.subrange(first as int, k as int)
                },
            decreases end - k,
        {
            let ghost before = lines_view(rest@);
            let ghost rv = rest@;
            let l = rest.remove(0);
            assert(lines_view(rest@) =~= before.drop_first());
            assert(before[0] == rv[0]@);
            assert(before[0] == allv[k as int]);
            assert(l@ == allv[k as int]);
            assert(lines_view(rest@) =~= allv.subrange(k + 1, n as int));
            if k >= first {
                let ghost o = lines_view(out@);
                push_lines(&mut out, l);
                assert(lines_view(out@) =~= allv.subrange(first as int, k + 1));
            }
            k += 1;
        }
        let tt: Vec<char> = vec![
            'K', 'e', 'y', 'b', 'o', 'a', 'r', 'd', ' ', 's', 'h', 'o', 'r', 't', 'c', 'u', 't', 's',
        ];
        proof {
            reveal_strlit("Keyboard shortcuts");
            assert(tt@ =~= "Keyboard shortcuts"@);
        }
        let mut ts: Vec<Span> = Vec::new();
        push_span(&mut ts, styled_span(&tt, StyleTag::ToolRunning));
        let title = Line { spans: ts, style: Vec::new() };
        assert(title@.spans =~= line_of(seq![styled("Keyboard shortcuts"@, StyleTag::ToolRunning)]).spans);
        assert(title@.style =~= Seq::<StyleTag>::empty());
        (rect, title, out)
    }

    /// All content lines: per section, its title and its entries.
    fn all_lines(&self) -> (r: Vec<Line>)
        ensures
            lines_view(r@) == help_lines(self.sections@, self.sections@.len() as int),
    {
        let mut out: Vec<Line> = Vec::new();
        let mut k: usize = 0;
        while k < self.sections.len()
            invariant
                k <= self.sections@.len(),
                lines_view(out@) == help_lines(self.sections@, k as int),
            decreases self.sections@.len() - k,
        {
            let sec = &self.sections[k];
            let t = chars_of(sec.title);
            let mut sp: Vec<Span> = Vec::new();
            push_span(&mut sp, styled_span(&t, StyleTag::Dim));
            let tl = Line { spans: sp, style: Vec::new() };
            assert(tl@.spans =~= title_line(sec.title@).spans);
            assert(tl@.style =~= Seq::<StyleTag>::empty());
            let ghost base = lines_view(out@);
            push_lines(&mut out, tl);
            let mut j: usize = 0;
            while j < sec.entries.len()
                invariant
                    j <= sec.entries@.len(),
                    lines_view(out@) == base + seq![title_line(sec.title@)] + sec.entries@.take(
                        j as int,
                    ).map_values(|e: HelpEntry| entry_line(e)),
                decreases sec.entries@.len() - j,
            {
                let e = &sec.entries[j];
                let keys = chars_of(e.keys);
                let kc = keys.len() as u16;
                let pad: u16 = KEYS_COL.saturating_sub(kc);
                let mut spaces: Vec<char> = Vec::new();
                let mut p: u16 = 0;
                while p < pad
                    invariant
                        p <= pad,
                        spaces@ == Seq::new(p as nat, |i: int| ' '),
                    decreases pad - p,
                {
                    spaces.push(' ');
                    assert(spaces@ =~= Seq::new((p + 1) as nat, |i: int| ' '));
                    p += 1;
                }
                let desc = chars_of(e.description);
                let mut sp: Vec<Span> = Vec::new();
                push_span(&mut sp, styled_span(&keys, StyleTag::ToolRunning));
                push_span(&mut sp, styled_span(&spaces, StyleTag::Dim));
                push_span(&mut sp, styled_span(&desc, StyleTag::Text));
                let el = Line { spans: sp, style: Vec::new() };
                assert(el@.spans =~= entry_line(*e).spans);
                assert(el@.style =~= Seq::<StyleTag>::empty());
                push_lines(&mut out, el);
                assert(sec.entries@.take(j + 1).map_values(|e: HelpEntry| entry_line(e)) =~= sec.entries@.take(
                    j as int,
                ).map_values(|e: HelpEntry| entry_line(e)).push(entry_line(*e)));
                j += 1;
            }
            assert(sec.entries@.take(j as int) =~= sec.entries@);
            assert(lines_view(out@) =~= help_lines(self.sections@, k + 1));
            k += 1;
        }
        out
    }

    /// Handle one key: `Esc` closes the panel (the result is `true`), up /
    /// `k` and down / `j` scroll by one row.
    pub fn key(&mut self, key: Key) -> (closed: bool)
        requires
            (key == Key::Down || key == Key::Char('j')) ==> old(self).scroll < u16::MAX,
        ensures
            closed == (key == Key::Esc),
            final(self).sections == old(self).sections,
            final(self).scroll == match key {
                Key::Up | Key::Char('k') => sat_sub(old(self).scroll as int, 1) as u16,
                Key::Down | Key::Char('j') => (old(self).scroll + 1) as u16,
                _ => old(self).scroll,
            },
    {
        match key {
            Key::Esc => true,
            Key::Up | Key::Char('k') => {
                self.scroll = self.scroll.saturating_sub(1);
                false
            },
            Key::Down | Key::Char('j') => {
                self.scroll = self.scroll + 1;
                false
            },
            _ => false,
        }
    }
}

} // verus!
