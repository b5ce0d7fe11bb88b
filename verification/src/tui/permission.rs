//! Permission dialog: a title, a target summary, the question and numbered
//! options with a `❯` marker on the selection. `Esc` dismisses; the dialog
//! is modal and owns the keyboard while open.
use vstd::prelude::*;
use crate::text::{chars_of, extend_all};
use crate::tui::agent::{decimal, decimal_exec};
use crate::tui::input::{Key, Mouse, MouseKind, Rect, sat_sub};
use crate::tui::renderer::{line_of, push_span, styled, styled_span, span_of, Line, LineV, Span, SpanV, StyleTag};

verus! {

/// What the user did with the dialog.
#[derive(Debug, Clone, Copy, PartialEq, Eq, Structural)]
pub enum DialogAction {
    /// Option `index` (0-based) was confirmed.
    Confirm(usize),
    /// The dialog was dismissed with `Esc`.
    Cancel,
}

/// A permission request: title, target summary, question, numbered options
/// and an optional pre-rendered content preview (`L` is the display
/// layer's line type).
#[derive(Debug, Clone)]
pub struct PermissionRequest<L> {
    /// Dialog title, e.g. `Read file` / `Edit file`.
    pub title: String,
    /// Target summary shown under the title.
    pub target: Option<String>,
    /// Requesting agent, shown when present.
    pub source: Option<String>,
    /// The question, e.g. `Do you want to proceed?`.
    pub question: String,
    /// Numbered options (numbers are added when drawn).
    pub options: Vec<String>,
    /// Pre-rendered content preview, drawn above the question.
    pub content: Vec<L>,
}

impl<L> PermissionRequest<L> {
    /// Create a request with the given title, question and options.
    pub fn new(title: &str, question: &str, options: Vec<String>) -> (r: Self)
        ensures
            r.title@ == title@,
            r.target.is_none(),
            r.source.is_none(),
            r.question@ == question@,
            r.options@ == options@,
            r.content@.len() == 0,
    {
        PermissionRequest {
            title: title.to_owned(),
            target: None,
            source: None,
            question: question.to_owned(),
            options,
            content: Vec::new(),
        }
    }

    /// Set the target summary line.
    pub fn target(self, target: &str) -> (r: Self)
        ensures
            r == (PermissionRequest { target: r.target, ..self }),
            r.target is Some,
            r.target->0@ == target@,
    {
        PermissionRequest { target: Some(target.to_owned()), ..self }
    }

    /// Set the requesting agent line.
    pub fn source(self, source: &str) -> (r: Self)
        ensures
            r == (PermissionRequest { source: r.source, ..self }),
            r.source is Some,
            r.source->0@ == source@,
    {
        PermissionRequest { source: Some(source.to_owned()), ..self }
    }

    /// Attach pre-rendered content lines.
    pub fn content(self, lines: Vec<L>) -> (r: Self)
        ensures
            r == (PermissionRequest { content: lines, ..self }),
    {
        PermissionRequest { content: lines, ..self }
    }
}

/// Max content preview rows inside the dialog; longer content gets a
/// `… +N more` tail.
pub const CONTENT_CAP: usize = 8;

/// The reaction to a key in a dialog with `n` options and selection `sel`:
/// the new selection and the outcome, if the dialog closes. A dialog
/// without options cancels on any key; `Esc` cancels; up / `Shift+Tab` /
/// `k` and down / `Tab` / `j` move the selection with wrap-around; `Enter`
/// confirms the selection; a digit `1`..`9` confirms that option when it
/// exists.
pub open spec fn dialog_key(sel: usize, n: int, k: Key) -> (usize, Option<DialogAction>) {
    if n == 0 {
        (sel, Some(DialogAction::Cancel))
    } else {
        match k {
            Key::Esc => (sel, Some(DialogAction::Cancel)),
            Key::Up | Key::BackTab | Key::Char('k') => (((sel + n - 1) % n) as usize, None),
            Key::Down | Key::Tab | Key::Char('j') => (((sel + 1) % n) as usize, None),
            Key::Enter => (sel, Some(DialogAction::Confirm(sel))),
            Key::Char(c) => if '1' <= c && c <= '9' && (c as int) - ('1' as int) < n {
                (sel, Some(DialogAction::Confirm(((c as int) - ('1' as int)) as usize)))
            } else {
                (sel, None)
            },
            _ => (sel, None),
        }
    }
}

/// The option whose row (dialog-local) contains `y`: the options are the
/// last inner rows above one padding row and the bottom border.
pub open spec fn option_row(height: u16, n: int, y: u16) -> Option<usize> {
    if n == 0 || (height as int) < 2 + (n as u16) as int {
        None
    } else {
        let last = height as int - 2;
        let first = last - (n as u16) as int;
        if first <= y as int && (y as int) < last {
            Some((y as int - first) as usize)
        } else {
            None
        }
    }
}

/// Rows the dialog wants: borders, target and source lines, the content
/// preview (at most `CONTENT_CAP` rows plus a tail row), the question, the
/// options and a padding row.
pub open spec fn wanted_rows<L>(r: PermissionRequest<L>) -> int {
    let c = r.content@.len() as int;
    2 + (if r.target is Some { 1int } else { 0int }) + (if r.source is Some { 1int } else { 0int })
        + (if c < CONTENT_CAP as int { c } else { CONTENT_CAP as int })
        + (if c > CONTENT_CAP as int { 1int } else { 0int }) + 1 + r.options@.len() + 1
}

/// The dialog's rectangle in `area`: full width, flush to the bottom, as
/// tall as it wants (taken as a `u16`) but no taller than the area.
pub open spec fn dialog_rect<L>(r: PermissionRequest<L>, area: Rect) -> Rect {
    let want = wanted_rows(r) as u16;
    let height = if want < area.height {
        want
    } else {
        area.height
    };
    Rect {
        x: area.x,
        y: (area.y + sat_sub(area.height as int, height as int)) as u16,
        width: area.width,
        height,
    }
}

/// A row inside the dialog's border.
pub enum DialogRow {
    /// A line, this many columns in from the border.
    Line(u16, Line),
    /// Content preview line `i` of the request, one column in.
    Content(usize),
}

/// The view of a [`DialogRow`].
pub enum DialogRowV {
    Line(u16, LineV),
    Content(usize),
}

impl View for DialogRow {
    type V = DialogRowV;

    open spec fn view(&self) -> DialogRowV {
        match self {
            DialogRow::Line(x, l) => DialogRowV::Line(*x, l@),
            DialogRow::Content(i) => DialogRowV::Content(*i),
        }
    }
}

/// The views of a list of rows.
pub open spec fn rows_view(r: Seq<DialogRow>) -> Seq<DialogRowV> {
    r.map_values(|x: DialogRow| x@)
}

/// The line of option `i` (0-based) of `options`: the `❯` marker on the
/// selection, then `N. option`.
pub open spec fn option_line(options: Seq<String>, i: int, selected: usize) -> LineV {
    line_of(
        seq![
            SpanV {
                content: if i == selected {
                    "❯ "@
                } else {
                    "  "@
                },
                style: if i == selected {
                    seq![StyleTag::PermissionSelected]
                } else {
                    Seq::empty()
                },
            },
            styled(decimal((i + 1) as nat) + ". "@ + options[i]@, StyleTag::Text),
        ],
    )
}

/// The rows inside the dialog, top to bottom: the target, the requesting
/// agent, the content preview (at most [`CONTENT_CAP`] lines, then a
/// `… +N more` row), the question and the numbered options.
pub open spec fn dialog_rows<L>(r: PermissionRequest<L>, selected: usize) -> Seq<DialogRowV> {
    let c = r.content@.len() as int;
    let shown = if c < CONTENT_CAP as int {
        c
    } else {
        CONTENT_CAP as int
    };
    let t = match r.target {
        Some(t) => seq![DialogRowV::Line(2, line_of(seq![styled(t@, StyleTag::Dim)]))],
        None => Seq::empty(),
    };
    let s = match r.source {
        Some(x) => seq![
            DialogRowV::Line(
                2,
                line_of(seq![styled("⏺ "@, StyleTag::ActivityDot), styled(x@, StyleTag::Dim)]),
            ),
        ],
        None => Seq::empty(),
    };
    let content = Seq::new(shown as nat, |i: int| DialogRowV::Content(i as usize));
    let tail = if c > CONTENT_CAP as int {
        seq![
            DialogRowV::Line(
                2,
                line_of(seq![styled("… +"@ + decimal((c - shown) as nat) + " more"@, StyleTag::Dim)]),
            ),
        ]
    } else {
        Seq::empty()
    };
    let q = seq![DialogRowV::Line(2, line_of(seq![styled(r.question@, StyleTag::Text)]))];
    let opts = Seq::new(
        r.options@.len(),
        |i: int| DialogRowV::Line(2, option_line(r.options@, i, selected)),
    );
    t + s + content + tail + q + opts
}

fn push_row(out: &mut Vec<DialogRow>, r: DialogRow)
    ensures
        rows_view(final(out)@) == rows_view(old(out)@).push(r@),
{
    out.push(r);
    assert(rows_view(out@) =~= rows_view(old(out)@).push(r@));
}

fn one_span_line(t: &[char], tag: StyleTag) -> (l: Line)
    ensures
        l@ == line_of(seq![styled(t@, tag)]),
{
    let mut sp: Vec<Span> = Vec::new();
    push_span(&mut sp, styled_span(t, tag));
    let l = Line { spans: sp, style: Vec::new() };
    assert(l@.spans =~= line_of(seq![styled(t@, tag)]).spans);
    assert(l@.style =~= Seq::<StyleTag>::empty());
    l
}

/// The open modal: a request plus the current selection.
pub struct PermissionDialog<L> {
    /// The request being presented.
    pub request: PermissionRequest<L>,
    /// Index of the selected option.
    pub selected: usize,
    last_rect: Rect,
}

/// The state of a dialog.
pub ghost struct DialogState<L> {
    /// The request being presented.
    pub request: PermissionRequest<L>,
    /// Index of the selected option.
    pub selected: usize,
    /// Rectangle of the last draw.
    pub drawn: Rect,
}

impl<L> View for PermissionDialog<L> {
    type V = DialogState<L>;

    closed spec fn view(&self) -> DialogState<L> {
        DialogState { request: self.request, selected: self.selected, drawn: self.last_rect }
    }
}

impl<L> PermissionDialog<L> {
    /// Open a dialog for the given request (first option selected).
    pub fn new(request: PermissionRequest<L>) -> (d: Self)
        ensures
            d@.request == request,
            d@.selected == 0,
            d@.drawn == (Rect { x: 0, y: 0, width: 0, height: 0 }),
    {
        PermissionDialog { request, selected: 0, last_rect: Rect::zero() }
    }

    /// The request being presented.
    pub fn request(&self) -> (r: &PermissionRequest<L>)
        ensures
            *r == self@.request,
    {
        &self.request
    }

    /// Number of options.
    pub fn option_count(&self) -> (n: usize)
        ensures
            n == self@.request.options@.len(),
    {
        self.request.options.len()
    }

    /// Handle one key. Returns the resulting action, or `None` if the dialog
    /// stays open.
    pub fn key(&mut self, key: Key) -> (r: Option<DialogAction>)
        requires
            old(self)@.selected + old(self)@.request.options@.len() <= usize::MAX,
        ensures
            (final(self)@.selected, r) == dialog_key(
                old(self)@.selected,
                old(self)@.request.options@.len() as int,
                key,
            ),
            final(self)@.request == old(self)@.request,
            final(self)@.drawn == old(self)@.drawn,
    {
        let n = self.option_count();
        if n == 0 {
            return Some(DialogAction::Cancel);
        }
        match key {
            Key::Esc => Some(DialogAction::Cancel),
            Key::Up | Key::BackTab | Key::Char('k') => {
                self.selected = (self.selected + n - 1) % n;
                None
            },
            Key::Down | Key::Tab | Key::Char('j') => {
                self.selected = (self.selected + 1) % n;
                None
            },
            Key::Enter => Some(DialogAction::Confirm(self.selected)),
            Key::Char(c) => {
                if '1' <= c && c <= '9' {
                    let idx = (c as u32 - '1' as u32) as usize;
                    if idx < n {
                        Some(DialogAction::Confirm(idx))
                    } else {
                        None
                    }
                } else {
                    None
                }
            },
            _ => None,
        }
    }

    /// Option index whose row (dialog-local) contains `y`, if any.
    fn option_at(&self, y: u16) -> (r: Option<usize>)
        ensures
            r == option_row(self@.drawn.height, self@.request.options@.len() as int, y),
    {
        let n = self.option_count();
        if n == 0 {
            return None;
        }
        let rows = n as u16;
        if self.last_rect.height < 2 || self.last_rect.height - 2 < rows {
            return None;
        }
        let last = self.last_rect.height - 2;
        let first = last - rows;
        if y >= first && y < last {
            Some((y - first) as usize)
        } else {
            None
        }
    }

    /// Handle a mouse event in dialog-local coordinates (origin at the
    /// dialog's top-left). A first click selects an option; a click on the
    /// already selected option confirms it.
    pub fn click(&mut self, m: &Mouse) -> (r: Option<DialogAction>)
        ensures
            final(self)@.request == old(self)@.request,
            final(self)@.drawn == old(self)@.drawn,
            (final(self)@.selected, r) == (if m.kind != MouseKind::LeftDown {
                (old(self)@.selected, None)
            } else {
                match option_row(old(self)@.drawn.height, old(self)@.request.options@.len() as int, m.row) {
                    Some(i) => if i == old(self)@.selected {
                        (old(self)@.selected, Some(DialogAction::Confirm(i)))
                    } else {
                        (i, None)
                    },
                    None => (old(self)@.selected, None),
                }
            }),
    {
        if m.kind != MouseKind::LeftDown {
            return None;
        }
        match self.option_at(m.row) {
            Some(i) => {
                if i == self.selected {
                    Some(DialogAction::Confirm(i))
                } else {
                    self.selected = i;
                    None
                }
            },
            None => None,
        }
    }

    /// What the dialog shows: its title on the border (the request's title)
    /// and the rows inside the border (see [`dialog_rows`]). A dialog laid
    /// out less than two rows tall shows nothing.
    pub fn rows(&self) -> (r: (Line, Vec<DialogRow>))
        ensures
            r.0@ == line_of(seq![styled(self@.request.title@, StyleTag::Permission)]),
            rows_view(r.1@) == dialog_rows(self@.request, self@.selected),
    {
        let tv = chars_of(self.request.title.as_str());
        let title = one_span_line(&tv, StyleTag::Permission);
        let mut out: Vec<DialogRow> = Vec::new();
        let ghost req = self@.request;
        match &self.request.target {
            Some(t) => {
                let tt = chars_of(t.as_str());
                push_row(&mut out, DialogRow::Line(2, one_span_line(&tt, StyleTag::Dim)));
            },
            None => {},
        }
        match &self.request.source {
            Some(x) => {
                let dot: Vec<char> = vec!['⏺', ' '];
                let xv = chars_of(x.as_str());
                let mut sp: Vec<Span> = Vec::new();
                push_span(&mut sp, styled_span(&dot, StyleTag::ActivityDot));
                push_span(&mut sp, styled_span(&xv, StyleTag::Dim));
                let l = Line { spans: sp, style: Vec::new() };
                proof {
                    reveal_strlit("⏺ ");
                    assert(dot@ =~= "⏺ "@);
                }
                assert(l@.spans =~= line_of(seq![styled("⏺ "@, StyleTag::ActivityDot), styled(x@, StyleTag::Dim)]).spans);
                assert(l@.style =~= Seq::<StyleTag>::empty());
                push_row(&mut out, DialogRow::Line(2, l));
            },
            None => {},
        }
        let ghost head = rows_view(out@);
        let c = self.request.content.len();
        let shown: usize = if c < CONTENT_CAP {
            c
        } else {
            CONTENT_CAP
        };
        let mut i: usize = 0;
        while i < shown
            invariant
                i <= shown,
                rows_view(out@) == head + Seq::new(i as nat, |k: int| DialogRowV::Content(k as usize)),
            decreases shown - i,
        {
            push_row(&mut out, DialogRow::Content(i));
            assert(rows_view(out@) =~= head + Seq::new((i + 1) as nat, |k: int| DialogRowV::Content(k as usize)));
            i += 1;
        }
        if c > CONTENT_CAP {
            let mut t: Vec<char> = vec!['…', ' ', '+'];
            let d = decimal_exec((c - shown) as u64);
            extend_all(&mut t, &d);
            let m: Vec<char> = vec![' ', 'm', 'o', 'r', 'e'];
            extend_all(&mut t, &m);
            proof {
                reveal_strlit("… +");
                reveal_strlit(" more");
                assert(t@ =~= "… +"@ + decimal((c - shown) as nat) + " more"@);
            }
            push_row(&mut out, DialogRow::Line(2, one_span_line(&t, StyleTag::Dim)));
        }
        let qv = chars_of(self.request.question.as_str());
        push_row(&mut out, DialogRow::Line(2, one_span_line(&qv, StyleTag::Text)));
        let ghost mid = rows_view(out@);
        let n = self.request.options.len();
        let mut k: usize = 0;
        while k < n
            invariant
                k <= n,
                n == req.options@.len(),
                req == self@.request,
                rows_view(out@) == mid + Seq::new(
                    k as nat,
                    |j: int| DialogRowV::Line(2, option_line(req.options@, j, self@.selected)),
                ),
            decreases n - k,
        {
            let sel = k == self.selected;
            let marker: Vec<char> = if sel {
                vec!['❯', ' ']
            } else {
                vec![' ', ' ']
            };
            let mut mst: Vec<StyleTag> = Vec::new();
            if sel {
                mst.push(StyleTag::PermissionSelected);
            }
            let mut t = decimal_exec((k + 1) as u64);
            t.push('.');
            t.push(' ');
            let ov = chars_of(self.request.options[k].as_str());
            extend_all(&mut t, &ov);
            let mut sp: Vec<Span> = Vec::new();
            push_span(&mut sp, span_of(&marker, mst));
            push_span(&mut sp, styled_span(&t, StyleTag::Text));
            let l = Line { spans: sp, style: Vec::new() };
            proof {
                reveal_strlit("❯ ");
                reveal_strlit("  ");
                reveal_strlit(". ");
                if sel {
                    assert(marker@ =~= "❯ "@);
                    assert(mst@ =~= seq![StyleTag::PermissionSelected]);
                } else {
                    assert(marker@ =~= "  "@);
                    assert(mst@ =~= Seq::<StyleTag>::empty());
                }
                assert(t@ =~= decimal((k + 1) as nat) + ". "@ + req.options@[k as int]@);
            }
            assert(l@.spans =~= option_line(req.options@, k as int, self@.selected).spans);
            assert(l@.style =~= Seq::<StyleTag>::empty());
            push_row(&mut out, DialogRow::Line(2, l));
            assert(rows_view(out@) =~= mid + Seq::new(
                (k + 1) as nat,
                |j: int| DialogRowV::Line(2, option_line(req.options@, j, self@.selected)),
            ));
            k += 1;
        }
        assert(rows_view(out@) =~= dialog_rows(self@.request, self@.selected));
        (title, out)
    }

    /// Place the dialog as a bottom block of `area`: full width, flush to
    /// the bottom. The rectangle is kept for click mapping and returned.
    pub fn layout(&mut self, area: Rect) -> (r: Rect)
        requires
            area.y + area.height <= u16::MAX,
            wanted_rows(old(self)@.request) <= usize::MAX,
        ensures
            r == dialog_rect(old(self)@.request, area),
            final(self)@.drawn == r,
            final(self)@.request == old(self)@.request,
            final(self)@.selected == old(self)@.selected,
    {
        let content_count = self.request.content.len();
        let content_rows = if content_count < CONTENT_CAP {
            content_count
        } else {
            CONTENT_CAP
        };
        let extra: usize = if content_count > CONTENT_CAP {
            1
        } else {
            0
        };
        let target: usize = if self.request.target.is_some() {
            1
        } else {
            0
        };
        let source: usize = if self.request.source.is_some() {
            1
        } else {
            0
        };
        let options = self.option_count();
        let fixed: usize = 2 + target + source + content_rows + extra + 1 + 1;
        let want: u16 = (fixed + options) as u16;
        let height = if want < area.height {
            want
        } else {
            area.height
        };
        let rect = Rect {
            x: area.x,
            y: area.y + area.height.saturating_sub(height),
            width: area.width,
            height,
        };
        self.last_rect = rect;
        rect
    }
}

} // verus!
