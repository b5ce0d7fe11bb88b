//! Slash-command menu: a filterable command list shown when `/` is typed
//! into an empty prompt. Commands appear as `/command` with a description;
//! the list narrows as the user types; arrow keys move the selection and
//! `Enter` confirms.
use vstd::prelude::*;
use crate::text::{chars_of, extend_all};
use crate::tui::input::{Key, Mouse, MouseKind, Rect, sat_sub};
use crate::tui::renderer::{line_of, lines_view, push_lines, push_span, styled, styled_span, Line, LineV, Span, StyleTag};

verus! {

/// One slash command (`/name` with a description).
#[derive(Debug, Clone)]
pub struct SlashCommand {
    /// Command name, without the leading `/`.
    pub name: String,
    /// One-line description shown next to the name.
    pub description: String,
}

impl SlashCommand {
    /// Create a command.
    pub fn new(name: &str, description: &str) -> (c: Self)
        ensures
            c.name@ == name@,
            c.description@ == description@,
    {
        SlashCommand { name: name.to_owned(), description: description.to_owned() }
    }
}

/// Max visible command rows of the floating menu.
pub const MENU_ROWS: usize = 8;

/// What `str::to_lowercase` gives for a string: its Unicode lowercase
/// mapping.
pub uninterp spec fn lowercase_of(s: Seq<char>) -> Seq<char>;

/// `str::to_lowercase`: the lowercase equivalent of a string. Its value is
/// named, not spelled out: the Unicode case tables are the standard
/// library's.
#[verifier::external_body]
fn to_lowercase(s: &str) -> (r: String)
    ensures
        r@ == lowercase_of(s@),
{
    s.to_lowercase()
}

/// Whether command `c` matches `filter`: a case-insensitive prefix match
/// of the name.
pub open spec fn command_matches(c: SlashCommand, filter: Seq<char>) -> bool {
    lowercase_of(filter).is_prefix_of(lowercase_of(c.name@))
}

/// Indices below `n` of the commands matching `filter`, in order.
pub open spec fn matching(commands: Seq<SlashCommand>, filter: Seq<char>, n: int) -> Seq<usize>
    decreases n,
{
    if n <= 0 {
        Seq::empty()
    } else if command_matches(commands[n - 1], filter) {
        matching(commands, filter, n - 1).push((n - 1) as usize)
    } else {
        matching(commands, filter, n - 1)
    }
}

/// The state of a command menu.
pub ghost struct MenuState {
    /// All commands, in menu order.
    pub commands: Seq<SlashCommand>,
    /// Indices of the commands matching the filter, in order.
    pub filtered: Seq<usize>,
    /// Current filter text.
    pub filter: Seq<char>,
    /// Selected row of the filtered list.
    pub selected: usize,
    /// Rows of the filtered list above the window.
    pub scroll: usize,
    /// Rectangle of the last draw.
    pub last_rect: Rect,
}

/// The line of command `c`: the selection marker and `/name`, then the
/// description; the selected row is emphasized.
pub open spec fn command_line(c: SlashCommand, selected: bool) -> LineV {
    line_of(
        seq![
            styled(
                seq![if selected { '❯' } else { ' ' }, ' ', '/'] + c.name@,
                if selected {
                    StyleTag::ToolRunning
                } else {
                    StyleTag::Text
                },
            ),
            styled(
                seq![' ', ' '] + c.description@,
                if selected {
                    StyleTag::Text
                } else {
                    StyleTag::Dim
                },
            ),
        ],
    )
}

/// The lines of the menu window: the filtered commands from the scroll
/// position, at most [`MENU_ROWS`].
pub open spec fn menu_lines_spec(s: MenuState) -> Seq<LineV> {
    let n = s.filtered.len() as int;
    let count = if s.scroll + MENU_ROWS < n {
        MENU_ROWS as int
    } else {
        sat_sub(n, s.scroll as int)
    };
    Seq::new(
        count as nat,
        |i: int| command_line(s.commands[s.filtered[s.scroll + i] as int], s.scroll + i == s.selected),
    )
}

/// A filterable slash-command list. The caller owns the input text: it
/// forwards filter characters via `set_filter` and selection keys via `key`.
pub struct SlashCommandMenu {
    /// All commands, in menu order.
    pub commands: Vec<SlashCommand>,
    filtered_indices: Vec<usize>,
    /// Current filter text (what follows `/` in the prompt).
    pub filter: String,
    /// Selected row (index into the filtered list).
    pub selected: usize,
    scroll: usize,
    last_rect: Rect,
}

impl View for SlashCommandMenu {
    type V = MenuState;

    closed spec fn view(&self) -> MenuState {
        MenuState {
            commands: self.commands@,
            filtered: self.filtered_indices@,
            filter: self.filter@,
            selected: self.selected,
            scroll: self.scroll,
            last_rect: self.last_rect,
        }
    }
}

/// A menu state whose filtered list names listed commands and whose window
/// lies within the filtered list.
pub open spec fn menu_wf(s: MenuState) -> bool {
    &&& forall|k: int| 0 <= k < s.filtered.len() ==> (#[trigger] s.filtered[k] as int) < s.commands.len()
    &&& s.scroll as int + min_rows(s.filtered.len() as int) <= s.filtered.len()
}

/// Rows of the window for a list of `n` commands.
pub open spec fn min_rows(n: int) -> int {
    if n < MENU_ROWS as int {
        n
    } else {
        MENU_ROWS as int
    }
}

/// The state after a selection key: up / `k` and down / `j` move the
/// selection with wrap-around; the returned index is the confirmed command
/// (`Enter` on a non-empty list), as an index into all commands.
pub open spec fn menu_key(s: MenuState, k: Key) -> (MenuState, Option<usize>) {
    let n = s.filtered.len() as int;
    match k {
        Key::Up | Key::Char('k') => (
            if n > 0 {
                MenuState { selected: ((s.selected + n - 1) % n) as usize, ..s }
            } else {
                s
            },
            None,
        ),
        Key::Down | Key::Char('j') => (
            if n > 0 {
                MenuState { selected: ((s.selected + 1) % n) as usize, ..s }
            } else {
                s
            },
            None,
        ),
        Key::Enter => (s, if (s.selected as int) < n {
            Some(s.filtered[s.selected as int])
        } else {
            None
        }),
        _ => (s, None),
    }
}

/// The state after a mouse event in menu-local coordinates: a left click
/// on a command row of the last draw selects it, or confirms it when it is
/// already selected.
pub open spec fn menu_click(s: MenuState, m: Mouse) -> (MenuState, Option<usize>) {
    let visible = min_rows(s.filtered.len() as int);
    if m.kind != MouseKind::LeftDown || s.last_rect.width == 0 {
        (s, None)
    } else if m.column >= s.last_rect.width || m.row < 1 || m.row as int >= 1 + visible {
        (s, None)
    } else {
        let i = s.scroll as int + m.row - 1;
        if s.selected as int == i {
            (s, Some(s.filtered[i]))
        } else {
            (MenuState { selected: i as usize, ..s }, None)
        }
    }
}

/// The rectangle of the menu drawn above an `area` whose top row is the
/// prompt: as wide as the area, with one row per visible command plus the
/// borders.
pub open spec fn menu_rect(s: MenuState, area: Rect) -> Rect {
    let height = (min_rows(s.filtered.len() as int) + 2) as u16;
    Rect { x: area.x, y: sat_sub(area.y as int, height as int) as u16, width: area.width, height }
}

impl SlashCommandMenu {
    /// Open a menu over the given commands (filter empty).
    pub fn new(commands: Vec<SlashCommand>) -> (m: Self)
        ensures
            m@.commands == commands@,
            m@.filter == Seq::<char>::empty(),
            m@.filtered == matching(commands@, Seq::<char>::empty(), commands@.len() as int),
            m@.selected == 0,
            m@.scroll == 0,
            m@.last_rect == (Rect { x: 0, y: 0, width: 0, height: 0 }),
            menu_wf(m@),
    {
        let mut this = SlashCommandMenu {
            commands,
            filtered_indices: Vec::new(),
            filter: String::new(),
            selected: 0,
            scroll: 0,
            last_rect: Rect::zero(),
        };
        this.set_filter("");
        proof {
            reveal_strlit("");
            assert(""@ =~= Seq::<char>::empty());
        }
        this
    }

    /// Filter the list by the text after `/` (case-insensitive prefix
    /// match). Selection and scroll reset to the first match.
    pub fn set_filter(&mut self, filter: &str)
        ensures
            final(self)@ == (MenuState {
                filter: filter@,
                filtered: matching(old(self)@.commands, filter@, old(self)@.commands.len() as int),
                selected: 0,
                scroll: 0,
                ..old(self)@
            }),
            menu_wf(final(self)@),
    {
        self.filter = filter.to_owned();
        let lower = to_lowercase(filter);
        let needle = chars_of(lower.as_str());
        let mut found: Vec<usize> = Vec::new();
        let mut i: usize = 0;
        while i < self.commands.len()
            invariant
                i <= self.commands@.len(),
                needle@ == lowercase_of(filter@),
                found@ == matching(self.commands@, filter@, i as int),
                forall|k: int| 0 <= k < found@.len() ==> (#[trigger] found@[k] as int) < i,
            decreases self.commands@.len() - i,
        {
            let name = to_lowercase(self.commands[i].name.as_str());
            let hay = chars_of(name.as_str());
            let mut is_prefix = needle.len() <= hay.len();
            let mut k: usize = 0;
            while is_prefix && k < needle.len()
                invariant
                    needle@.len() <= hay@.len() || !is_prefix,
                    k <= needle@.len(),
                    is_prefix ==> forall|j: int| 0 <= j < k ==> needle@[j] == hay@[j],
                    !is_prefix ==> !needle@.is_prefix_of(hay@),
                decreases needle@.len() - k + if is_prefix { 1int } else { 0int },
            {
                if needle[k] != hay[k] {
                    is_prefix = false;
                } else {
                    k += 1;
                }
            }
            proof {
                if is_prefix {
                    assert(needle@ =~= hay@.subrange(0, needle@.len() as int));
                }
            }
            if is_prefix {
                found.push(i);
            }
            i += 1;
        }
        self.filtered_indices = found;
        self.selected = 0;
        self.scroll = 0;
    }

    /// Commands matching the current filter, in order.
    pub fn filtered(&self) -> (r: Vec<&SlashCommand>)
        requires
            menu_wf(self@),
        ensures
            r@.len() == self@.filtered.len(),
            forall|k: int| 0 <= k < r@.len() ==> *(#[trigger] r@[k]) == self@.commands[self@.filtered[k] as int],
    {
        let mut r: Vec<&SlashCommand> = Vec::new();
        let mut k: usize = 0;
        while k < self.filtered_indices.len()
            invariant
                menu_wf(self@),
                k <= self@.filtered.len(),
                r@.len() == k,
                forall|j: int| 0 <= j < k ==> *(#[trigger] r@[j]) == self@.commands[self@.filtered[j] as int],
            decreases self@.filtered.len() - k,
        {
            let i = self.filtered_indices[k];
            r.push(&self.commands[i]);
            k += 1;
        }
        r
    }

    /// Handle a selection key. Returns the index (into `commands`) of the
    /// confirmed command, if `Enter` was pressed with a non-empty match list.
    pub fn key(&mut self, key: Key) -> (r: Option<usize>)
        requires
            old(self)@.selected as int + old(self)@.filtered.len() <= usize::MAX,
        ensures
            (final(self)@, r) == menu_key(old(self)@, key),
    {
        let n = self.filtered_indices.len();
        match key {
            Key::Up | Key::Char('k') => {
                if n > 0 {
                    self.selected = (self.selected + n - 1) % n;
                }
                None
            },
            Key::Down | Key::Char('j') => {
                if n > 0 {
                    self.selected = (self.selected + 1) % n;
                }
                None
            },
            Key::Enter => {
                if self.selected < n {
                    Some(self.filtered_indices[self.selected])
                } else {
                    None
                }
            },
            _ => None,
        }
    }

    /// Handle a mouse event in menu-local coordinates (origin at the menu's
    /// top-left). A first click selects a row; a click on the already
    /// selected row confirms it.
    pub fn click(&mut self, m: &Mouse) -> (r: Option<usize>)
        requires
            menu_wf(old(self)@),
        ensures
            (final(self)@, r) == menu_click(old(self)@, *m),
            menu_wf(final(self)@),
    {
        if m.kind != MouseKind::LeftDown || self.last_rect.width == 0 {
            return None;
        }
        let visible = if self.filtered_indices.len() < MENU_ROWS {
            self.filtered_indices.len()
        } else {
            MENU_ROWS
        };
        let row = m.row as usize;
        if m.column >= self.last_rect.width || row < 1 || row >= 1 + visible {
            return None;
        }
        let vis_idx = row - 1;
        let abs = self.filtered_indices[self.scroll + vis_idx];
        if self.selected == self.scroll + vis_idx {
            Some(abs)
        } else {
            self.selected = self.scroll + vis_idx;
            None
        }
    }

    /// The menu's title on its border (`/` and the filter) and the lines
    /// of its window (see [`menu_lines_spec`]).
    pub fn lines(&self) -> (r: (Line, Vec<Line>))
        requires
            menu_wf(self@),
        ensures
            r.0@ == line_of(seq![styled(seq!['/'] + self@.filter, StyleTag::ToolRunning)]),
            lines_view(r.1@) == menu_lines_spec(self@),
    {
        let mut t: Vec<char> = vec!['/'];
        let fv = chars_of(self.filter.as_str());
        extend_all(&mut t, &fv);
        assert(t@ =~= seq!['/'] + self@.filter);
        let mut ts: Vec<Span> = Vec::new();
        push_span(&mut ts, styled_span(&t, StyleTag::ToolRunning));
        let title = Line { spans: ts, style: Vec::new() };
        assert(title@.spans =~= line_of(seq![styled(seq!['/'] + self@.filter, StyleTag::ToolRunning)]).spans);
        assert(title@.style =~= Seq::<StyleTag>::empty());
        let n = self.filtered_indices.len();
        let count: usize = if self.scroll < n && n - self.scroll > MENU_ROWS {
            MENU_ROWS
        } else if self.scroll < n {
            n - self.scroll
        } else {
            0
        };
        let mut out: Vec<Line> = Vec::new();
        let mut i: usize = 0;
        while i < count
            invariant
                menu_wf(self@),
                n == self@.filtered.len(),
                count as int == menu_lines_spec(self@).len(),
                self.scroll + count <= n,
                i <= count,
                lines_view(out@) == menu_lines_spec(self@).take(i as int),
            decreases count - i,
        {
            let abs = self.filtered_indices[self.scroll + i];
            let selected = self.scroll + i == self.selected;
            let cmd = &self.commands[abs];
            let mut a: Vec<char> = vec![if selected { '❯' } else { ' ' }, ' ', '/'];
            let nv = chars_of(cmd.name.as_str());
            extend_all(&mut a, &nv);
            let mut b: Vec<char> = vec![' ', ' '];
            let dv = chars_of(cmd.description.as_str());
            extend_all(&mut b, &dv);
            let mut sp: Vec<Span> = Vec::new();
            push_span(&mut sp, styled_span(&a, if selected {
                StyleTag::ToolRunning
            } else {
                StyleTag::Text
            }));
            push_span(&mut sp, styled_span(&b, if selected {
                StyleTag::Text
            } else {
                StyleTag::Dim
            }));
            let l = Line { spans: sp, style: Vec::new() };
            assert(l@.spans =~= command_line(*cmd, selected).spans);
            assert(l@.style =~= Seq::<StyleTag>::empty());
            push_lines(&mut out, l);
            assert(menu_lines_spec(self@).take(i + 1) =~= menu_lines_spec(self@).take(i as int).push(
                command_line(*cmd, selected),
            ));
            i += 1;
        }
        assert(menu_lines_spec(self@).take(count as int) =~= menu_lines_spec(self@));
        (title, out)
    }

    /// Place the menu directly above `area` (the prompt row): flush left,
    /// as wide as the prompt. The rectangle is kept for click mapping and
    /// returned; the window is pulled back so that it stays filled.
    pub fn layout(&mut self, area: Rect) -> (r: Rect)
        requires
            menu_wf(old(self)@),
        ensures
            r == menu_rect(old(self)@, area),
            final(self)@ == (MenuState {
                last_rect: r,
                scroll: (if (old(self)@.scroll as int) < sat_sub(
                    old(self)@.filtered.len() as int,
                    MENU_ROWS as int,
                ) {
                    old(self)@.scroll as int
                } else {
                    sat_sub(old(self)@.filtered.len() as int, MENU_ROWS as int)
                }) as usize,
                ..old(self)@
            }),
            menu_wf(final(self)@),
    {
        let visible = if self.filtered_indices.len() < MENU_ROWS {
            self.filtered_indices.len()
        } else {
            MENU_ROWS
        };
        let height = visible as u16 + 2;
        let rect = Rect {
            x: area.x,
            y: area.y.saturating_sub(height),
            width: area.width,
            height,
        };
        self.last_rect = rect;
        let cap = self.filtered_indices.len().saturating_sub(MENU_ROWS);
        if cap < self.scroll {
            self.scroll = cap;
        }
        rect
    }
}

} // verus!
