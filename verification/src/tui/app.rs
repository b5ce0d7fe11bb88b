//! The component host's decisions: focus, the session mode, footer badges,
//! the status line, routing of input (a modal permission dialog owns it
//! while open) and the broadcast of agent sessions between components.
use vstd::prelude::*;
use crate::text::{extend_all, string_of};
use crate::tui::agent::{decimal, decimal_exec, merge_agents, merged, Agent};
use crate::tui::input::{InputEvent, Key, Mouse, MouseKind, Rect};
use crate::tui::permission::{
    dialog_key, dialog_rect, option_row, wanted_rows, DialogAction, DialogState, PermissionDialog,
    PermissionRequest,
};
use crate::tui::renderer::{line_of, push_span, styled, styled_span, Line, LineV, Span, SpanV, StyleTag};

verus! {

/// Session permission mode (displayed in the footer; `m` cycles).
#[derive(Debug, Clone, Copy, PartialEq, Eq, Structural)]
pub enum SessionMode {
    /// Standard permission mode — no badge.
    Default,
    /// Auto-accept file edits.
    AcceptEdits,
    /// Read-only plan mode.
    Plan,
}

impl Default for SessionMode {
    fn default() -> (m: Self)
        ensures
            m == SessionMode::Default,
    {
        SessionMode::Default
    }
}

impl SessionMode {
    /// The mode after this one.
    pub fn next(self) -> (m: Self)
        ensures
            m == next_mode(self),
    {
        match self {
            SessionMode::Default => SessionMode::AcceptEdits,
            SessionMode::AcceptEdits => SessionMode::Plan,
            SessionMode::Plan => SessionMode::Default,
        }
    }
}

/// Three steps of `next` come back to the start.
pub proof fn lemma_mode_cycle(m: SessionMode)
    ensures
        next_mode(next_mode(next_mode(m))) == m,
        next_mode(m) != m,
{
}

/// The mode after `m`.
pub open spec fn next_mode(m: SessionMode) -> SessionMode {
    match m {
        SessionMode::Default => SessionMode::AcceptEdits,
        SessionMode::AcceptEdits => SessionMode::Plan,
        SessionMode::Plan => SessionMode::Default,
    }
}

/// Review status of a pull request badge.
#[derive(Debug, Clone, Copy, PartialEq, Eq, Structural)]
pub enum PrStatus {
    /// PR approved.
    Approved,
    /// PR pending review.
    Pending,
    /// Changes requested.
    ChangesRequested,
    /// Draft PR.
    Draft,
}

/// A small status badge shown in the host footer (`⏸ plan mode on`,
/// `← for agents`, `PR #446`).
#[derive(Debug, Clone)]
pub struct FooterBadge {
    /// Badge text (may contain glyphs).
    pub text: String,
    /// Badge style.
    pub style: StyleTag,
}

/// The view of a [`FooterBadge`].
pub struct BadgeV {
    pub text: Seq<char>,
    pub style: StyleTag,
}

impl View for FooterBadge {
    type V = BadgeV;

    open spec fn view(&self) -> BadgeV {
        BadgeV { text: self.text@, style: self.style }
    }
}

/// The views of a list of badges.
pub open spec fn badges_view(b: Seq<FooterBadge>) -> Seq<BadgeV> {
    b.map_values(|x: FooterBadge| x@)
}

impl FooterBadge {
    /// Create a badge.
    pub fn new(text: &str, style: StyleTag) -> (b: Self)
        ensures
            b@ == (BadgeV { text: text@, style }),
    {
        FooterBadge { text: text.to_owned(), style }
    }
}

/// The footer badge of a session mode.
pub open spec fn mode_badge(m: SessionMode) -> Option<BadgeV> {
    match m {
        SessionMode::Default => None,
        SessionMode::AcceptEdits => Some(
            BadgeV { text: "⏵⏵ accept edits on (m to cycle)"@, style: StyleTag::ModeOn },
        ),
        SessionMode::Plan => Some(BadgeV { text: "⏸ plan mode on (m to cycle)"@, style: StyleTag::ModeOn }),
    }
}

impl SessionMode {
    /// Footer badge text for this mode.
    pub fn badge(self) -> (b: Option<FooterBadge>)
        ensures
            match b {
                Some(x) => mode_badge(self) == Some(x@),
                None => mode_badge(self) is None,
            },
    {
        match self {
            SessionMode::Default => None,
            SessionMode::AcceptEdits => Some(FooterBadge::new("⏵⏵ accept edits on (m to cycle)", StyleTag::ModeOn)),
            SessionMode::Plan => Some(FooterBadge::new("⏸ plan mode on (m to cycle)", StyleTag::ModeOn)),
        }
    }
}

/// Where an input event goes.
#[derive(Debug, Clone, Copy, PartialEq, Eq, Structural)]
pub enum Route {
    /// To the focused component (a mouse event in its local coordinates).
    /// A key it does not use goes to [`App::host_key`] next.
    ToFocused(InputEvent),
    /// Nowhere further: the host dropped or handled it.
    Handled,
    /// The permission dialog closed with this action; the focused
    /// component is told.
    DialogClosed(DialogAction),
}

/// The state of the host.
pub ghost struct HostState<L> {
    /// Number of mounted components.
    pub components: usize,
    /// Index of the focused component.
    pub focused: usize,
    /// Content area of the last frame.
    pub content_area: Rect,
    /// Session permission mode.
    pub mode: SessionMode,
    /// Pull-request badge, if shown.
    pub pr: Option<(u32, PrStatus)>,
    /// The open permission dialog, if any.
    pub permission: Option<DialogState<L>>,
    /// Rectangle of the dialog at the last frame.
    pub dialog_rect: Rect,
    /// Completed dialog action awaiting the app owner.
    pub dialog_action: Option<DialogAction>,
}

/// Whether the cell (`column`, `row`) lies in `r`.
pub open spec fn inside(r: Rect, column: u16, row: u16) -> bool {
    column >= r.x && row >= r.y && column < r.x + r.width && row < r.y + r.height
}

/// `m` in coordinates local to `r`.
pub open spec fn local_mouse(m: Mouse, r: Rect) -> Mouse {
    Mouse { kind: m.kind, column: (m.column - r.x) as u16, row: (m.row - r.y) as u16 }
}

/// What a click `m` (dialog-local) does to dialog `d`: the new selection
/// and the outcome, if the dialog closes.
pub open spec fn dialog_click<L>(d: DialogState<L>, m: Mouse) -> (usize, Option<DialogAction>) {
    if m.kind != MouseKind::LeftDown {
        (d.selected, None)
    } else {
        match option_row(d.drawn.height, d.request.options@.len() as int, m.row) {
            Some(i) => if i == d.selected {
                (d.selected, Some(DialogAction::Confirm(i)))
            } else {
                (i, None)
            },
            None => (d.selected, None),
        }
    }
}

/// The host after the dialog `d` reacted with `r`: closed with the action
/// recorded, or still open with the new selection.
pub open spec fn dialog_outcome<L>(s: HostState<L>, d: DialogState<L>, r: (usize, Option<DialogAction>)) -> (
    HostState<L>,
    Route,
) {
    match r.1 {
        Some(a) => (HostState { permission: None, dialog_action: Some(a), ..s }, Route::DialogClosed(a)),
        None => (HostState { permission: Some(DialogState { selected: r.0, ..d }), ..s }, Route::Handled),
    }
}

/// Routing of one event. Without a dialog, keys go to the focused
/// component and mouse events inside the content area go to it in its
/// coordinates. With a dialog open, keys go to the dialog and clicks
/// inside the dialog go to it in its coordinates; everything else drops.
pub open spec fn host_route<L>(s: HostState<L>, ev: InputEvent) -> (HostState<L>, Route) {
    match s.permission {
        None => match ev {
            InputEvent::Key(k) => (s, Route::ToFocused(InputEvent::Key(k))),
            InputEvent::Mouse(m) => if inside(s.content_area, m.column, m.row) {
                (s, Route::ToFocused(InputEvent::Mouse(local_mouse(m, s.content_area))))
            } else {
                (s, Route::Handled)
            },
            InputEvent::Other => (s, Route::Handled),
        },
        Some(d) => match ev {
            InputEvent::Key(k) => dialog_outcome(s, d, dialog_key(d.selected, d.request.options@.len() as int, k)),
            InputEvent::Mouse(m) => if inside(s.dialog_rect, m.column, m.row) {
                dialog_outcome(s, d, dialog_click(d, local_mouse(m, s.dialog_rect)))
            } else {
                (s, Route::Handled)
            },
            InputEvent::Other => (s, Route::Handled),
        },
    }
}

/// The host after focusing the next component.
pub open spec fn focused_next<L>(s: HostState<L>) -> HostState<L> {
    HostState { focused: ((s.focused + 1) % (s.components as int)) as usize, ..s }
}

/// The host after focusing the previous component.
pub open spec fn focused_prev<L>(s: HostState<L>) -> HostState<L> {
    HostState { focused: ((s.focused + s.components - 1) % (s.components as int)) as usize, ..s }
}

/// Host keys (those the focused component did not use): `q` quits (the
/// result is `false`), `m` cycles the mode, `Tab`/`]` and `Shift+Tab`/`[`
/// move the focus, `1`..`9` focus that component when it exists.
pub open spec fn host_key_spec<L>(s: HostState<L>, k: Key) -> (HostState<L>, bool) {
    match k {
        Key::Char('q') => (s, false),
        Key::Char('m') => (HostState { mode: next_mode(s.mode), ..s }, true),
        Key::Tab | Key::Char(']') => (focused_next(s), true),
        Key::BackTab | Key::Char('[') => (focused_prev(s), true),
        Key::Char(c) => if '1' <= c && c <= '9' && (c as int) - ('1' as int) < s.components {
            (HostState { focused: ((c as int) - ('1' as int)) as usize, ..s }, true)
        } else {
            (s, true)
        },
        _ => (s, true),
    }
}

/// Footer badges: the session mode's, the pull request's, then the
/// focused component's own.
pub open spec fn host_badges<L>(s: HostState<L>, own: Seq<BadgeV>) -> Seq<BadgeV> {
    let m = match mode_badge(s.mode) {
        Some(b) => seq![b],
        None => Seq::empty(),
    };
    let p = match s.pr {
        Some(pr) => seq![BadgeV { text: "PR #"@ + decimal(pr.0 as nat), style: StyleTag::PullRequest(pr.1) }],
        None => Seq::empty(),
    };
    m + p + own
}

/// The spans of the badges `b`, each after two spaces.
pub open spec fn badge_spans(b: Seq<BadgeV>) -> Seq<SpanV> {
    b.map_values(|x: BadgeV| styled(seq![' ', ' '] + x.text, x.style))
}

/// The status line: the focused component's number and title, the badges,
/// then the dialog's title, question and keys while a dialog is open, else
/// the component's status and key hints and the host keys.
pub open spec fn status_line_spec<L>(
    s: HostState<L>,
    title: Seq<char>,
    status: Seq<char>,
    hints: Seq<char>,
    own: Seq<BadgeV>,
) -> LineV {
    let head = seq![
        styled(
            seq![' ', '['] + decimal((s.focused + 1) as nat) + seq![']', ' '] + title + seq![' '],
            if s.components > 1 {
                StyleTag::Status
            } else {
                StyleTag::StatusInactive
            },
        ),
    ];
    let tail = match s.permission {
        Some(d) => seq![
            styled(seq![' '] + d.request.title@ + " — "@ + d.request.question@, StyleTag::Permission),
            styled(" esc cancel · enter confirm · digits 1-"@ + decimal(d.request.options@.len()), StyleTag::Dim),
        ],
        None => seq![styled(seq![' '] + status, StyleTag::Text)] + (if hints.len() > 0 {
            seq![styled(seq![' '] + hints, StyleTag::Dim)]
        } else {
            Seq::empty()
        }) + seq![
            styled(
                if s.components > 1 {
                    "  [Tab] next  [m] mode  [q] quit"@
                } else {
                    "  [m] mode  [q] quit"@
                },
                StyleTag::Dim,
            ),
        ],
    };
    line_of(head + badge_spans(host_badges(s, own)) + tail)
}

/// Agent sessions published by the components, merged by name in order
/// (a later publisher's session replaces an earlier one with its name).
pub open spec fn broadcast_spec<T>(acc: Seq<Agent<T>>, published: Seq<Vec<Agent<T>>>) -> Seq<Agent<T>>
    decreases published.len(),
{
    if published.len() == 0 {
        acc
    } else {
        broadcast_spec(merged(acc, published[0]@, Seq::empty()), published.drop_first())
    }
}

/// Merge every component's agent sessions by name (the last publisher
/// wins), to be delivered to all components.
pub fn broadcast_agents<T>(published: Vec<Vec<Agent<T>>>) -> (r: Vec<Agent<T>>)
    ensures
        r@ == broadcast_spec(Seq::empty(), published@),
{
    let mut acc: Vec<Agent<T>> = Vec::new();
    let mut rest = published;
    let none: Vec<String> = Vec::new();
    while rest.len() > 0
        invariant
            none@.len() == 0,
            broadcast_spec(acc@, rest@) == broadcast_spec(Seq::empty(), published@),
        decreases rest@.len(),
    {
        let ghost before = rest@;
        let incoming = rest.remove(0);
        assert(rest@ =~= before.drop_first());
        assert(none@ =~= Seq::<String>::empty());
        merge_agents(&mut acc, incoming, &none);
    }
    acc
}

/// The component host's state (the components themselves, their painting
/// and the event loop's timing are the caller's).
pub struct App<L> {
    components: usize,
    focused: usize,
    content_area: Rect,
    mode: SessionMode,
    pr: Option<(u32, PrStatus)>,
    permission: Option<PermissionDialog<L>>,
    dialog_rect: Rect,
    dialog_action: Option<DialogAction>,
}

impl<L> View for App<L> {
    type V = HostState<L>;

    closed spec fn view(&self) -> HostState<L> {
        HostState {
            components: self.components,
            focused: self.focused,
            content_area: self.content_area,
            mode: self.mode,
            pr: self.pr,
            permission: match self.permission {
                Some(d) => Some(d@),
                None => None,
            },
            dialog_rect: self.dialog_rect,
            dialog_action: self.dialog_action,
        }
    }
}

/// `r` ends within the `u16` coordinate range.
pub open spec fn rect_fits(r: Rect) -> bool {
    r.x + r.width <= u16::MAX && r.y + r.height <= u16::MAX
}

/// Focusing the previous component undoes focusing the next one, and
/// focusing the next one as often as there are components comes back.
pub proof fn lemma_focus_cycle<L>(s: HostState<L>)
    requires
        0 < s.components,
        s.focused < s.components,
    ensures
        focused_prev(focused_next(s)) == s,
        focused_next(focused_prev(s)) == s,
        focused_next(s).focused < s.components,
{
    let n = s.components as int;
    let f = s.focused as int;
    if f + 1 < n {
        vstd::arithmetic::div_mod::lemma_small_mod((f + 1) as nat, n as nat);
    } else {
        assert(f + 1 == n);
        vstd::arithmetic::div_mod::lemma_mod_self_0(n);
    }
    assert((f + n - 1) % n == if f > 0 { f - 1 } else { n - 1 }) by {
        if f > 0 {
            assert(f + n - 1 == (f - 1) + n);
            vstd::arithmetic::div_mod::lemma_mod_add_multiples_vanish(f - 1, n);
            vstd::arithmetic::div_mod::lemma_small_mod((f - 1) as nat, n as nat);
        } else {
            vstd::arithmetic::div_mod::lemma_small_mod((n - 1) as nat, n as nat);
        }
    }
    let g = (f + 1) % n;
    assert((g + n - 1) % n == if g > 0 { g - 1 } else { n - 1 }) by {
        if g > 0 {
            vstd::arithmetic::div_mod::lemma_mod_add_multiples_vanish(g - 1, n);
            vstd::arithmetic::div_mod::lemma_small_mod((g - 1) as nat, n as nat);
        } else {
            vstd::arithmetic::div_mod::lemma_small_mod((n - 1) as nat, n as nat);
        }
    }
    let p = (f + n - 1) % n;
    if p + 1 < n {
        vstd::arithmetic::div_mod::lemma_small_mod((p + 1) as nat, n as nat);
    } else {
        vstd::arithmetic::div_mod::lemma_mod_self_0(n);
    }
}

/// While a permission dialog is open it owns the input: no event reaches
/// the focused component, and the dialog stays open unless the event
/// closed it with the reported action.
pub proof fn lemma_dialog_is_modal<L>(s: HostState<L>, ev: InputEvent)
    requires
        s.permission is Some,
    ensures
        ({
            let (t, r) = host_route(s, ev);
            &&& !(r is ToFocused)
            &&& t.focused == s.focused
            &&& t.permission is None <==> r is DialogClosed
            &&& r matches Route::DialogClosed(a) ==> t.dialog_action == Some(a)
        }),
{
}

impl<L> App<L> {
    /// Well-formed: at least one component, the focus on one of them,
    /// rectangles within the coordinate range, and an open dialog's
    /// selection on one of its options.
    pub open spec fn wf(&self) -> bool {
        let s = self@;
        &&& 0 < s.components <= usize::MAX / 2
        &&& s.focused < s.components
        &&& rect_fits(s.content_area)
        &&& rect_fits(s.dialog_rect)
        &&& match s.permission {
            Some(d) => d.request.options@.len() <= usize::MAX / 2 && (d.selected == 0 || d.selected
                < d.request.options@.len()),
            None => true,
        }
    }

    /// A host for `components` mounted components, the first focused.
    pub fn new(components: usize) -> (a: Self)
        requires
            0 < components <= usize::MAX / 2,
        ensures
            a.wf(),
            a@ == (HostState::<L> {
                components,
                focused: 0,
                content_area: Rect { x: 0, y: 0, width: 0, height: 0 },
                mode: SessionMode::Default,
                pr: None,
                permission: None,
                dialog_rect: Rect { x: 0, y: 0, width: 0, height: 0 },
                dialog_action: None,
            }),
    {
        App {
            components,
            focused: 0,
            content_area: Rect::zero(),
            mode: SessionMode::Default,
            pr: None,
            permission: None,
            dialog_rect: Rect::zero(),
            dialog_action: None,
        }
    }

    /// Index of the focused component.
    pub fn focused(&self) -> (i: usize)
        ensures
            i == self@.focused,
    {
        self.focused
    }

    /// Number of mounted components.
    pub fn components(&self) -> (n: usize)
        ensures
            n == self@.components,
    {
        self.components
    }

    /// Focus the next component.
    pub fn focus_next(&mut self)
        requires
            old(self).wf(),
        ensures
            final(self).wf(),
            final(self)@ == focused_next(old(self)@),
    {
        self.focused = (self.focused + 1) % self.components;
    }

    /// Focus the previous component.
    pub fn focus_prev(&mut self)
        requires
            old(self).wf(),
        ensures
            final(self).wf(),
            final(self)@ == focused_prev(old(self)@),
    {
        self.focused = (self.focused + self.components - 1) % self.components;
    }

    /// Current session mode.
    pub fn mode(&self) -> (m: SessionMode)
        ensures
            m == self@.mode,
    {
        self.mode
    }

    /// Cycle the session permission mode (`m`).
    pub fn cycle_mode(&mut self)
        ensures
            final(self)@ == (HostState { mode: next_mode(old(self)@.mode), ..old(self)@ }),
            old(self).wf() ==> final(self).wf(),
    {
        self.mode = self.mode.next();
    }

    /// Set the pull-request badge.
    pub fn set_pr(&mut self, number: u32, status: PrStatus)
        ensures
            final(self)@ == (HostState { pr: Some((number, status)), ..old(self)@ }),
            old(self).wf() ==> final(self).wf(),
    {
        self.pr = Some((number, status));
    }

    /// Open a modal permission dialog (replacing one already open).
    pub fn ask(&mut self, request: PermissionRequest<L>)
        requires
            old(self).wf(),
            request.options@.len() <= usize::MAX / 2,
        ensures
            final(self).wf(),
            final(self)@ == (HostState {
                permission: Some(
                    DialogState { request, selected: 0, drawn: Rect { x: 0, y: 0, width: 0, height: 0 } },
                ),
                dialog_action: None,
                ..old(self)@
            }),
    {
        self.permission = Some(PermissionDialog::new(request));
        self.dialog_action = None;
    }

    /// Whether a permission dialog is open (modal: components are neither
    /// drawn nor ticked meanwhile).
    pub fn permission_open(&self) -> (b: bool)
        ensures
            b == self@.permission is Some,
    {
        self.permission.is_some()
    }

    /// Rectangle the open dialog was laid out into at the last frame.
    pub fn dialog_rect(&self) -> (r: Rect)
        ensures
            r == self@.dialog_rect,
    {
        self.dialog_rect
    }

    /// Last completed dialog action, taken: `None` until another dialog
    /// completes.
    pub fn take_dialog_action(&mut self) -> (a: Option<DialogAction>)
        ensures
            a == old(self)@.dialog_action,
            final(self)@ == (HostState { dialog_action: None, ..old(self)@ }),
            old(self).wf() ==> final(self).wf(),
    {
        let a = self.dialog_action;
        self.dialog_action = None;
        a
    }

    /// Lay out a frame in `area`: the bottom row is the status line, the
    /// rest the content area (and the dialog's place while one is open).
    /// Returns the content area.
    pub fn prepare_frame(&mut self, area: Rect) -> (content: Rect)
        requires
            old(self).wf(),
            rect_fits(area),
        ensures
            final(self).wf(),
            content == (Rect {
                height: if area.height > 0 {
                    (area.height - 1) as u16
                } else {
                    0
                },
                ..area
            }),
            final(self)@ == (HostState {
                content_area: content,
                dialog_rect: match old(self)@.permission {
                    Some(d) => dialog_rect(d.request, content),
                    None => old(self)@.dialog_rect,
                },
                permission: match old(self)@.permission {
                    Some(d) => Some(DialogState { drawn: dialog_rect(d.request, content), ..d }),
                    None => None,
                },
                ..old(self)@
            }),
    {
        let h: u16 = if area.height > 0 {
            area.height - 1
        } else {
            0
        };
        let content = Rect { height: h, ..area };
        self.content_area = content;
        match self.permission.take() {
            Some(d) => {
                let mut d = d;
                let r = d.layout(content);
                self.dialog_rect = r;
                self.permission = Some(d);
            },
            None => {},
        }
        content
    }

    fn close_dialog(&mut self, action: DialogAction) -> (r: Route)
        ensures
            r == Route::DialogClosed(action),
            final(self)@ == (HostState { permission: None, dialog_action: Some(action), ..old(self)@ }),
    {
        self.dialog_action = Some(action);
        self.permission = None;
        Route::DialogClosed(action)
    }

    /// Route one input event (see [`host_route`]).
    pub fn route(&mut self, ev: InputEvent) -> (r: Route)
        requires
            old(self).wf(),
        ensures
            final(self).wf(),
            (final(self)@, r) == host_route(old(self)@, ev),
    {
        match self.permission.take() {
            None => match ev {
                InputEvent::Key(k) => Route::ToFocused(InputEvent::Key(k)),
                InputEvent::Mouse(m) => {
                    let a = self.content_area;
                    if m.column >= a.x && m.row >= a.y && m.column < a.x + a.width && m.row < a.y + a.height {
                        Route::ToFocused(
                            InputEvent::Mouse(Mouse { kind: m.kind, column: m.column - a.x, row: m.row - a.y }),
                        )
                    } else {
                        Route::Handled
                    }
                },
                InputEvent::Other => Route::Handled,
            },
            Some(d) => {
                let mut d = d;
                match ev {
                    InputEvent::Key(k) => {
                        match d.key(k) {
                            Some(action) => self.close_dialog(action),
                            None => {
                                self.permission = Some(d);
                                Route::Handled
                            },
                        }
                    },
                    InputEvent::Mouse(m) => {
                        let r = self.dialog_rect;
                        if m.column >= r.x && m.row >= r.y && m.column < r.x + r.width && m.row < r.y + r.height {
                            let local = Mouse { kind: m.kind, column: m.column - r.x, row: m.row - r.y };
                            match d.click(&local) {
                                Some(action) => self.close_dialog(action),
                                None => {
                                    self.permission = Some(d);
                                    Route::Handled
                                },
                            }
                        } else {
                            self.permission = Some(d);
                            Route::Handled
                        }
                    },
                    InputEvent::Other => {
                        self.permission = Some(d);
                        Route::Handled
                    },
                }
            },
        }
    }

    /// Host keys, for a key the focused component did not use (see
    /// [`host_key_spec`]); `false` asks to quit.
    pub fn host_key(&mut self, k: Key) -> (keep_running: bool)
        requires
            old(self).wf(),
        ensures
            final(self).wf(),
            (final(self)@, keep_running) == host_key_spec(old(self)@, k),
    {
        match k {
            Key::Char('q') => false,
            Key::Char('m') => {
                self.cycle_mode();
                true
            },
            Key::Tab | Key::Char(']') => {
                self.focus_next();
                true
            },
            Key::BackTab | Key::Char('[') => {
                self.focus_prev();
                true
            },
            Key::Char(c) => {
                if '1' <= c && c <= '9' {
                    let idx = (c as u32 - '1' as u32) as usize;
                    if idx < self.components {
                        self.focused = idx;
                    }
                }
                true
            },
            _ => true,
        }
    }

    /// Footer badges: session mode, pull request, then the focused
    /// component's own badges `own`.
    pub fn footer_badges(&self, own: Vec<FooterBadge>) -> (b: Vec<FooterBadge>)
        ensures
            badges_view(b@) == host_badges(self@, badges_view(own@)),
    {
        let mut badges: Vec<FooterBadge> = Vec::new();
        let ghost mut acc: Seq<BadgeV> = Seq::empty();
        match self.mode.badge() {
            Some(b) => {
                badges.push(b);
            },
            None => {},
        }
        match self.pr {
            Some((n, status)) => {
                let mut t: Vec<char> = vec!['P', 'R', ' ', '#'];
                let d = decimal_exec(n as u64);
                extend_all(&mut t, &d);
                proof {
                    reveal_strlit("PR #");
                    assert(t@ =~= "PR #"@ + decimal(n as nat));
                }
                badges.push(FooterBadge { text: string_of(&t), style: StyleTag::PullRequest(status) });
            },
            None => {},
        }
        let ghost pre = badges@;
        let mut rest = own;
        let ghost own0 = rest@;
        while rest.len() > 0
            invariant
                badges_view(badges@) + badges_view(rest@) == badges_view(pre) + badges_view(own0),
            decreases rest@.len(),
        {
            let ghost before = rest@;
            let x = rest.remove(0);
            assert(rest@ =~= before.drop_first());
            let ghost bv = badges@;
            badges.push(x);
            assert(badges_view(badges@) =~= badges_view(bv).push(x@));
            assert(badges_view(before) =~= seq![x@] + badges_view(rest@));
            assert(badges_view(bv) + badges_view(before) =~= badges_view(badges@) + badges_view(rest@));
        }
        assert(badges_view(rest@) =~= Seq::<BadgeV>::empty());
        assert(badges_view(badges@) =~= host_badges(self@, badges_view(own0)));
        badges
    }

    /// The status line of a frame for the focused component's `title`,
    /// `status` and key `hints` and its own badges `own` (see
    /// [`status_line_spec`]).
    pub fn status_line(&self, title: &str, status: &str, hints: &str, own: Vec<FooterBadge>) -> (l: Line)
        requires
            self.wf(),
        ensures
            l@ == status_line_spec(self@, title@, status@, hints@, badges_view(own@)),
    {
        let mut spans: Vec<Span> = Vec::new();
        let mut head: Vec<char> = vec![' ', '['];
        let num = decimal_exec((self.focused + 1) as u64);
        extend_all(&mut head, &num);
        head.push(']');
        head.push(' ');
        let tv = crate::text::chars_of(title);
        extend_all(&mut head, &tv);
        head.push(' ');
        let title_style = if self.components > 1 {
            StyleTag::Status
        } else {
            StyleTag::StatusInactive
        };
        assert(head@ =~= seq![' ', '['] + decimal((self@.focused + 1) as nat) + seq![']', ' '] + title@ + seq![' ']);
        push_span(&mut spans, styled_span(&head, title_style));
        let ghost own_v = badges_view(own@);
        let badges = self.footer_badges(own);
        let mut k: usize = 0;
        let ghost bv = badges_view(badges@);
        let ghost spans0 = crate::tui::renderer::spans_view(spans@);
        while k < badges.len()
            invariant
                bv == badges_view(badges@),
                k <= badges@.len(),
                crate::tui::renderer::spans_view(spans@) == spans0 + badge_spans(bv.take(k as int)),
            decreases badges@.len() - k,
        {
            let mut t: Vec<char> = vec![' ', ' '];
            let bt = crate::text::chars_of(badges[k].text.as_str());
            extend_all(&mut t, &bt);
            push_span(&mut spans, styled_span(&t, badges[k].style));
            assert(badge_spans(bv.take(k + 1)) =~= badge_spans(bv.take(k as int)).push(
                styled(seq![' ', ' '] + bv[k as int].text, bv[k as int].style),
            ));
            k += 1;
        }
        assert(bv.take(k as int) =~= bv);
        let ghost mid = crate::tui::renderer::spans_view(spans@);
        assert(mid == seq![
            styled(
                seq![' ', '['] + decimal((self@.focused + 1) as nat) + seq![']', ' '] + title@ + seq![' '],
                title_style,
            ),
        ] + badge_spans(host_badges(self@, own_v)));
        match &self.permission {
            Some(d) => {
                let mut a: Vec<char> = vec![' '];
                let dt = crate::text::chars_of(d.request().title.as_str());
                extend_all(&mut a, &dt);
                let dash: Vec<char> = vec![' ', '—', ' '];
                extend_all(&mut a, &dash);
                let dq = crate::text::chars_of(d.request().question.as_str());
                extend_all(&mut a, &dq);
                push_span(&mut spans, styled_span(&a, StyleTag::Permission));
                let mut b: Vec<char> = vec![
                    ' ', 'e', 's', 'c', ' ', 'c', 'a', 'n', 'c', 'e', 'l', ' ', '·', ' ', 'e', 'n', 't', 'e', 'r', ' ',
                    'c', 'o', 'n', 'f', 'i', 'r', 'm', ' ', '·', ' ', 'd', 'i', 'g', 'i', 't', 's', ' ', '1', '-',
                ];
                let n = decimal_exec(d.option_count() as u64);
                proof {
                    reveal_strlit(" — ");
                    reveal_strlit(" esc cancel · enter confirm · digits 1-");
                    assert(dash@ =~= " — "@);
                }
                let ghost b0 = b@;
                assert(b0 =~= " esc cancel · enter confirm · digits 1-"@);
                extend_all(&mut b, &n);
                assert(a@ =~= seq![' '] + d@.request.title@ + " — "@ + d@.request.question@);
                assert(b@ =~= " esc cancel · enter confirm · digits 1-"@ + decimal(d@.request.options@.len()));
                push_span(&mut spans, styled_span(&b, StyleTag::Dim));
                assert(crate::tui::renderer::spans_view(spans@) =~= mid + seq![
                    styled(seq![' '] + d@.request.title@ + " — "@ + d@.request.question@, StyleTag::Permission),
                    styled(" esc cancel · enter confirm · digits 1-"@ + decimal(d@.request.options@.len()), StyleTag::Dim),
                ]);
            },
            None => {
                let mut a: Vec<char> = vec![' '];
                let sv = crate::text::chars_of(status);
                extend_all(&mut a, &sv);
                assert(a@ =~= seq![' '] + status@);
                push_span(&mut spans, styled_span(&a, StyleTag::Text));
                let hv = crate::text::chars_of(hints);
                let ghost mid2 = crate::tui::renderer::spans_view(spans@);
                if hv.len() > 0 {
                    let mut h: Vec<char> = vec![' '];
                    extend_all(&mut h, &hv);
                    assert(h@ =~= seq![' '] + hints@);
                    push_span(&mut spans, styled_span(&h, StyleTag::Dim));
                }
                assert(crate::tui::renderer::spans_view(spans@) =~= mid2 + (if hints@.len() > 0 {
                    seq![styled(seq![' '] + hints@, StyleTag::Dim)]
                } else {
                    Seq::empty()
                }));
                let keys: Vec<char> = if self.components > 1 {
                    let v: Vec<char> = vec![
                        ' ', ' ', '[', 'T', 'a', 'b', ']', ' ', 'n', 'e', 'x', 't', ' ', ' ', '[', 'm', ']', ' ', 'm',
                        'o', 'd', 'e', ' ', ' ', '[', 'q', ']', ' ', 'q', 'u', 'i', 't',
                    ];
                    proof {
                        reveal_strlit("  [Tab] next  [m] mode  [q] quit");
                        assert(v@ =~= "  [Tab] next  [m] mode  [q] quit"@);
                    }
                    v
                } else {
                    let v: Vec<char> = vec![
                        ' ', ' ', '[', 'm', ']', ' ', 'm', 'o', 'd', 'e', ' ', ' ', '[', 'q', ']', ' ', 'q', 'u', 'i', 't',
                    ];
                    proof {
                        reveal_strlit("  [m] mode  [q] quit");
                        assert(v@ =~= "  [m] mode  [q] quit"@);
                    }
                    v
                };
                push_span(&mut spans, styled_span(&keys, StyleTag::Dim));
            },
        }
        let l = Line { spans, style: Vec::new() };
        assert(l@.style =~= Seq::<StyleTag>::empty());
        assert(l@.spans =~= status_line_spec(self@, title@, status@, hints@, own_v).spans);
        l
    }
}

} // verus!
