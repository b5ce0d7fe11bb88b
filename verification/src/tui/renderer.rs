//! Display adapter: the per-block syntax tree rendered into styled terminal
//! lines, wrapped to a width (CJK-aware).
//!
//! A style is a list of semantic style tags, applied in order over the
//! terminal's default style; the display layer turns each tag into colors
//! and modifiers.
use vstd::prelude::*;
use crate::ast::{inline_view, inlines_view, lemma_push_inlines, Inline, InlineV, Block, BlockV, ItemV, ListItem, Alignment};
use crate::text::{all_white, chars_of, is_white, is_white_char, string_of, extend_all};
use crate::tui::math::{latex_spec, latex_to_unicode};
use crate::tui::width::{cols_of, char_width_spec};

verus! {

/// A semantic style, turned into colors and modifiers by the display layer.
#[derive(Debug, Clone, Copy, PartialEq, Eq, Structural)]
pub enum StyleTag {
    /// Body text.
    Text,
    /// Secondary text.
    Dim,
    /// Bold.
    Strong,
    /// Italic.
    Emphasis,
    /// Struck through.
    Strikethrough,
    /// Inline code.
    Code,
    /// Code block line.
    CodeBlock,
    /// Link text.
    Link,
    /// Math.
    Math,
    /// Heading of a level.
    Heading(u8),
    /// Quoted text.
    Quote,
    /// The bar in front of a quote.
    QuoteBar,
    /// A checked task marker.
    TaskDone,
    /// An open task marker.
    TaskOpen,
    /// A list bullet or number.
    ListMarker,
    /// Table borders.
    TableBorder,
    /// Table header cells.
    TableHeader,
    /// Thematic break.
    Hr,
    /// Footnote text.
    Footnote,
    /// A running tool or task.
    ToolRunning,
    /// A finished tool.
    ToolDone,
    /// A failed tool.
    ToolError,
    /// Tool output preview.
    ToolOutput,
    /// The edit marker of a diff.
    DiffEdit,
    /// A diff hunk header.
    DiffHunk,
    /// An unchanged diff line.
    DiffContext,
    /// A removed diff line.
    DiffRemoved,
    /// An added diff line.
    DiffAdded,
    /// An informational log level.
    LogInfo,
    /// A warning log level.
    LogWarn,
    /// An error log level.
    LogError,
    /// The status bar title with several components mounted.
    Status,
    /// The status bar title with a single component.
    StatusInactive,
    /// A session mode badge.
    ModeOn,
    /// The permission request summary in the status bar.
    Permission,
    /// A pull-request badge, underlined in the color of its review status.
    PullRequest(crate::tui::app::PrStatus),
    /// In the color of an agent's status, bold.
    AgentStatus(crate::tui::agent::AgentStatus),
    /// In an agent's identity color, bold.
    AgentName(crate::tui::agent::AgentColor),
    /// A pull-request number, underlined.
    PrLink,
    /// The background of the selected table row.
    SelectedRow,
    /// Foreground and background swapped (a selected list item).
    Reversed,
    /// The dot in front of a requesting agent.
    ActivityDot,
    /// The marker of the selected dialog option.
    PermissionSelected,
    /// A reasoning hint.
    Thinking,
}

/// A run of text with one style.
#[derive(Debug)]
pub struct Span {
    /// The text.
    pub content: String,
    /// Style tags, applied in order.
    pub style: Vec<StyleTag>,
}

/// One terminal line: spans plus a line-wide style.
#[derive(Debug)]
pub struct Line {
    /// The spans, left to right.
    pub spans: Vec<Span>,
    /// Line-wide style tags.
    pub style: Vec<StyleTag>,
}

/// The view of a [`Span`].
pub struct SpanV {
    pub content: Seq<char>,
    pub style: Seq<StyleTag>,
}

/// The view of a [`Line`].
pub struct LineV {
    pub spans: Seq<SpanV>,
    pub style: Seq<StyleTag>,
}

impl View for Span {
    type V = SpanV;

    open spec fn view(&self) -> SpanV {
        SpanV { content: self.content@, style: self.style@ }
    }
}

/// Views of spans.
pub open spec fn spans_view(s: Seq<Span>) -> Seq<SpanV> {
    s.map_values(|x: Span| x@)
}

impl View for Line {
    type V = LineV;

    open spec fn view(&self) -> LineV {
        LineV { spans: spans_view(self.spans@), style: self.style@ }
    }
}

/// Views of lines.
pub open spec fn lines_view(s: Seq<Line>) -> Seq<LineV> {
    s.map_values(|x: Line| x@)
}

// ---------------------------------------------------------------------------
// inline content to spans
// ---------------------------------------------------------------------------

/// The spans of inline content under `style`.
pub open spec fn collect(s: Seq<InlineV>, style: Seq<StyleTag>) -> Seq<SpanV>
    decreases s, 0nat,
{
    if s.len() == 0 {
        Seq::empty()
    } else {
        collect(s.drop_last(), style) + collect_one(s.last(), style)
    }
}

/// The spans of one inline node under `style`: text keeps the style, a
/// break is a plain space, inline code has its own style, emphasis-like
/// nodes add their tag, a link is followed by its dimmed `(url)`, an image
/// shows `[image: alt]`, math is shown as Unicode, a footnote reference as
/// `[^label]`.
pub open spec fn collect_one(i: InlineV, style: Seq<StyleTag>) -> Seq<SpanV>
    decreases i, 1nat,
{
    match i {
        InlineV::Text(t) => seq![SpanV { content: t, style }],
        InlineV::SoftBreak => seq![SpanV { content: seq![' '], style: Seq::empty() }],
        InlineV::HardBreak => seq![SpanV { content: seq![' '], style: Seq::empty() }],
        InlineV::Code(c) => seq![SpanV { content: c, style: seq![StyleTag::Code] }],
        InlineV::Strong(c) => collect(c, style.push(StyleTag::Strong)),
        InlineV::Emphasis(c) => collect(c, style.push(StyleTag::Emphasis)),
        InlineV::Strikethrough(c) => collect(c, style.push(StyleTag::Strikethrough)),
        InlineV::Link { text, url } => collect(text, style.push(StyleTag::Link)) + seq![
            SpanV { content: seq!['('] + url + seq![')'], style: style.push(StyleTag::Dim) },
        ],
        InlineV::Image { alt, .. } => seq![
            SpanV {
                content: seq!['[', 'i', 'm', 'a', 'g', 'e', ':', ' '] + alt + seq![']'],
                style: style.push(StyleTag::Link),
            },
        ],
        InlineV::Math(m, _) => seq![SpanV { content: latex_spec(m), style: style.push(StyleTag::Math) }],
        InlineV::Html(h) => seq![SpanV { content: h, style: style.push(StyleTag::Dim) }],
        InlineV::FootnoteRef(l) => seq![
            SpanV { content: seq!['[', '^'] + l + seq![']'], style: style.push(StyleTag::Footnote) },
        ],
    }
}

/// `style` with `tag` added.
fn with_tag(style: &Vec<StyleTag>, tag: StyleTag) -> (r: Vec<StyleTag>)
    ensures
        r@ == style@.push(tag),
{
    let mut r = copy_tags(style);
    r.push(tag);
    r
}

/// A copy of a style.
pub(crate) fn copy_tags(style: &Vec<StyleTag>) -> (r: Vec<StyleTag>)
    ensures
        r@ == style@,
{
    let mut r: Vec<StyleTag> = Vec::new();
    let mut k: usize = 0;
    while k < style.len()
        invariant
            k <= style@.len(),
            r@ == style@.take(k as int),
        decreases style@.len() - k,
    {
        r.push(style[k]);
        assert(style@.take(k + 1) =~= style@.take(k as int).push(style@[k as int]));
        k += 1;
    }
    assert(style@.take(k as int) =~= style@);
    r
}

/// A span of `content` (given as characters) in `style`.
pub(crate) fn span_of(content: &[char], style: Vec<StyleTag>) -> (s: Span)
    ensures
        s@ == (SpanV { content: content@, style: style@ }),
{
    Span { content: string_of(content), style }
}

pub(crate) fn push_span(out: &mut Vec<Span>, s: Span)
    ensures
        spans_view(final(out)@) == spans_view(old(out)@).push(s@),
{
    out.push(s);
    assert(spans_view(out@) =~= spans_view(old(out)@).push(s@));
}

/// `a`, then the characters of `t`, then `b`.
fn framed(a: &[char], t: &String, b: &[char]) -> (r: Vec<char>)
    ensures
        r@ == a@ + t@ + b@,
{
    let mut v: Vec<char> = Vec::new();
    extend_all(&mut v, a);
    let tc = chars_of(t.as_str());
    extend_all(&mut v, &tc);
    extend_all(&mut v, b);
    v
}

fn collect_inlines(inlines: &[Inline], style: &Vec<StyleTag>, out: &mut Vec<Span>)
    ensures
        spans_view(final(out)@) == spans_view(old(out)@) + collect(inlines_view(inlines@), style@),
    decreases inlines@, 0nat,
{
    let ghost start = spans_view(out@);
    let mut k: usize = 0;
    assert(inlines_view(inlines@.take(0)) =~= Seq::<InlineV>::empty());
    assert(spans_view(out@) =~= start + collect(inlines_view(inlines@.take(0)), style@));
    while k < inlines.len()
        invariant
            k <= inlines@.len(),
            spans_view(out@) == start + collect(inlines_view(inlines@.take(k as int)), style@),
        decreases inlines@.len() - k,
    {
        assert(decreases_to!(inlines@ => inlines@[k as int]));
        collect_one_into(&inlines[k], style, out);
        proof {
            lemma_push_inlines(inlines@.take(k as int), inlines@[k as int]);
            assert(inlines@.take(k + 1) == inlines@.take(k as int).push(inlines@[k as int]));
            let sv = inlines_view(inlines@.take(k as int));
            assert(sv.push(inline_view(inlines@[k as int])).drop_last() == sv);
            assert(spans_view(out@) =~= start + collect(inlines_view(inlines@.take(k + 1)), style@));
        }
        k += 1;
    }
    assert(inlines@.take(inlines@.len() as int) == inlines@);
}

fn collect_one_into(i: &Inline, style: &Vec<StyleTag>, out: &mut Vec<Span>)
    ensures
        spans_view(final(out)@) == spans_view(old(out)@) + collect_one(i@, style@),
    decreases i, 1nat,
{
    let ghost start = spans_view(out@);
    match i {
        Inline::Text(t) => {
            let c = chars_of(t.as_str());
            push_span(out, span_of(&c, copy_tags(style)));
        },
        Inline::SoftBreak => {
            let sp: Vec<char> = vec![' '];
            push_span(out, span_of(&sp, Vec::new()));
            assert(sp@ =~= seq![' ']);
            assert(spans_view(out@) =~~= start + collect_one(i@, style@));
        },
        Inline::HardBreak => {
            let sp: Vec<char> = vec![' '];
            push_span(out, span_of(&sp, Vec::new()));
            assert(sp@ =~= seq![' ']);
            assert(spans_view(out@) =~~= start + collect_one(i@, style@));
        },
        Inline::Code(t) => {
            let c = chars_of(t.as_str());
            let mut st: Vec<StyleTag> = Vec::new();
            st.push(StyleTag::Code);
            push_span(out, span_of(&c, st));
            assert(spans_view(out@) =~= start + collect_one(i@, style@));
        },
        Inline::Strong(c) => {
            let st = with_tag(style, StyleTag::Strong);
            collect_inlines(c.as_slice(), &st, out);
        },
        Inline::Emphasis(c) => {
            let st = with_tag(style, StyleTag::Emphasis);
            collect_inlines(c.as_slice(), &st, out);
        },
        Inline::Strikethrough(c) => {
            let st = with_tag(style, StyleTag::Strikethrough);
            collect_inlines(c.as_slice(), &st, out);
        },
        Inline::Link { text, url } => {
            let st = with_tag(style, StyleTag::Link);
            collect_inlines(text.as_slice(), &st, out);
            let a: Vec<char> = vec!['('];
            let b: Vec<char> = vec![')'];
            let content = framed(&a, url, &b);
            assert(content@ =~= seq!['('] + url@ + seq![')']);
            push_span(out, span_of(&content, with_tag(style, StyleTag::Dim)));
            assert(spans_view(out@) =~~= start + collect_one(i@, style@));
        },
        Inline::Image { alt, .. } => {
            let a: Vec<char> = vec!['[', 'i', 'm', 'a', 'g', 'e', ':', ' '];
            let b: Vec<char> = vec![']'];
            let content = framed(&a, alt, &b);
            assert(content@ =~= seq!['[', 'i', 'm', 'a', 'g', 'e', ':', ' '] + alt@ + seq![']']);
            push_span(out, span_of(&content, with_tag(style, StyleTag::Link)));
            assert(spans_view(out@) =~~= start + collect_one(i@, style@));
        },
        Inline::Math(m, _) => {
            let u = latex_to_unicode(m.as_str());
            let c = chars_of(u.as_str());
            push_span(out, span_of(&c, with_tag(style, StyleTag::Math)));
            assert(spans_view(out@) =~= start + collect_one(i@, style@));
        },
        Inline::Html(h) => {
            let c = chars_of(h.as_str());
            push_span(out, span_of(&c, with_tag(style, StyleTag::Dim)));
            assert(spans_view(out@) =~= start + collect_one(i@, style@));
        },
        Inline::FootnoteRef(l) => {
            let a: Vec<char> = vec!['[', '^'];
            let b: Vec<char> = vec![']'];
            let content = framed(&a, l, &b);
            assert(content@ =~= seq!['[', '^'] + l@ + seq![']']);
            push_span(out, span_of(&content, with_tag(style, StyleTag::Footnote)));
            assert(spans_view(out@) =~~= start + collect_one(i@, style@));
        },
    }
}

// ---------------------------------------------------------------------------
// wrapping
// ---------------------------------------------------------------------------

/// The characters of `spans`, each with the style of its span.
pub open spec fn styled_chars(spans: Seq<SpanV>) -> Seq<(char, Seq<StyleTag>)>
    decreases spans.len(),
{
    if spans.len() == 0 {
        Seq::empty()
    } else {
        styled_chars(spans.drop_last()) + spans.last().content.map_values(
            |c: char| (c, spans.last().style),
        )
    }
}

/// `current` without its trailing spans of whitespace only.
pub open spec fn trim_blank_spans(current: Seq<SpanV>) -> Seq<SpanV>
    decreases current.len(),
{
    if current.len() > 0 && all_white(current.last().content) {
        trim_blank_spans(current.drop_last())
    } else {
        current
    }
}

/// `lines` with the line being built added, unless it is blank.
pub open spec fn push_line_spec(lines: Seq<LineV>, current: Seq<SpanV>) -> Seq<LineV> {
    let kept = trim_blank_spans(current);
    if kept.len() == 0 {
        lines
    } else {
        lines.push(LineV { spans: kept, style: Seq::empty() })
    }
}

/// The state of the wrapper: finished lines, the line being built, its
/// width so far, and whether it has only seen whitespace.
pub struct WrapState {
    pub lines: Seq<LineV>,
    pub current: Seq<SpanV>,
    pub col: int,
    pub leading: bool,
}

/// The state after the line being built is finished.
pub open spec fn break_line(st: WrapState) -> WrapState {
    WrapState { lines: push_line_spec(st.lines, st.current), current: Seq::empty(), col: 0, leading: true }
}

/// One character: a newline ends the line; a character that would pass
/// `width` starts a new line; whitespace at the start of a line is dropped;
/// any other character becomes a one-character span.
pub open spec fn wrap_step(st: WrapState, c: (char, Seq<StyleTag>), width: int) -> WrapState {
    let ch = c.0;
    let w = cols_of(ch);
    if ch == '\n' {
        break_line(st)
    } else {
        let st1 = if st.col + w > width {
            break_line(st)
        } else {
            st
        };
        if is_white(ch) && st1.leading {
            st1
        } else {
            WrapState {
                current: st1.current.push(SpanV { content: seq![ch], style: c.1 }),
                col: st1.col + w,
                leading: false,
                ..st1
            }
        }
    }
}

/// The state after the characters `cs`.
pub open spec fn wrap_fold(cs: Seq<(char, Seq<StyleTag>)>, width: int) -> WrapState
    decreases cs.len(),
{
    if cs.len() == 0 {
        WrapState { lines: Seq::empty(), current: Seq::empty(), col: 0, leading: true }
    } else {
        wrap_step(wrap_fold(cs.drop_last(), width), cs.last(), width)
    }
}

/// Spans wrapped to `width` columns, leading whitespace of each line
/// dropped, blank lines left out.
pub open spec fn wrap_spec(spans: Seq<SpanV>, width: int) -> Seq<LineV> {
    let st = wrap_fold(styled_chars(spans), width);
    push_line_spec(st.lines, st.current)
}

pub(crate) fn push_lines(out: &mut Vec<Line>, l: Line)
    ensures
        lines_view(final(out)@) == lines_view(old(out)@).push(l@),
{
    out.push(l);
    assert(lines_view(out@) =~= lines_view(old(out)@).push(l@));
}

/// Push `current` onto `lines`, dropping any trailing whitespace spans.
fn push_line(lines: &mut Vec<Line>, current: &mut Vec<Span>)
    ensures
        lines_view(final(lines)@) == push_line_spec(lines_view(old(lines)@), spans_view(old(current)@)),
        spans_view(final(current)@) == Seq::<SpanV>::empty(),
{
    let ghost goal = trim_blank_spans(spans_view(current@));
    let mut done = false;
    while current.len() > 0 && !done
        invariant
            trim_blank_spans(spans_view(current@)) == goal,
            done ==> spans_view(current@) == goal,
        decreases current@.len(), if done { 0int } else { 1int },
    {
        let last = current.len() - 1;
        let c = chars_of(current[last].content.as_str());
        let blank = crate::text::all_white_range(&c, 0, c.len());
        assert(c@.subrange(0, c@.len() as int) == c@);
        assert(spans_view(current@).last() == current@[last as int]@);
        if blank {
            let ghost before = spans_view(current@);
            current.pop();
            assert(spans_view(current@) =~= before.drop_last());
        } else {
            done = true;
        }
    }
    if current.len() == 0 {
        assert(spans_view(current@) =~= Seq::<SpanV>::empty());
    }
    if current.len() > 0 {
        let mut spans: Vec<Span> = Vec::new();
        std::mem::swap(&mut spans, current);
        push_lines(lines, Line { spans, style: Vec::new() });
    }
    assert(spans_view(current@) =~= Seq::<SpanV>::empty());
}

/// Wrap styled spans to `width` columns (CJK-aware), dropping the
/// whitespace at the start of each line.
fn wrap_spans(spans: Vec<Span>, width: usize) -> (r: Vec<Line>)
    ensures
        lines_view(r@) == wrap_spec(spans_view(spans@), width as int),
{
    let mut lines: Vec<Line> = Vec::new();
    let mut current: Vec<Span> = Vec::new();
    let mut col: usize = 0;
    let mut leading = true;
    let ghost all = spans_view(spans@);
    let mut k: usize = 0;
    assert(all.take(0) =~= Seq::<SpanV>::empty());
    assert(lines_view(lines@) =~= Seq::<LineV>::empty());
    assert(spans_view(current@) =~= Seq::<SpanV>::empty());
    while k < spans.len()
        invariant
            k <= spans@.len(),
            all == spans_view(spans@),
            lines_view(lines@) == wrap_fold(styled_chars(all.take(k as int)), width as int).lines,
            spans_view(current@) == wrap_fold(styled_chars(all.take(k as int)), width as int).current,
            col as int == wrap_fold(styled_chars(all.take(k as int)), width as int).col,
            leading == wrap_fold(styled_chars(all.take(k as int)), width as int).leading,
        decreases spans@.len() - k,
    {
        let text = chars_of(spans[k].content.as_str());
        let ghost style = spans[k as int].style@;
        let ghost base = styled_chars(all.take(k as int));
        let ghost pairs = text@.map_values(|c: char| (c, style));
        let mut j: usize = 0;
        assert(base + pairs.take(0) =~= base);
        while j < text.len()
            invariant
                j <= text@.len(),
                k < spans@.len(),
                style == spans[k as int].style@,
                pairs == text@.map_values(|c: char| (c, style)),
                lines_view(lines@) == wrap_fold(base + pairs.take(j as int), width as int).lines,
                spans_view(current@) == wrap_fold(base + pairs.take(j as int), width as int).current,
                col as int == wrap_fold(base + pairs.take(j as int), width as int).col,
                leading == wrap_fold(base + pairs.take(j as int), width as int).leading,
            decreases text@.len() - j,
        {
            let ch = text[j];
            let w: usize = match crate::tui::width::char_width(ch) {
                Some(w) => w,
                None => 0,
            };
            proof {
                let cs = base + pairs.take(j + 1);
                assert(cs.drop_last() =~= base + pairs.take(j as int));
                assert(cs.last() == (ch, style));
                assert(w as int == cols_of(ch));
            }
            if ch == '\n' {
                push_line(&mut lines, &mut current);
                col = 0;
                leading = true;
            } else {
                if col > width || w > width - col {
                    push_line(&mut lines, &mut current);
                    col = 0;
                    leading = true;
                }
                if is_white_char(ch) && leading {
                } else {
                    let one: Vec<char> = vec![ch];
                    assert(one@ =~= seq![ch]);
                    let sp = span_of(&one, copy_tags(&spans[k].style));
                    push_span(&mut current, sp);
                    col = col + w;
                    leading = false;
                }
            }
            j += 1;
        }
        proof {
            assert(pairs.take(j as int) =~= pairs);
            assert(all.take(k + 1).drop_last() =~= all.take(k as int));
            assert(all.take(k + 1).last() == all[k as int]);
            assert(styled_chars(all.take(k + 1)) =~= base + pairs);
        }
        k += 1;
    }
    assert(all.take(k as int) =~= all);
    push_line(&mut lines, &mut current);
    lines
}

/// The lines of inline content: spans in body style, wrapped.
pub open spec fn inline_lines(s: Seq<InlineV>, width: int) -> Seq<LineV> {
    wrap_spec(collect(s, seq![StyleTag::Text]), width)
}

/// Render inline content to wrapped styled lines.
pub fn render_inlines(inlines: &[Inline], width: usize) -> (r: Vec<Line>)
    ensures
        lines_view(r@) == inline_lines(inlines_view(inlines@), width as int),
{
    let mut spans: Vec<Span> = Vec::new();
    let mut st: Vec<StyleTag> = Vec::new();
    st.push(StyleTag::Text);
    assert(st@ =~= seq![StyleTag::Text]);
    collect_inlines(inlines, &st, &mut spans);
    assert(spans_view(spans@) =~= collect(inlines_view(inlines@), seq![StyleTag::Text]));
    wrap_spans(spans, width)
}

// ---------------------------------------------------------------------------
// blocks
// ---------------------------------------------------------------------------

/// `n` spaces.
pub open spec fn spaces(n: int) -> Seq<char> {
    Seq::new(n as nat, |i: int| ' ')
}

/// `n` copies of `c`.
pub open spec fn repeat_char(c: char, n: int) -> Seq<char> {
    Seq::new(n as nat, |i: int| c)
}

/// A span of `t` with no style.
pub open spec fn raw(t: Seq<char>) -> SpanV {
    SpanV { content: t, style: Seq::empty() }
}

/// A span of `t` in one style.
pub open spec fn styled(t: Seq<char>, tag: StyleTag) -> SpanV {
    SpanV { content: t, style: seq![tag] }
}

/// A line of spans with no line style.
pub open spec fn line_of(spans: Seq<SpanV>) -> LineV {
    LineV { spans, style: Seq::empty() }
}

/// The pieces of `s` from `i` between `\n` characters (an empty piece
/// after a final newline).
pub open spec fn split_nl(s: Seq<char>, i: int) -> Seq<Seq<char>>
    decreases s.len() - i + 1,
{
    if i < 0 || i > s.len() {
        Seq::empty()
    } else {
        let e = crate::text::find_char(s, '\n', i);
        if e < i || e >= s.len() {
            seq![s.subrange(i, s.len() as int)]
        } else {
            seq![s.subrange(i, e)] + split_nl(s, e + 1)
        }
    }
}

/// One code line: empty lines stay empty, others are indented by two
/// columns and cut to `width`.
pub open spec fn code_line(t: Seq<char>, width: usize) -> LineV {
    if t.len() == 0 {
        line_of(Seq::empty())
    } else {
        line_of(seq![raw(seq![' ', ' '] + crate::tui::width::truncate_spec(t, width))])
    }
}

/// The lines of a code block.
pub open spec fn code_lines(pieces: Seq<Seq<char>>, width: usize) -> Seq<LineV> {
    pieces.map_values(|t: Seq<char>| code_line(t, width))
}

/// The non-blank lines of an HTML block, trailing whitespace removed, dimmed.
pub open spec fn html_lines(pieces: Seq<Seq<char>>) -> Seq<LineV>
    decreases pieces.len(),
{
    if pieces.len() == 0 {
        Seq::empty()
    } else {
        let t = crate::text::trim_end_white(pieces.last());
        html_lines(pieces.drop_last()) + if t.len() == 0 {
            Seq::<LineV>::empty()
        } else {
            seq![LineV { spans: seq![raw(t)], style: seq![StyleTag::Dim] }]
        }
    }
}

/// Lines prefixed with a styled span, every span patched with a style
/// (quotes and footnotes).
pub open spec fn prefixed(lines: Seq<LineV>, prefix: SpanV, patch: StyleTag) -> Seq<LineV> {
    lines.map_values(
        |l: LineV|
            line_of(
                seq![prefix] + l.spans.map_values(
                    |sp: SpanV| SpanV { content: sp.content, style: sp.style.push(patch) },
                ),
            ),
    )
}

/// The marker of list item `i`: a task box, a number, or a bullet.
pub open spec fn list_marker(checked: Option<bool>, ordered: bool, number: int) -> SpanV {
    match checked {
        Some(true) => styled(seq!['[', 'x', ']'], StyleTag::TaskDone),
        Some(false) => styled(seq!['[', ' ', ']'], StyleTag::TaskOpen),
        None => if ordered {
            styled(crate::tui::agent::decimal(number as nat).push('.'), StyleTag::ListMarker)
        } else {
            styled(seq!['\u{2022}'], StyleTag::ListMarker)
        },
    }
}

/// Columns reserved for list markers: the widest number and `. `, four for
/// a task list, two for bullets.
pub open spec fn marker_width(ordered: bool, start: u64, items: Seq<ItemV>) -> int {
    if ordered {
        crate::tui::agent::decimal((start + items.len() - 1) as nat).len() + 2int
    } else if exists|k: int| 0 <= k < items.len() && (#[trigger] items[k]).checked is Some {
        4
    } else {
        2
    }
}

/// The lines of one list item: the marker in front of its first line, the
/// other lines indented to the marker column; an item without content is
/// its marker alone.
pub open spec fn item_lines_of(inner: Seq<LineV>, marker: SpanV, marker_w: int) -> Seq<LineV> {
    if inner.len() == 0 {
        seq![line_of(seq![raw(Seq::empty()), marker])]
    } else {
        seq![line_of(seq![raw(Seq::empty()), marker, raw(spaces(crate::tui::input::sat_sub(marker_w, crate::tui::width::str_cols(marker.content) as int)))] + inner[0].spans)]
            + inner.drop_first().map_values(|l: LineV| line_of(seq![raw(spaces(marker_w))] + l.spans))
    }
}

/// Width of cell `c` of a row (0 when the row is shorter).
pub open spec fn cell_w(cells: Seq<Seq<InlineV>>, c: int) -> usize {
    if 0 <= c < cells.len() {
        crate::tui::width::str_cols(crate::tui::width::flat_text(cells[c]))
    } else {
        0
    }
}

/// The widest cell `c` of `rows`, at least `base`.
pub open spec fn rows_w(rows: Seq<Seq<Seq<InlineV>>>, c: int, base: usize) -> usize
    decreases rows.len(),
{
    if rows.len() == 0 {
        base
    } else {
        let m = rows_w(rows.drop_last(), c, base);
        let x = cell_w(rows.last(), c);
        if x > m {
            x
        } else {
            m
        }
    }
}

/// The longest row, at least `base` cells.
pub open spec fn max_cols(rows: Seq<Seq<Seq<InlineV>>>, base: int) -> int
    decreases rows.len(),
{
    if rows.len() == 0 {
        base
    } else {
        let m = max_cols(rows.drop_last(), base);
        if rows.last().len() > m {
            rows.last().len() as int
        } else {
            m
        }
    }
}

/// Number of columns of a table: the most of alignments, header cells and
/// row cells.
pub open spec fn table_cols(headers: Seq<Seq<InlineV>>, rows: Seq<Seq<Seq<InlineV>>>, aligns: Seq<Alignment>) -> int {
    max_cols(rows, if aligns.len() > headers.len() { aligns.len() as int } else { headers.len() as int })
}

/// The natural column widths: the widest plain text per column.
pub open spec fn natural_widths(headers: Seq<Seq<InlineV>>, rows: Seq<Seq<Seq<InlineV>>>, cols: int) -> Seq<usize> {
    Seq::new(cols as nat, |c: int| rows_w(rows, c, cell_w(headers, c)))
}

/// `a + b`, at most `usize::MAX`.
pub open spec fn sat_add(a: int, b: int) -> usize {
    if a + b > usize::MAX {
        usize::MAX
    } else {
        (a + b) as usize
    }
}

/// The sum of `ws`, at most `usize::MAX`.
pub open spec fn sum_sat(ws: Seq<usize>) -> usize
    decreases ws.len(),
{
    if ws.len() == 0 {
        0
    } else {
        sat_add(sum_sat(ws.drop_last()) as int, ws.last() as int)
    }
}

/// Index of the first widest column among the first `n`.
pub open spec fn first_max(ws: Seq<usize>, n: int) -> int
    decreases n,
{
    if n <= 1 {
        0
    } else {
        let m = first_max(ws, n - 1);
        if ws[n - 1] > ws[m] {
            n - 1
        } else {
            m
        }
    }
}

/// Narrowing the first widest column by one, `sum - rem` times.
pub open spec fn cap_widths(ws: Seq<usize>, sum: int, rem: int) -> Seq<usize>
    decreases sum - rem,
{
    if sum <= rem {
        ws
    } else {
        let i = first_max(ws, ws.len() as int);
        cap_widths(ws.update(i, crate::tui::input::sat_sub(ws[i] as int, 1) as usize), sum - 1, rem)
    }
}

/// Column widths fitted into `budget`: unchanged when they fit; else every
/// column wider than an even share of the excess (at least 4) gives up
/// that share, then the widest columns give up one column at a time until
/// the budget is met, and every column keeps at least one.
pub open spec fn shrink_spec(ws: Seq<usize>, budget: usize) -> Seq<usize> {
    let total = sum_sat(ws);
    if total <= budget {
        ws
    } else {
        let n = ws.len() as int;
        let x = total - budget;
        let share = x / n + if x % n == 0 { 0int } else { 1int };
        let per = if share > 4 { share } else { 4 };
        let w1 = ws.map_values(|w: usize| if w > per { (w - per) as usize } else { w });
        let s1 = sum_sat(w1);
        let remaining = if budget < s1 { budget } else { s1 };
        let w2 = cap_widths(w1, s1 as int, remaining as int);
        w2.map_values(|w: usize| if w > 1 { w } else { 1usize })
    }
}

/// The text of cell `c` (empty when the row is shorter).
pub open spec fn text_at(cells: Seq<Seq<InlineV>>, c: int) -> Seq<char> {
    if 0 <= c < cells.len() {
        crate::tui::width::flat_text(cells[c])
    } else {
        Seq::empty()
    }
}

/// The spans of one cell: a space, the text cut to the column, padding,
/// and the border.
pub open spec fn cell_spans(w: usize, text: Seq<char>, tag: StyleTag) -> Seq<SpanV> {
    seq![
        raw(seq![' ']),
        styled(crate::tui::width::truncate_spec(text, w), tag),
        raw(spaces(sat_add(crate::tui::input::sat_sub(w as int, crate::tui::width::str_cols(text) as int), 1) as int)),
        styled(seq!['\u{2502}'], StyleTag::TableBorder),
    ]
}

/// The cell spans of the first `n` columns.
pub open spec fn row_cells(ws: Seq<usize>, cells: Seq<Seq<InlineV>>, tag: StyleTag, n: int) -> Seq<SpanV>
    decreases n,
{
    if n <= 0 {
        Seq::empty()
    } else {
        row_cells(ws, cells, tag, n - 1) + cell_spans(ws[n - 1], text_at(cells, n - 1), tag)
    }
}

/// A table row.
pub open spec fn table_row(ws: Seq<usize>, cells: Seq<Seq<InlineV>>, tag: StyleTag) -> LineV {
    line_of(seq![styled(seq!['\u{2502}'], StyleTag::TableBorder)] + row_cells(ws, cells, tag, ws.len() as int))
}

/// The separator spans of the first `n` columns.
pub open spec fn sep_cells(ws: Seq<usize>, n: int) -> Seq<SpanV>
    decreases n,
{
    if n <= 0 {
        Seq::empty()
    } else {
        sep_cells(ws, n - 1) + seq![
            styled(repeat_char('\u{2500}', sat_add(ws[n - 1] as int, 2) as int), StyleTag::TableBorder),
            styled(if n == ws.len() { seq!['\u{2502}'] } else { seq!['\u{253c}'] }, StyleTag::TableBorder),
        ]
    }
}

/// The separator below the header.
pub open spec fn sep_line(ws: Seq<usize>) -> LineV {
    line_of(seq![styled(seq!['\u{2502}'], StyleTag::TableBorder)] + sep_cells(ws, ws.len() as int))
}

/// The lines of a table: the header row, a separator, the rows; columns
/// as wide as their widest plain text, narrowed when the table is wider
/// than `width` less two columns.
pub open spec fn table_lines(headers: Seq<Seq<InlineV>>, rows: Seq<Seq<Seq<InlineV>>>, aligns: Seq<Alignment>, width: int) -> Seq<LineV> {
    let available = crate::tui::input::sat_sub(width, 2);
    let cols = table_cols(headers, rows, aligns);
    if cols == 0 {
        Seq::empty()
    } else {
        let w0 = natural_widths(headers, rows, cols);
        let total = sat_add(sum_sat(w0) as int, 3 * (cols - 1));
        let ws = if total > available {
            shrink_spec(w0, (available - 3 * (cols - 1)) as usize)
        } else {
            w0
        };
        seq![table_row(ws, headers, StyleTag::TableHeader), sep_line(ws)] + rows.map_values(
            |r: Seq<Seq<InlineV>>| table_row(ws, r, StyleTag::Text),
        )
    }
}

/// The footnote label span in front of the first line of a definition.
pub open spec fn labeled(inner: Seq<LineV>, label: Seq<char>) -> Seq<LineV> {
    if inner.len() == 0 {
        inner
    } else {
        inner.update(
            0,
            LineV {
                spans: seq![styled(seq!['[', '^'] + label + seq![']', ' '], StyleTag::Footnote)] + inner[0].spans,
                ..inner[0]
            },
        )
    }
}

/// The lines of one block at `width`: paragraphs and headings wrapped,
/// code lines cut, quotes and footnote definitions with a bar or an indent
/// before their content, lists with markers, tables laid out in columns, a
/// thematic break as a full-width rule, HTML as dimmed raw lines.
pub open spec fn block_lines(b: BlockV, width: int) -> Seq<LineV>
    decreases b,
{
    match b {
        BlockV::Paragraph(inl) => inline_lines(inl, width),
        BlockV::Heading { children, .. } => inline_lines(children, width),
        BlockV::Code { text, .. } => code_lines(split_nl(text, 0), width as usize),
        BlockV::BlockQuote(ch) => prefixed(
            blocks_lines(ch, width - 2),
            styled(seq!['\u{258c}', ' '], StyleTag::QuoteBar),
            StyleTag::Quote,
        ),
        BlockV::List { ordered, start, items } => items_lines(
            items,
            ordered,
            start,
            marker_width(ordered, start, items),
            width,
        ),
        BlockV::Table { headers, rows, aligns } => table_lines(headers, rows, aligns, width),
        BlockV::ThematicBreak => seq![line_of(seq![styled(repeat_char('\u{2500}', width), StyleTag::Hr)])],
        BlockV::Html(h) => html_lines(split_nl(h, 0)),
        BlockV::FootnoteDefinition { label, children } => prefixed(
            labeled(blocks_lines(children, width - 2), label),
            styled(seq![' ', ' '], StyleTag::Footnote),
            StyleTag::Footnote,
        ),
    }
}

/// The lines of blocks, one after the other.
pub open spec fn blocks_lines(bs: Seq<BlockV>, width: int) -> Seq<LineV>
    decreases bs,
{
    if bs.len() == 0 {
        Seq::empty()
    } else {
        blocks_lines(bs.drop_last(), width) + block_lines(bs.last(), width)
    }
}

/// The lines of list items, numbered from `start`.
pub open spec fn items_lines(items: Seq<ItemV>, ordered: bool, start: u64, mw: int, width: int) -> Seq<LineV>
    decreases items,
{
    if items.len() == 0 {
        Seq::empty()
    } else {
        items_lines(items.drop_last(), ordered, start, mw, width) + item_lines_of(
            blocks_lines(items.last().children, crate::tui::input::sat_sub(width, mw)),
            list_marker(items.last().checked, ordered, start + items.len() - 1),
            mw,
        )
    }
}

/// Whether a block renders at `width` without running out of room: quotes
/// and footnote definitions need two columns for their prefix, a numbered
/// list needs its numbers to fit in a `u64`, and a narrowed table needs
/// room for its column separators.
pub open spec fn fits(b: BlockV, width: int) -> bool
    decreases b,
{
    match b {
        BlockV::BlockQuote(ch) => width >= 2 && all_fit(ch, width - 2),
        BlockV::FootnoteDefinition { children, .. } => width >= 2 && all_fit(children, width - 2),
        BlockV::List { ordered, start, items } => (ordered ==> 1 <= start + items.len() <= u64::MAX)
            && items_fit(items, crate::tui::input::sat_sub(width, marker_width(ordered, start, items))),
        BlockV::Table { headers, rows, aligns } => {
            let cols = table_cols(headers, rows, aligns);
            cols == 0 || 3 * (cols - 1) <= crate::tui::input::sat_sub(width, 2)
        },
        _ => true,
    }
}

/// Whether all blocks render at `width`.
pub open spec fn all_fit(bs: Seq<BlockV>, width: int) -> bool
    decreases bs,
{
    bs.len() == 0 || (all_fit(bs.drop_last(), width) && fits(bs.last(), width))
}

/// Whether the contents of all list items render at `width`.
pub open spec fn items_fit(items: Seq<ItemV>, width: int) -> bool
    decreases items,
{
    items.len() == 0 || (items_fit(items.drop_last(), width) && all_fit(items.last().children, width))
}

/// `n` copies of `c`.
fn repeat_vec(c: char, n: usize) -> (v: Vec<char>)
    ensures
        v@ == repeat_char(c, n as int),
{
    let mut v: Vec<char> = Vec::new();
    let mut k: usize = 0;
    while k < n
        invariant
            k <= n,
            v@ == repeat_char(c, k as int),
        decreases n - k,
    {
        v.push(c);
        assert(v@ =~= repeat_char(c, k + 1));
        k += 1;
    }
    v
}

pub(crate) fn raw_span(content: &[char]) -> (s: Span)
    ensures
        s@ == raw(content@),
{
    let s = span_of(content, Vec::new());
    assert(s@.style =~= Seq::<StyleTag>::empty());
    s
}

pub(crate) fn styled_span(content: &[char], tag: StyleTag) -> (s: Span)
    ensures
        s@ == styled(content@, tag),
{
    let mut st: Vec<StyleTag> = Vec::new();
    st.push(tag);
    assert(st@ =~= seq![tag]);
    span_of(content, st)
}

pub(crate) fn push_plain_line(out: &mut Vec<Line>, spans: Vec<Span>)
    ensures
        lines_view(final(out)@) == lines_view(old(out)@).push(line_of(spans_view(spans@))),
{
    let l = Line { spans, style: Vec::new() };
    assert(l@ == line_of(spans_view(spans@)));
    push_lines(out, l);
}

/// Move all of `lines` to the end of `out`.
pub(crate) fn append_lines(out: &mut Vec<Line>, lines: Vec<Line>)
    ensures
        lines_view(final(out)@) == lines_view(old(out)@) + lines_view(lines@),
{
    let ghost start = lines_view(out@);
    let ghost all = lines_view(lines@);
    let mut rest = lines;
    assert(lines_view(out@) + lines_view(rest@) =~= start + all);
    while rest.len() > 0
        invariant
            lines_view(out@) + lines_view(rest@) == start + all,
        decreases rest@.len(),
    {
        let ghost before = rest@;
        let l = rest.remove(0);
        assert(rest@ =~= before.drop_first());
        let ghost prev = lines_view(out@);
        push_lines(out, l);
        assert(lines_view(before) =~= seq![l@] + lines_view(rest@));
        assert(lines_view(out@) + lines_view(rest@) =~= prev + lines_view(before));
    }
    assert(lines_view(rest@) =~= Seq::<LineV>::empty());
    assert(lines_view(out@) =~= start + all);
}

/// Copies of `spans`, each with `patch` added to its style.
fn patched_spans(spans: &Vec<Span>, patch: StyleTag, out: &mut Vec<Span>)
    ensures
        spans_view(final(out)@) == spans_view(old(out)@) + spans_view(spans@).map_values(
            |sp: SpanV| SpanV { content: sp.content, style: sp.style.push(patch) },
        ),
{
    let ghost start = spans_view(out@);
    let ghost f = |sp: SpanV| SpanV { content: sp.content, style: sp.style.push(patch) };
    let mut k: usize = 0;
    assert(spans_view(out@) =~= start + spans_view(spans@.take(0)).map_values(f));
    while k < spans.len()
        invariant
            k <= spans@.len(),
            f == (|sp: SpanV| SpanV { content: sp.content, style: sp.style.push(patch) }),
            spans_view(out@) == start + spans_view(spans@.take(k as int)).map_values(f),
        decreases spans@.len() - k,
    {
        let sp = Span { content: spans[k].content.clone(), style: with_tag(&spans[k].style, patch) };
        push_span(out, sp);
        assert(spans_view(spans@.take(k + 1)).map_values(f) =~= spans_view(spans@.take(k as int)).map_values(f).push(
            f(spans@[k as int]@),
        ));
        k += 1;
    }
    assert(spans@.take(k as int) =~= spans@);
}

/// Copies of `spans` appended to `out`.
fn copied_spans(spans: &Vec<Span>, out: &mut Vec<Span>)
    ensures
        spans_view(final(out)@) == spans_view(old(out)@) + spans_view(spans@),
{
    let ghost start = spans_view(out@);
    let mut k: usize = 0;
    assert(spans_view(out@) =~= start + spans_view(spans@.take(0)));
    while k < spans.len()
        invariant
            k <= spans@.len(),
            spans_view(out@) == start + spans_view(spans@.take(k as int)),
        decreases spans@.len() - k,
    {
        let sp = Span { content: spans[k].content.clone(), style: copy_tags(&spans[k].style) };
        push_span(out, sp);
        assert(spans_view(spans@.take(k + 1)) =~= spans_view(spans@.take(k as int)).push(spans@[k as int]@));
        k += 1;
    }
    assert(spans@.take(k as int) =~= spans@);
}

/// Each line of `inner` behind a styled prefix, its spans patched.
fn prefix_lines(inner: &Vec<Line>, prefix: &[char], tag: StyleTag, patch: StyleTag, out: &mut Vec<Line>)
    ensures
        lines_view(final(out)@) == lines_view(old(out)@) + prefixed(lines_view(inner@), styled(prefix@, tag), patch),
{
    let ghost start = lines_view(out@);
    let ghost pre = styled(prefix@, tag);
    let mut k: usize = 0;
    assert(lines_view(out@) =~= start + prefixed(lines_view(inner@.take(0)), pre, patch));
    while k < inner.len()
        invariant
            k <= inner@.len(),
            pre == styled(prefix@, tag),
            lines_view(out@) == start + prefixed(lines_view(inner@.take(k as int)), pre, patch),
        decreases inner@.len() - k,
    {
        let mut spans: Vec<Span> = Vec::new();
        push_span(&mut spans, styled_span(prefix, tag));
        patched_spans(&inner[k].spans, patch, &mut spans);
        push_plain_line(out, spans);
        assert(prefixed(lines_view(inner@.take(k + 1)), pre, patch) =~= prefixed(lines_view(inner@.take(k as int)), pre, patch).push(
            line_of(seq![pre] + inner@[k as int]@.spans.map_values(
                |sp: SpanV| SpanV { content: sp.content, style: sp.style.push(patch) },
            )),
        ));
        assert(spans_view(spans@) =~= seq![pre] + inner@[k as int]@.spans.map_values(
            |sp: SpanV| SpanV { content: sp.content, style: sp.style.push(patch) },
        ));
        k += 1;
    }
    assert(inner@.take(k as int) =~= inner@);
}

/// The pieces of `t` between newlines, each turned into a line by `code`
/// (cut code lines) or `html` (dimmed non-blank lines).
fn split_lines(t: &String, code: bool, width: usize, out: &mut Vec<Line>)
    ensures
        code ==> lines_view(final(out)@) == lines_view(old(out)@) + code_lines(split_nl(t@, 0), width),
        !code ==> lines_view(final(out)@) == lines_view(old(out)@) + html_lines(split_nl(t@, 0)),
{
    let c = chars_of(t.as_str());
    let ghost start = lines_view(out@);
    let ghost pieces = split_nl(c@, 0);
    let ghost done_pieces: Seq<Seq<char>> = Seq::empty();
    let mut i: usize = 0;
    let mut done = false;
    while !done
        invariant
            i <= c@.len(),
            done_pieces + (if done { Seq::<Seq<char>>::empty() } else { split_nl(c@, i as int) }) == pieces,
            code ==> lines_view(out@) == start + code_lines(done_pieces, width),
            !code ==> lines_view(out@) == start + html_lines(done_pieces),
        decreases c@.len() + 1 - i, if done { 0int } else { 1int },
    {
        proof {
            crate::text::lemma_find_char_bounds(c@, '\n', i as int);
        }
        let found = crate::text::find_char_from(&c, '\n', i);
        let (piece, next) = match found {
            Some(e) => {
                let clen = c.len();
                assert(e < clen);
                (crate::text::sub_vec(&c, i, e), Some(e + 1))
            },
            None => (crate::text::sub_vec(&c, i, c.len()), None),
        };
        let ghost before = done_pieces;
        proof {
            done_pieces = done_pieces.push(piece@);
        }
        if code {
            if piece.len() == 0 {
                push_plain_line(out, Vec::new());
                assert(spans_view(Seq::<Span>::empty()) =~= Seq::<SpanV>::empty());
            } else {
                let tr = crate::tui::width::truncate(string_of(&piece).as_str(), width);
                let mut content: Vec<char> = vec![' ', ' '];
                let tc = chars_of(tr.as_str());
                extend_all(&mut content, &tc);
                let mut spans: Vec<Span> = Vec::new();
                push_span(&mut spans, raw_span(&content));
                push_plain_line(out, spans);
                assert(spans_view(spans@) =~= seq![raw(seq![' ', ' '] + crate::tui::width::truncate_spec(piece@, width))]);
            }
            assert(code_lines(done_pieces, width) =~= code_lines(before, width).push(code_line(piece@, width)));
        } else {
            let n = crate::text::trim_end_white_len(&piece);
            if n > 0 {
                let tv = crate::text::sub_vec(&piece, 0, n);
                let mut spans: Vec<Span> = Vec::new();
                push_span(&mut spans, raw_span(&tv));
                let mut st: Vec<StyleTag> = Vec::new();
                st.push(StyleTag::Dim);
                let l = Line { spans, style: st };
                push_lines(out, l);
                assert(spans_view(spans@) =~= seq![raw(crate::text::trim_end_white(piece@))]);
                assert(l@.style =~= seq![StyleTag::Dim]);
            }
            assert(done_pieces.drop_last() =~= before);
            assert(piece@.take(n as int) =~= piece@.subrange(0, n as int));
        }
        match next {
            Some(e) => {
                assert(split_nl(c@, i as int) =~= seq![piece@] + split_nl(c@, e as int));
                assert(done_pieces + split_nl(c@, e as int) =~= before + split_nl(c@, i as int));
                i = e;
            },
            None => {
                assert(split_nl(c@, i as int) =~= seq![piece@]);
                assert(done_pieces =~= before + split_nl(c@, i as int));
                done = true;
            },
        }
    }
    assert(done_pieces =~= pieces);
}

proof fn lemma_rows_view_at(s: Seq<Vec<Vec<Inline>>>)
    ensures
        crate::ast::rows_view(s).len() == s.len(),
        forall|k: int| 0 <= k < s.len() ==> #[trigger] crate::ast::rows_view(s)[k] == crate::ast::cells_view(s[k]@),
    decreases s.len(),
{
    if s.len() > 0 {
        lemma_rows_view_at(s.drop_last());
    }
}

proof fn lemma_items_view_at(s: Seq<ListItem>)
    ensures
        crate::ast::items_view(s).len() == s.len(),
        forall|k: int| 0 <= k < s.len() ==> #[trigger] crate::ast::items_view(s)[k] == crate::ast::item_view(s[k]),
    decreases s.len(),
{
    if s.len() > 0 {
        lemma_items_view_at(s.drop_last());
    }
}

proof fn lemma_all_fit(bs: Seq<BlockV>, width: int)
    requires
        all_fit(bs, width),
    ensures
        forall|k: int| 0 <= k < bs.len() ==> fits(#[trigger] bs[k], width),
    decreases bs.len(),
{
    if bs.len() > 0 {
        lemma_all_fit(bs.drop_last(), width);
        assert forall|k: int| 0 <= k < bs.len() implies fits(#[trigger] bs[k], width) by {
            if k < bs.len() - 1 {
                assert(bs[k] == bs.drop_last()[k]);
            }
        }
    }
}

proof fn lemma_items_fit(items: Seq<ItemV>, width: int)
    requires
        items_fit(items, width),
    ensures
        forall|k: int| 0 <= k < items.len() ==> all_fit(#[trigger] items[k].children, width),
    decreases items.len(),
{
    if items.len() > 0 {
        lemma_items_fit(items.drop_last(), width);
        assert forall|k: int| 0 <= k < items.len() implies all_fit(#[trigger] items[k].children, width) by {
            if k < items.len() - 1 {
                assert(items[k] == items.drop_last()[k]);
            }
        }
    }
}

/// The saturated sum of `ws`.
fn sum_widths(ws: &Vec<usize>) -> (s: usize)
    ensures
        s == sum_sat(ws@),
{
    let mut s: usize = 0;
    let mut k: usize = 0;
    while k < ws.len()
        invariant
            k <= ws@.len(),
            s == sum_sat(ws@.take(k as int)),
        decreases ws@.len() - k,
    {
        assert(ws@.take(k + 1).drop_last() =~= ws@.take(k as int));
        s = s.saturating_add(ws[k]);
        k += 1;
    }
    assert(ws@.take(k as int) =~= ws@);
    s
}

/// Fit column widths into `budget` (see `shrink_spec`).
fn shrink_columns(widths: &mut Vec<usize>, budget: usize)
    ensures
        final(widths)@ == shrink_spec(old(widths)@, budget),
{
    let ghost ws = widths@;
    let total = sum_widths(widths);
    if total <= budget {
        return;
    }
    let n = widths.len();
    if n == 0 {
        return;
    }
    let x = total - budget;
    let q = x / n;
    let rmd = x % n;
    let share: usize = if rmd == 0 {
        q
    } else {
        assert(q < usize::MAX) by (nonlinear_arith)
            requires
                q == x / n,
                rmd == x % n,
                rmd != 0,
                n > 0,
                x <= usize::MAX,
        ;
        q + 1
    };
    let per: usize = if share > 4 {
        share
    } else {
        4
    };
    let ghost f = |w: usize| if w > per { (w - per) as usize } else { w };
    let mut k: usize = 0;
    while k < n
        invariant
            k <= n,
            n == widths@.len(),
            n == ws.len(),
            f == (|w: usize| if w > per { (w - per) as usize } else { w }),
            forall|j: int| 0 <= j < k ==> widths@[j] == f(ws[j]),
            forall|j: int| k <= j < n ==> widths@[j] == ws[j],
        decreases n - k,
    {
        if widths[k] > per {
            let v = widths[k] - per;
            widths.set(k, v);
        }
        k += 1;
    }
    let ghost w1 = widths@;
    assert(w1 =~= ws.map_values(f));
    let s1 = sum_widths(widths);
    let remaining = if budget < s1 {
        budget
    } else {
        s1
    };
    let mut sum: usize = s1;
    while sum > remaining
        invariant
            n == widths@.len(),
            n > 0,
            remaining <= sum,
            cap_widths(widths@, sum as int, remaining as int) == cap_widths(w1, s1 as int, remaining as int),
        decreases sum,
    {
        let mut max_i: usize = 0;
        let mut i: usize = 0;
        while i < n
            invariant
                n == widths@.len(),
                n > 0,
                i <= n,
                max_i as int == first_max(widths@, if i == 0 { 1 } else { i as int }),
                max_i < n,
            decreases n - i,
        {
            if widths[i] > widths[max_i] {
                max_i = i;
            }
            i += 1;
        }
        let v = widths[max_i].saturating_sub(1);
        widths.set(max_i, v);
        sum -= 1;
    }
    let ghost w2 = widths@;
    let mut k: usize = 0;
    while k < n
        invariant
            k <= n,
            n == widths@.len(),
            n == w2.len(),
            forall|j: int| 0 <= j < k ==> widths@[j] == (if w2[j] > 1 { w2[j] } else { 1usize }),
            forall|j: int| k <= j < n ==> widths@[j] == w2[j],
        decreases n - k,
    {
        if widths[k] < 1 {
            widths.set(k, 1);
        }
        k += 1;
    }
    assert(widths@ =~= w2.map_values(|w: usize| if w > 1 { w } else { 1usize }));
}

/// One table row.
fn push_row(out: &mut Vec<Line>, widths: &Vec<usize>, cells: &Vec<Vec<Inline>>, tag: StyleTag)
    ensures
        lines_view(final(out)@) == lines_view(old(out)@).push(
            table_row(widths@, crate::ast::cells_view(cells@), tag),
        ),
{
    let ghost cv = crate::ast::cells_view(cells@);
    proof {
        crate::ast::lemma_cells_view(cells@);
    }
    let bar: Vec<char> = vec!['\u{2502}'];
    let mut spans: Vec<Span> = Vec::new();
    push_span(&mut spans, styled_span(&bar, StyleTag::TableBorder));
    assert(bar@ =~= seq!['\u{2502}']);
    let mut c: usize = 0;
    while c < widths.len()
        invariant
            c <= widths@.len(),
            cv == crate::ast::cells_view(cells@),
            cv.len() == cells@.len(),
            forall|k: int| 0 <= k < cells@.len() ==> #[trigger] cv[k] == crate::ast::inlines_view(cells@[k]@),
            bar@ == seq!['\u{2502}'],
            spans_view(spans@) == seq![styled(seq!['\u{2502}'], StyleTag::TableBorder)] + row_cells(
                widths@,
                cv,
                tag,
                c as int,
            ),
        decreases widths@.len() - c,
    {
        let w = widths[c];
        let text: String = if c < cells.len() {
            crate::tui::width::plain_text(cells[c].as_slice())
        } else {
            String::new()
        };
        assert(text@ == text_at(cv, c as int));
        let tw = crate::tui::width::WidthExt::width(text.as_str());
        let cut = crate::tui::width::truncate(text.as_str(), w);
        let space: Vec<char> = vec![' '];
        push_span(&mut spans, raw_span(&space));
        let cutc = chars_of(cut.as_str());
        push_span(&mut spans, styled_span(&cutc, tag));
        let pad = repeat_vec(' ', w.saturating_sub(tw).saturating_add(1));
        push_span(&mut spans, raw_span(&pad));
        push_span(&mut spans, styled_span(&bar, StyleTag::TableBorder));
        assert(space@ =~= seq![' ']);
        assert(pad@ =~= spaces(sat_add(crate::tui::input::sat_sub(w as int, tw as int), 1) as int));
        c += 1;
    }
    push_plain_line(out, spans);
}

/// The separator line below the header.
fn push_sep(out: &mut Vec<Line>, widths: &Vec<usize>)
    ensures
        lines_view(final(out)@) == lines_view(old(out)@).push(sep_line(widths@)),
{
    let bar: Vec<char> = vec!['\u{2502}'];
    let cross: Vec<char> = vec!['\u{253c}'];
    let mut spans: Vec<Span> = Vec::new();
    push_span(&mut spans, styled_span(&bar, StyleTag::TableBorder));
    assert(bar@ =~= seq!['\u{2502}']);
    assert(cross@ =~= seq!['\u{253c}']);
    let mut c: usize = 0;
    while c < widths.len()
        invariant
            c <= widths@.len(),
            bar@ == seq!['\u{2502}'],
            cross@ == seq!['\u{253c}'],
            spans_view(spans@) == seq![styled(seq!['\u{2502}'], StyleTag::TableBorder)] + sep_cells(widths@, c as int),
        decreases widths@.len() - c,
    {
        let rule = repeat_vec('\u{2500}', widths[c].saturating_add(2));
        push_span(&mut spans, styled_span(&rule, StyleTag::TableBorder));
        if c + 1 == widths.len() {
            push_span(&mut spans, styled_span(&bar, StyleTag::TableBorder));
        } else {
            push_span(&mut spans, styled_span(&cross, StyleTag::TableBorder));
        }
        c += 1;
    }
    push_plain_line(out, spans);
}

fn render_table(
    headers: &Vec<Vec<Inline>>,
    rows: &Vec<Vec<Vec<Inline>>>,
    aligns: &Vec<Alignment>,
    width: usize,
    out: &mut Vec<Line>,
)
    requires
        ({
            let cols = table_cols(crate::ast::cells_view(headers@), crate::ast::rows_view(rows@), aligns@);
            cols == 0 || 3 * (cols - 1) <= crate::tui::input::sat_sub(width as int, 2)
        }),
    ensures
        lines_view(final(out)@) == lines_view(old(out)@) + table_lines(
            crate::ast::cells_view(headers@),
            crate::ast::rows_view(rows@),
            aligns@,
            width as int,
        ),
{
    let ghost hv = crate::ast::cells_view(headers@);
    let ghost rv = crate::ast::rows_view(rows@);
    proof {
        crate::ast::lemma_cells_view(headers@);
        lemma_rows_view_at(rows@);
    }
    let available = width.saturating_sub(2);
    let mut cols: usize = if aligns.len() > headers.len() {
        aligns.len()
    } else {
        headers.len()
    };
    let ghost base: int = cols as int;
    let mut r: usize = 0;
    while r < rows.len()
        invariant
            r <= rows@.len(),
            rv == crate::ast::rows_view(rows@),
            rv.len() == rows@.len(),
            forall|k: int| 0 <= k < rows@.len() ==> #[trigger] rv[k] == crate::ast::cells_view(rows@[k]@),
            cols as int == max_cols(rv.take(r as int), base),
        decreases rows@.len() - r,
    {
        proof {
            crate::ast::lemma_cells_view(rows@[r as int]@);
            assert(rv.take(r + 1).drop_last() =~= rv.take(r as int));
        }
        if rows[r].len() > cols {
            cols = rows[r].len();
        }
        r += 1;
    }
    assert(rv.take(r as int) =~= rv);
    if cols == 0 {
        assert(table_lines(hv, rv, aligns@, width as int) =~= Seq::<LineV>::empty());
        assert(lines_view(out@) =~= lines_view(old(out)@) + Seq::<LineV>::empty());
        return;
    }
    let mut widths: Vec<usize> = Vec::new();
    let mut c: usize = 0;
    while c < cols
        invariant
            c <= cols,
            hv == crate::ast::cells_view(headers@),
            hv.len() == headers@.len(),
            forall|k: int| 0 <= k < headers@.len() ==> #[trigger] hv[k] == crate::ast::inlines_view(headers@[k]@),
            widths@.len() == c,
            forall|j: int| 0 <= j < c ==> widths@[j] == cell_w(hv, j),
        decreases cols - c,
    {
        let w = if c < headers.len() {
            crate::tui::width::plain_width(headers[c].as_slice())
        } else {
            0
        };
        widths.push(w);
        c += 1;
    }
    let mut r: usize = 0;
    while r < rows.len()
        invariant
            r <= rows@.len(),
            widths@.len() == cols,
            rv == crate::ast::rows_view(rows@),
            rv.len() == rows@.len(),
            forall|k: int| 0 <= k < rows@.len() ==> #[trigger] rv[k] == crate::ast::cells_view(rows@[k]@),
            forall|j: int| 0 <= j < cols ==> widths@[j] == rows_w(rv.take(r as int), j, cell_w(hv, j)),
        decreases rows@.len() - r,
    {
        let row = &rows[r];
        let ghost prev = widths@;
        proof {
            crate::ast::lemma_cells_view(row@);
        }
        let mut c: usize = 0;
        while c < row.len() && c < cols
            invariant
                c <= row@.len(),
                r < rows@.len(),
                rv.len() == rows@.len(),
                widths@.len() == cols,
                rv[r as int] == crate::ast::cells_view(row@),
                crate::ast::cells_view(row@).len() == row@.len(),
                forall|k: int| 0 <= k < row@.len() ==> #[trigger] crate::ast::cells_view(row@)[k]
                    == crate::ast::inlines_view(row@[k]@),
                forall|j: int| 0 <= j < c && j < cols ==> widths@[j] == (if cell_w(rv[r as int], j) > prev[j] {
                    cell_w(rv[r as int], j)
                } else {
                    prev[j]
                }),
                forall|j: int| c <= j < cols ==> widths@[j] == prev[j],
            decreases row@.len() - c,
        {
            let w = crate::tui::width::plain_width(row[c].as_slice());
            if w > widths[c] {
                widths.set(c, w);
            }
            c += 1;
        }
        proof {
            assert(rv.take(r + 1).drop_last() =~= rv.take(r as int));
            assert(rv.take(r + 1).last() == rv[r as int]);
            assert forall|j: int| 0 <= j < cols implies widths@[j] == rows_w(rv.take(r + 1), j, cell_w(hv, j)) by {
                assert(prev[j] == rows_w(rv.take(r as int), j, cell_w(hv, j)));
                if j >= row@.len() {
                    assert(cell_w(rv[r as int], j) == 0);
                }
            }
        }
        r += 1;
    }
    assert(rv.take(r as int) =~= rv);
    assert(widths@ =~= natural_widths(hv, rv, cols as int));
    let total = sum_widths(&widths).saturating_add(3 * (cols - 1));
    if total > available {
        shrink_columns(&mut widths, available - 3 * (cols - 1));
    }
    let ghost ws = widths@;
    push_row(out, &widths, headers, StyleTag::TableHeader);
    push_sep(out, &widths);
    let ghost start = lines_view(out@);
    let mut r: usize = 0;
    while r < rows.len()
        invariant
            r <= rows@.len(),
            widths@ == ws,
            rv == crate::ast::rows_view(rows@),
            rv.len() == rows@.len(),
            forall|k: int| 0 <= k < rows@.len() ==> #[trigger] rv[k] == crate::ast::cells_view(rows@[k]@),
            lines_view(out@) == start + rv.take(r as int).map_values(
                |row: Seq<Seq<InlineV>>| table_row(ws, row, StyleTag::Text),
            ),
        decreases rows@.len() - r,
    {
        push_row(out, &widths, &rows[r], StyleTag::Text);
        assert(rv.take(r + 1).map_values(|row: Seq<Seq<InlineV>>| table_row(ws, row, StyleTag::Text))
            =~= rv.take(r as int).map_values(|row: Seq<Seq<InlineV>>| table_row(ws, row, StyleTag::Text)).push(
            table_row(ws, rv[r as int], StyleTag::Text),
        ));
        r += 1;
    }
    assert(rv.take(r as int) =~= rv);
    assert(lines_view(out@) =~= lines_view(old(out)@) + table_lines(hv, rv, aligns@, width as int));
}

/// The columns reserved for list markers.
fn list_marker_width(items: &Vec<ListItem>, ordered: bool, start: u64) -> (mw: usize)
    requires
        ordered ==> 1 <= start + items@.len() <= u64::MAX,
    ensures
        mw as int == marker_width(ordered, start, crate::ast::items_view(items@)),
        mw <= 22,
{
    proof {
        lemma_items_view_at(items@);
    }
    let ghost iv = crate::ast::items_view(items@);
    if ordered {
        let max_num: u64 = start + items.len() as u64 - 1;
        let digits = crate::tui::agent::decimal_exec(max_num);
        proof {
            crate::tui::agent::lemma_decimal_len(max_num as nat);
        }
        return digits.len() + 2;
    }
    let mut any_task = false;
    let mut k: usize = 0;
    while k < items.len()
        invariant
            k <= items@.len(),
            iv == crate::ast::items_view(items@),
            iv.len() == items@.len(),
            forall|j: int| 0 <= j < items@.len() ==> #[trigger] iv[j] == crate::ast::item_view(items@[j]),
            any_task == exists|j: int| 0 <= j < k && (#[trigger] iv[j]).checked is Some,
        decreases items@.len() - k,
    {
        assert(iv[k as int].checked == items@[k as int].checked);
        if items[k].checked.is_some() {
            any_task = true;
        }
        assert(any_task == exists|j: int| 0 <= j < k + 1 && (#[trigger] iv[j]).checked is Some) by {
            if any_task && !(exists|j: int| 0 <= j < k && (#[trigger] iv[j]).checked is Some) {
                assert(iv[k as int].checked is Some);
            }
        }
        k += 1;
    }
    if any_task {
        4
    } else {
        2
    }
}

fn render_item(
    item: &ListItem,
    number: u64,
    ordered: bool,
    mw: usize,
    width: usize,
    out: &mut Vec<Line>,
)
    requires
        all_fit(crate::ast::item_view(*item).children, crate::tui::input::sat_sub(width as int, mw as int)),
        mw <= 22,
    ensures
        lines_view(final(out)@) == lines_view(old(out)@) + item_lines_of(
            blocks_lines(crate::ast::item_view(*item).children, crate::tui::input::sat_sub(width as int, mw as int)),
            list_marker(item.checked, ordered, number as int),
            mw as int,
        ),
    decreases item, 1nat,
{
    let marker_text: Vec<char> = match item.checked {
        Some(true) => vec!['[', 'x', ']'],
        Some(false) => vec!['[', ' ', ']'],
        None => if ordered {
            let mut d = crate::tui::agent::decimal_exec(number);
            d.push('.');
            d
        } else {
            vec!['\u{2022}']
        },
    };
    let tag = match item.checked {
        Some(true) => StyleTag::TaskDone,
        Some(false) => StyleTag::TaskOpen,
        None => StyleTag::ListMarker,
    };
    assert(marker_text@ =~= list_marker(item.checked, ordered, number as int).content);
    assert(seq![tag] =~= list_marker(item.checked, ordered, number as int).style);
    let marker = styled_span(&marker_text, tag);
    assert(marker@ == list_marker(item.checked, ordered, number as int));
    let used = crate::tui::width::WidthExt::width(string_of(&marker_text).as_str());
    let mut inner: Vec<Line> = Vec::new();
    render_blocks(&item.children, &mut inner, width.saturating_sub(mw));
    assert(lines_view(inner@) =~= blocks_lines(crate::ast::item_view(*item).children, crate::tui::input::sat_sub(width as int, mw as int)));
    let empty: Vec<char> = Vec::new();
    if inner.len() == 0 {
        let mut spans: Vec<Span> = Vec::new();
        push_span(&mut spans, raw_span(&empty));
        push_span(&mut spans, marker);
        assert(empty@ =~= Seq::<char>::empty());
        assert(spans_view(spans@) =~= seq![raw(Seq::empty()), list_marker(item.checked, ordered, number as int)]);
        push_plain_line(out, spans);
        return;
    }
    let ghost iv = lines_view(inner@);
    let ghost start = lines_view(out@);
    let mut spans: Vec<Span> = Vec::new();
    push_span(&mut spans, raw_span(&empty));
    push_span(&mut spans, marker);
    let gap = repeat_vec(' ', mw.saturating_sub(used));
    assert(gap@ =~= spaces(crate::tui::input::sat_sub(mw as int, used as int)));
    assert(empty@ =~= Seq::<char>::empty());
    push_span(&mut spans, raw_span(&gap));
    copied_spans(&inner[0].spans, &mut spans);
    assert(spans_view(spans@) =~= seq![raw(Seq::empty()), list_marker(item.checked, ordered, number as int), raw(spaces(crate::tui::input::sat_sub(mw as int, crate::tui::width::str_cols(list_marker(item.checked, ordered, number as int).content) as int)))] + iv[0].spans);
    push_plain_line(out, spans);
    let pad = repeat_vec(' ', mw);
    assert(pad@ =~= spaces(mw as int));
    assert(iv.drop_first().take(0) =~= Seq::<LineV>::empty());
    let mut k: usize = 1;
    while k < inner.len()
        invariant
            1 <= k <= inner@.len(),
            iv == lines_view(inner@),
            pad@ == spaces(mw as int),
            lines_view(out@) == start.push(line_of(seq![raw(Seq::empty()), list_marker(item.checked, ordered, number as int), raw(spaces(crate::tui::input::sat_sub(mw as int, crate::tui::width::str_cols(list_marker(item.checked, ordered, number as int).content) as int)))] + iv[0].spans))
                + iv.drop_first().take(k - 1).map_values(|l: LineV| line_of(seq![raw(spaces(mw as int))] + l.spans)),
        decreases inner@.len() - k,
    {
        let ghost prev = lines_view(out@);
        let mut spans: Vec<Span> = Vec::new();
        push_span(&mut spans, raw_span(&pad));
        copied_spans(&inner[k].spans, &mut spans);
        assert(spans_view(spans@) =~= seq![raw(spaces(mw as int))] + iv[k as int].spans);
        push_plain_line(out, spans);
        assert(iv.drop_first()[k - 1] == iv[k as int]);
        assert(iv.drop_first().take(k as int).map_values(|l: LineV| line_of(seq![raw(spaces(mw as int))] + l.spans))
            =~= iv.drop_first().take(k - 1).map_values(|l: LineV| line_of(seq![raw(spaces(mw as int))] + l.spans)).push(
            line_of(seq![raw(spaces(mw as int))] + iv[k as int].spans),
        ));
        assert(lines_view(out@) =~= prev.push(line_of(seq![raw(spaces(mw as int))] + iv[k as int].spans)));
        k += 1;
    }
    assert(iv.drop_first().take(k - 1) =~= iv.drop_first());
}

fn render_list(items: &Vec<ListItem>, ordered: bool, start: u64, width: usize, out: &mut Vec<Line>)
    requires
        ordered ==> 1 <= start + items@.len() <= u64::MAX,
        items_fit(crate::ast::items_view(items@), crate::tui::input::sat_sub(width as int, marker_width(ordered, start, crate::ast::items_view(items@)))),
    ensures
        lines_view(final(out)@) == lines_view(old(out)@) + items_lines(
            crate::ast::items_view(items@),
            ordered,
            start,
            marker_width(ordered, start, crate::ast::items_view(items@)),
            width as int,
        ),
    decreases items, 0nat,
{
    let mw = list_marker_width(items, ordered, start);
    let ghost iv = crate::ast::items_view(items@);
    let ghost w2 = crate::tui::input::sat_sub(width as int, mw as int);
    proof {
        lemma_items_view_at(items@);
        lemma_items_fit(iv, w2);
    }
    let ghost begin = lines_view(out@);
    let mut k: usize = 0;
    assert(iv.take(0) =~= Seq::<ItemV>::empty());
    assert(lines_view(out@) =~= begin + items_lines(iv.take(0), ordered, start, mw as int, width as int));
    while k < items.len()
        invariant
            k <= items@.len(),
            iv == crate::ast::items_view(items@),
            iv.len() == items@.len(),
            forall|j: int| 0 <= j < items@.len() ==> #[trigger] iv[j] == crate::ast::item_view(items@[j]),
            forall|j: int| 0 <= j < iv.len() ==> all_fit(#[trigger] iv[j].children, w2),
            w2 == crate::tui::input::sat_sub(width as int, mw as int),
            mw <= 22,
            ordered ==> 1 <= start + items@.len() <= u64::MAX,
            lines_view(out@) == begin + items_lines(iv.take(k as int), ordered, start, mw as int, width as int),
        decreases items@.len() - k,
    {
        assert(decreases_to!(items => items@[k as int]));
        let number: u64 = if ordered {
            start + k as u64
        } else {
            0
        };
        assert(iv[k as int] == crate::ast::item_view(items@[k as int]));
        render_item(&items[k], number, ordered, mw, width, out);
        proof {
            let t = iv.take(k + 1);
            assert(t.drop_last() =~= iv.take(k as int));
            assert(t.last() == iv[k as int]);
            assert(list_marker(items@[k as int].checked, ordered, number as int) == list_marker(t.last().checked, ordered, start + t.len() - 1));
        }
        k += 1;
    }
    assert(iv.take(k as int) =~= iv);
}

fn render_into(block: &Block, out: &mut Vec<Line>, width: usize)
    requires
        fits(block@, width as int),
    ensures
        lines_view(final(out)@) == lines_view(old(out)@) + block_lines(block@, width as int),
    decreases block, 1nat,
{
    match block {
        Block::Paragraph(inl) => {
            let lines = render_inlines(inl.as_slice(), width);
            append_lines(out, lines);
        },
        Block::Heading { children, .. } => {
            let lines = render_inlines(children.as_slice(), width);
            append_lines(out, lines);
        },
        Block::Code { text, .. } => {
            split_lines(text, true, width, out);
        },
        Block::BlockQuote(children) => {
            let mut inner: Vec<Line> = Vec::new();
            render_blocks(children, &mut inner, width - 2);
            assert(lines_view(inner@) =~= blocks_lines(crate::ast::blocks_view(children@), width - 2));
            let bar: Vec<char> = vec!['\u{258c}', ' '];
            prefix_lines(&inner, &bar, StyleTag::QuoteBar, StyleTag::Quote, out);
            assert(bar@ =~= seq!['\u{258c}', ' ']);
        },
        Block::List { ordered, start, items } => {
            proof {
                lemma_items_view_at(items@);
            }
            render_list(items, *ordered, *start, width, out);
        },
        Block::Table { headers, rows, aligns } => {
            render_table(headers, rows, aligns, width, out);
        },
        Block::ThematicBreak => {
            let rule = repeat_vec('\u{2500}', width);
            let mut spans: Vec<Span> = Vec::new();
            push_span(&mut spans, styled_span(&rule, StyleTag::Hr));
            push_plain_line(out, spans);
            assert(spans_view(spans@) =~= seq![styled(repeat_char('\u{2500}', width as int), StyleTag::Hr)]);
            assert(lines_view(out@) =~= lines_view(old(out)@) + block_lines(block@, width as int));
        },
        Block::Html(h) => {
            split_lines(h, false, width, out);
        },
        Block::FootnoteDefinition { label, children } => {
            let mut inner: Vec<Line> = Vec::new();
            render_blocks(children, &mut inner, width - 2);
            let ghost before = lines_view(inner@);
            assert(before =~= blocks_lines(crate::ast::blocks_view(children@), width - 2));
            if inner.len() > 0 {
                let a: Vec<char> = vec!['[', '^'];
                let b: Vec<char> = vec![']', ' '];
                let text = framed(&a, label, &b);
                let mut spans: Vec<Span> = Vec::new();
                push_span(&mut spans, styled_span(&text, StyleTag::Footnote));
                copied_spans(&inner[0].spans, &mut spans);
                let first_style = copy_tags(&inner[0].style);
                assert(text@ =~= seq!['[', '^'] + label@ + seq![']', ' ']);
                assert(spans_view(spans@) =~= seq![styled(seq!['[', '^'] + label@ + seq![']', ' '], StyleTag::Footnote)] + before[0].spans);
                let l = Line { spans, style: first_style };
                inner.set(0, l);
                assert(lines_view(inner@) =~~= labeled(before, label@));
            } else {
                assert(lines_view(inner@) =~= labeled(before, label@));
            }
            let pad: Vec<char> = vec![' ', ' '];
            prefix_lines(&inner, &pad, StyleTag::Footnote, StyleTag::Footnote, out);
            assert(pad@ =~= seq![' ', ' ']);
        },
    }
}

fn render_blocks(blocks: &Vec<Block>, out: &mut Vec<Line>, width: usize)
    requires
        all_fit(crate::ast::blocks_view(blocks@), width as int),
    ensures
        lines_view(final(out)@) == lines_view(old(out)@) + blocks_lines(crate::ast::blocks_view(blocks@), width as int),
    decreases blocks, 0nat,
{
    let ghost bv = crate::ast::blocks_view(blocks@);
    proof {
        crate::ast::lemma_blocks_view(blocks@);
        lemma_all_fit(bv, width as int);
    }
    let ghost begin = lines_view(out@);
    let mut k: usize = 0;
    assert(bv.take(0) =~= Seq::<BlockV>::empty());
    assert(lines_view(out@) =~= begin + blocks_lines(bv.take(0), width as int));
    while k < blocks.len()
        invariant
            k <= blocks@.len(),
            bv == crate::ast::blocks_view(blocks@),
            bv.len() == blocks@.len(),
            forall|j: int| 0 <= j < blocks@.len() ==> #[trigger] bv[j] == crate::ast::block_view(blocks@[j]),
            forall|j: int| 0 <= j < bv.len() ==> fits(#[trigger] bv[j], width as int),
            lines_view(out@) == begin + blocks_lines(bv.take(k as int), width as int),
        decreases blocks@.len() - k,
    {
        assert(decreases_to!(blocks => blocks@[k as int]));
        assert(bv[k as int] == blocks@[k as int]@);
        render_into(&blocks[k], out, width);
        proof {
            let t = bv.take(k + 1);
            assert(t.drop_last() =~= bv.take(k as int));
            assert(t.last() == bv[k as int]);
        }
        k += 1;
    }
    assert(bv.take(k as int) =~= bv);
}

/// Render one block's syntax tree into styled lines.
pub fn render_block(ast: &Option<crate::ast::Ast>, width: usize) -> (r: Vec<Line>)
    requires
        ast is Some ==> all_fit(ast->0@, width as int),
    ensures
        lines_view(r@) == match ast {
            Some(a) => blocks_lines(a@, width as int),
            None => Seq::empty(),
        },
{
    let mut out: Vec<Line> = Vec::new();
    match ast {
        Some(a) => {
            render_blocks(&a.children, &mut out, width);
            assert(lines_view(out@) =~= blocks_lines(a@, width as int));
        },
        None => {
            assert(lines_view(out@) =~= Seq::<LineV>::empty());
        },
    }
    out
}

// ---------------------------------------------------------------------------
// streaming renderer with a per-block cache
// ---------------------------------------------------------------------------

pub(crate) fn copy_line(l: &Line) -> (r: Line)
    ensures
        r@ == l@,
{
    let mut spans: Vec<Span> = Vec::new();
    copied_spans(&l.spans, &mut spans);
    assert(spans_view(spans@) =~= spans_view(l.spans@));
    Line { spans, style: copy_tags(&l.style) }
}

fn copy_lines(v: &Vec<Line>) -> (r: Vec<Line>)
    ensures
        lines_view(r@) == lines_view(v@),
{
    let mut r: Vec<Line> = Vec::new();
    let mut k: usize = 0;
    while k < v.len()
        invariant
            k <= v@.len(),
            lines_view(r@) == lines_view(v@.take(k as int)),
        decreases v@.len() - k,
    {
        push_lines(&mut r, copy_line(&v[k]));
        assert(lines_view(v@.take(k + 1)) =~= lines_view(v@.take(k as int)).push(v@[k as int]@));
        k += 1;
    }
    assert(v@.take(k as int) =~= v@);
    r
}

/// The lines of one block of a document.
pub open spec fn result_lines(ast: Option<Seq<BlockV>>, width: int) -> Seq<LineV> {
    match ast {
        Some(a) => blocks_lines(a, width),
        None => Seq::empty(),
    }
}

/// The parse of a block text as a document holds it (none for an empty
/// text).
pub open spec fn parsed(text: Seq<char>) -> Option<Seq<BlockV>> {
    if text.len() == 0 {
        None
    } else {
        Some(crate::processor::parse_spec(text))
    }
}

/// The syntax tree of a processed block, as a view.
pub open spec fn ast_of(r: crate::processor::BlockResult) -> Option<Seq<BlockV>> {
    match r.ast {
        Some(a) => Some(a@),
        None => None,
    }
}

/// Document output: the blocks' lines one after the other, a blank line
/// after each block whose output so far ends in a non-empty line.
pub open spec fn document_lines(blocks: Seq<Seq<LineV>>) -> Seq<LineV>
    decreases blocks.len(),
{
    if blocks.len() == 0 {
        Seq::empty()
    } else {
        let acc = document_lines(blocks.drop_last()) + blocks.last();
        if acc.len() > 0 && acc.last().spans.len() > 0 {
            acc.push(line_of(Seq::empty()))
        } else {
            acc
        }
    }
}

/// A display adapter: markdown syntax trees to styled terminal lines, with
/// a per-block cache so that only blocks whose source text changed are
/// rendered again.
pub struct StreamMarkdownRenderer {
    width: usize,
    cached: Vec<Option<(String, Vec<Line>)>>,
    lines: Vec<Line>,
}

impl StreamMarkdownRenderer {
    /// The wrap width.
    pub closed spec fn width_of(&self) -> int {
        self.width as int
    }

    /// The lines of the last render.
    pub closed spec fn lines_of(&self) -> Seq<LineV> {
        lines_view(self.lines@)
    }

    /// The cached lines of block `i`, if any.
    pub closed spec fn cached_at(&self, i: int) -> Option<Seq<LineV>> {
        if 0 <= i < self.cached@.len() {
            match self.cached@[i] {
                Some(entry) => Some(lines_view(entry.1@)),
                None => None,
            }
        } else {
            None
        }
    }

    /// The cache, as a whole.
    pub closed spec fn cached_at_all(&self) -> Seq<Option<(String, Vec<Line>)>> {
        self.cached@
    }

    /// The source text cached for block `i`, if any.
    pub closed spec fn cached_text_at(&self, i: int) -> Option<Seq<char>> {
        if 0 <= i < self.cached@.len() {
            match self.cached@[i] {
                Some(entry) => Some(entry.0@),
                None => None,
            }
        } else {
            None
        }
    }

    /// Every cached entry holds the lines of its source text's parse at the
    /// current width.
    pub closed spec fn consistent(&self) -> bool {
        forall|i: int|
            0 <= i < self.cached@.len() ==> match #[trigger] self.cached@[i] {
                Some(entry) => lines_view(entry.1@) == result_lines(parsed(entry.0@), self.width as int),
                None => true,
            }
    }

    /// The lines a render gives block `r` at position `i`: the cached lines
    /// when the cache holds the block's text there, else a fresh render.
    pub open spec fn block_out(&self, r: crate::processor::BlockResult, i: int) -> Seq<LineV> {
        if self.cached_text_at(i) == Some(r.content@) {
            self.cached_at(i)->0
        } else {
            result_lines(ast_of(r), self.width_of())
        }
    }

    /// Create a renderer for the given wrap width.
    pub fn new(width: usize) -> (r: Self)
        ensures
            r.consistent(),
            r.width_of() == width,
            r.lines_of() == Seq::<LineV>::empty(),
            forall|i: int| r.cached_at(i) is None,
    {
        let r = StreamMarkdownRenderer { width, cached: Vec::new(), lines: Vec::new() };
        assert(lines_view(r.lines@) =~= Seq::<LineV>::empty());
        r
    }

    /// Change the wrap width (the cache is dropped when it changes).
    pub fn set_width(&mut self, width: usize)
        ensures
            final(self).width_of() == width,
            final(self).lines_of() == old(self).lines_of(),
            old(self).consistent() ==> final(self).consistent(),
            width != old(self).width_of() ==> forall|i: int| final(self).cached_at(i) is None,
            width == old(self).width_of() ==> final(self).cached_at_all() == old(self).cached_at_all(),
    {
        if self.width != width {
            self.width = width;
            self.cached.clear();
        }
    }

    /// The assembled output lines (after the last `render` call).
    pub fn lines(&self) -> (r: &[Line])
        ensures
            lines_view(r@) == self.lines_of(),
    {
        self.lines.as_slice()
    }

    /// Render (or update) a processed document: each block is rendered
    /// unless its text is the one cached for its position. When the cache
    /// holds the renders of its texts' parses and each block's tree is the
    /// parse of its text (as the processor gives them), the output is the
    /// same as rendering every block afresh.
    pub fn render(&mut self, doc: &crate::processor::Document)
        requires
            forall|i: int| 0 <= i < doc.blocks@.len() ==> match ast_of(#[trigger] doc.blocks@[i]) {
                Some(a) => all_fit(a, old(self).width_of()),
                None => true,
            },
        ensures
            final(self).width_of() == old(self).width_of(),
            final(self).lines_of() == document_lines(
                Seq::new(doc.blocks@.len(), |i: int| old(self).block_out(doc.blocks@[i], i)),
            ),
            (old(self).consistent() && forall|i: int| 0 <= i < doc.blocks@.len() ==> ast_of(#[trigger] doc.blocks@[i]) == parsed(doc.blocks@[i].content@))
                ==> final(self).consistent() && final(self).lines_of() == document_lines(
                doc.blocks@.map_values(|r: crate::processor::BlockResult| result_lines(ast_of(r), old(self).width_of())),
            ),
    {
        let n = doc.blocks.len();
        let ghost fresh_docs = forall|i: int| 0 <= i < doc.blocks@.len() ==> ast_of(#[trigger] doc.blocks@[i]) == parsed(doc.blocks@[i].content@);
        let ghost assume_cons = old(self).consistent() && fresh_docs;
        while self.cached.len() > n
            invariant
                self.width == old(self).width,
                self.cached@.len() <= old(self).cached@.len(),
                self.cached@.len() == old(self).cached@.len() || self.cached@.len() >= n,
                forall|j: int| 0 <= j < self.cached@.len() ==> self.cached@[j] == old(self).cached@[j],
            decreases self.cached@.len(),
        {
            self.cached.pop();
        }
        while self.cached.len() < n
            invariant
                self.width == old(self).width,
                self.cached@.len() <= n,
                self.cached@.len() < n ==> self.cached@.len() >= old(self).cached@.len(),
                forall|j: int| 0 <= j < self.cached@.len() ==> self.cached@[j] == (if j < old(self).cached@.len() {
                    old(self).cached@[j]
                } else {
                    None
                }),
            decreases n - self.cached@.len(),
        {
            self.cached.push(None);
        }
        let ghost per = Seq::new(doc.blocks@.len(), |i: int| old(self).block_out(doc.blocks@[i], i));
        let ghost fresh = doc.blocks@.map_values(|r: crate::processor::BlockResult| result_lines(ast_of(r), old(self).width_of()));
        let mut out: Vec<Line> = Vec::new();
        let mut k: usize = 0;
        assert(per.take(0) =~= Seq::<Seq<LineV>>::empty());
        assert(lines_view(out@) =~= Seq::<LineV>::empty());
        while k < n
            invariant
                k <= n,
                n == doc.blocks@.len(),
                self.cached@.len() == n,
                self.width == old(self).width,
                per == Seq::new(doc.blocks@.len(), |i: int| old(self).block_out(doc.blocks@[i], i)),
                fresh == doc.blocks@.map_values(|r: crate::processor::BlockResult| result_lines(ast_of(r), old(self).width_of())),
                forall|i: int| 0 <= i < doc.blocks@.len() ==> match ast_of(#[trigger] doc.blocks@[i]) {
                    Some(a) => all_fit(a, self.width as int),
                    None => true,
                },
                forall|j: int| k <= j < n ==> self.cached@[j] == (if j < old(self).cached@.len() {
                    old(self).cached@[j]
                } else {
                    None
                }),
                assume_cons == (old(self).consistent() && fresh_docs),
                fresh_docs == forall|i: int| 0 <= i < doc.blocks@.len() ==> ast_of(#[trigger] doc.blocks@[i]) == parsed(doc.blocks@[i].content@),
                assume_cons ==> self.consistent(),
                assume_cons ==> per.take(k as int) == fresh.take(k as int),
                lines_view(out@) == document_lines(per.take(k as int)),
            decreases n - k,
        {
            let block = &doc.blocks[k];
            let hit = match &self.cached[k] {
                Some(entry) => entry.0 == block.content,
                None => false,
            };
            proof {
                assert(hit == (old(self).cached_text_at(k as int) == Some(block.content@)));
            }
            let rendered: Vec<Line> = if hit {
                match &self.cached[k] {
                    Some(entry) => copy_lines(&entry.1),
                    None => Vec::new(),
                }
            } else {
                let lines = render_block(&block.ast, self.width);
                let copy = copy_lines(&lines);
                self.cached.set(k, Some((block.content.clone(), lines)));
                copy
            };
            assert(lines_view(rendered@) == per[k as int]);
            proof {
                if assume_cons {
                    assert(ast_of(doc.blocks@[k as int]) == parsed(doc.blocks@[k as int].content@));
                    assert(per[k as int] == fresh[k as int]);
                    assert(per.take(k + 1) =~= fresh.take(k + 1)) by {
                        assert(per.take(k as int) == fresh.take(k as int));
                    }
                }
            }
            append_lines(&mut out, rendered);
            let blank = out.len() > 0 && out[out.len() - 1].spans.len() > 0;
            if blank {
                push_lines(&mut out, Line { spans: Vec::new(), style: Vec::new() });
                assert(spans_view(Seq::<Span>::empty()) =~= Seq::<SpanV>::empty());
            }
            proof {
                let t = per.take(k + 1);
                assert(t.drop_last() =~= per.take(k as int));
                assert(t.last() == per[k as int]);
                if out@.len() > 0 {
                    assert(lines_view(out@).last() == out@[out@.len() - 1]@);
                }
            }
            k += 1;
        }
        assert(per.take(k as int) =~= per);
        assert(fresh.take(k as int) =~= fresh);
        self.lines = out;
    }

    /// Cached lines of a single block (index into the last rendered
    /// document).
    pub fn block_lines(&self, index: usize) -> (r: Option<&[Line]>)
        ensures
            match r {
                Some(ls) => self.cached_at(index as int) == Some(lines_view(ls@)),
                None => self.cached_at(index as int) is None,
            },
    {
        if index < self.cached.len() {
            match &self.cached[index] {
                Some(entry) => Some(entry.1.as_slice()),
                None => None,
            }
        } else {
            None
        }
    }
}

// ---------------------------------------------------------------------------
// wrapped lines fit
// ---------------------------------------------------------------------------

/// Display columns of spans (control characters count as zero).
pub open spec fn spans_cols(s: Seq<SpanV>) -> int
    decreases s.len(),
{
    if s.len() == 0 {
        0
    } else {
        spans_cols(s.drop_last()) + crate::tui::width::widths(s.last().content)
    }
}

/// A line fits `width` columns, or holds a single span.
pub open spec fn line_fits(l: LineV, width: int) -> bool {
    spans_cols(l.spans) <= width || l.spans.len() == 1
}

/// Every line fits `width` columns or holds a single span.
pub open spec fn lines_fit(ls: Seq<LineV>, width: int) -> bool {
    forall|k: int| 0 <= k < ls.len() ==> line_fits(#[trigger] ls[k], width)
}

/// What the wrapper keeps true: finished lines fit; the line being built is
/// `col` columns wide and fits, unless it is a single character.
pub open spec fn wrap_inv(st: WrapState, width: int) -> bool {
    &&& lines_fit(st.lines, width)
    &&& spans_cols(st.current) == st.col
    &&& (st.col <= width || st.current.len() == 1)
}

proof fn lemma_widths_nonneg(t: Seq<char>)
    ensures
        crate::tui::width::widths(t) >= 0,
    decreases t.len(),
{
    if t.len() > 0 {
        lemma_widths_nonneg(t.drop_first());
    }
}

proof fn lemma_trim_blank_cols(cur: Seq<SpanV>)
    ensures
        spans_cols(trim_blank_spans(cur)) <= spans_cols(cur),
        trim_blank_spans(cur).len() <= cur.len(),
    decreases cur.len(),
{
    if cur.len() > 0 && all_white(cur.last().content) {
        lemma_trim_blank_cols(cur.drop_last());
        lemma_widths_nonneg(cur.last().content);
    }
}

proof fn lemma_push_line_fits(lines: Seq<LineV>, cur: Seq<SpanV>, width: int)
    requires
        lines_fit(lines, width),
        spans_cols(cur) <= width || cur.len() == 1,
    ensures
        lines_fit(push_line_spec(lines, cur), width),
{
    lemma_trim_blank_cols(cur);
    let r = push_line_spec(lines, cur);
    assert forall|k: int| 0 <= k < r.len() implies line_fits(#[trigger] r[k], width) by {
        if k < lines.len() {
            assert(r[k] == lines[k]);
        }
    }
}

proof fn lemma_wrap_fold_inv(cs: Seq<(char, Seq<StyleTag>)>, width: int)
    requires
        width >= 0,
    ensures
        wrap_inv(wrap_fold(cs, width), width),
    decreases cs.len(),
{
    if cs.len() > 0 {
        lemma_wrap_fold_inv(cs.drop_last(), width);
        let st = wrap_fold(cs.drop_last(), width);
        let c = cs.last();
        let ch = c.0;
        let w = crate::tui::width::cols_of(ch);
        lemma_push_line_fits(st.lines, st.current, width);
        let brk = break_line(st);
        assert(spans_cols(Seq::<SpanV>::empty()) == 0);
        if ch != '\n' {
            let st1 = if st.col + w > width {
                brk
            } else {
                st
            };
            if !(is_white(ch) && st1.leading) {
                let sp = SpanV { content: seq![ch], style: c.1 };
                let cur = st1.current.push(sp);
                assert(cur.drop_last() == st1.current);
                let one = seq![ch];
                assert(one.drop_first() =~= Seq::<char>::empty());
                assert(crate::tui::width::widths(one.drop_first()) == 0);
                assert(one[0] == ch);
                assert(crate::tui::width::widths(one) == w);
            }
        }
    }
}

/// Wrapped lines are at most `width` columns wide, except a line holding a
/// single character wider than `width`.
pub proof fn lemma_wrapped_lines_fit(spans: Seq<SpanV>, width: int)
    requires
        width >= 0,
    ensures
        lines_fit(wrap_spec(spans, width), width),
{
    let st = wrap_fold(styled_chars(spans), width);
    lemma_wrap_fold_inv(styled_chars(spans), width);
    lemma_push_line_fits(st.lines, st.current, width);
}

// ---------------------------------------------------------------------------
// checking that a tree renders
// ---------------------------------------------------------------------------

fn table_cols_of(headers: &Vec<Vec<Inline>>, rows: &Vec<Vec<Vec<Inline>>>, aligns: &Vec<Alignment>) -> (c: usize)
    ensures
        c as int == table_cols(crate::ast::cells_view(headers@), crate::ast::rows_view(rows@), aligns@),
{
    let ghost rv = crate::ast::rows_view(rows@);
    proof {
        crate::ast::lemma_cells_view(headers@);
        lemma_rows_view_at(rows@);
    }
    let mut cols: usize = if aligns.len() > headers.len() {
        aligns.len()
    } else {
        headers.len()
    };
    let ghost base: int = cols as int;
    let mut r: usize = 0;
    while r < rows.len()
        invariant
            r <= rows@.len(),
            rv == crate::ast::rows_view(rows@),
            rv.len() == rows@.len(),
            forall|k: int| 0 <= k < rows@.len() ==> #[trigger] rv[k] == crate::ast::cells_view(rows@[k]@),
            cols as int == max_cols(rv.take(r as int), base),
        decreases rows@.len() - r,
    {
        proof {
            crate::ast::lemma_cells_view(rows@[r as int]@);
            assert(rv.take(r + 1).drop_last() =~= rv.take(r as int));
        }
        if rows[r].len() > cols {
            cols = rows[r].len();
        }
        r += 1;
    }
    assert(rv.take(r as int) =~= rv);
    cols
}

fn block_fits(block: &Block, width: usize) -> (b: bool)
    ensures
        b == fits(block@, width as int),
    decreases block, 1nat,
{
    match block {
        Block::BlockQuote(children) => width >= 2 && blocks_fit(children, width - 2),
        Block::FootnoteDefinition { children, .. } => width >= 2 && blocks_fit(children, width - 2),
        Block::List { ordered, start, items } => {
            proof {
                lemma_items_view_at(items@);
            }
            if *ordered && !(items.len() as u64 <= u64::MAX - *start && *start as u128 + items.len() as u128 >= 1) {
                return false;
            }
            let mw = list_marker_width(items, *ordered, *start);
            items_fit_exec(items, width.saturating_sub(mw))
        },
        Block::Table { headers, rows, aligns } => {
            let cols = table_cols_of(headers, rows, aligns);
            let avail = width.saturating_sub(2);
            if cols == 0 {
                true
            } else {
                proof {
                    assert((cols - 1) <= avail / 3 <==> 3 * (cols - 1) <= avail) by (nonlinear_arith)
                        requires
                            cols >= 1,
                    ;
                }
                cols - 1 <= avail / 3
            }
        },
        _ => true,
    }
}

fn items_fit_exec(items: &Vec<ListItem>, width: usize) -> (b: bool)
    ensures
        b == items_fit(crate::ast::items_view(items@), width as int),
    decreases items, 0nat,
{
    let ghost iv = crate::ast::items_view(items@);
    proof {
        lemma_items_view_at(items@);
    }
    let mut k: usize = 0;
    assert(iv.take(0) =~= Seq::<ItemV>::empty());
    while k < items.len()
        invariant
            k <= items@.len(),
            iv == crate::ast::items_view(items@),
            iv.len() == items@.len(),
            forall|j: int| 0 <= j < items@.len() ==> #[trigger] iv[j] == crate::ast::item_view(items@[j]),
            items_fit(iv.take(k as int), width as int),
        decreases items@.len() - k,
    {
        assert(decreases_to!(items => items@[k as int]));
        let ok = item_fits(&items[k], width);
        proof {
            let t = iv.take(k + 1);
            assert(t.drop_last() =~= iv.take(k as int));
            assert(t.last() == iv[k as int]);
        }
        if !ok {
            proof {
                if items_fit(iv, width as int) {
                    lemma_items_fit(iv, width as int);
                    assert(all_fit(iv[k as int].children, width as int));
                }
            }
            return false;
        }
        k += 1;
    }
    assert(iv.take(k as int) =~= iv);
    true
}

fn item_fits(item: &ListItem, width: usize) -> (b: bool)
    ensures
        b == all_fit(crate::ast::item_view(*item).children, width as int),
    decreases item, 1nat,
{
    blocks_fit(&item.children, width)
}

/// Whether blocks render at `width` (see `fits`).
pub fn blocks_fit(blocks: &Vec<Block>, width: usize) -> (b: bool)
    ensures
        b == all_fit(crate::ast::blocks_view(blocks@), width as int),
    decreases blocks, 0nat,
{
    let ghost bv = crate::ast::blocks_view(blocks@);
    proof {
        crate::ast::lemma_blocks_view(blocks@);
    }
    let mut k: usize = 0;
    assert(bv.take(0) =~= Seq::<BlockV>::empty());
    while k < blocks.len()
        invariant
            k <= blocks@.len(),
            bv == crate::ast::blocks_view(blocks@),
            bv.len() == blocks@.len(),
            forall|j: int| 0 <= j < blocks@.len() ==> #[trigger] bv[j] == crate::ast::block_view(blocks@[j]),
            all_fit(bv.take(k as int), width as int),
        decreases blocks@.len() - k,
    {
        assert(decreases_to!(blocks => blocks@[k as int]));
        let ok = block_fits(&blocks[k], width);
        proof {
            let t = bv.take(k + 1);
            assert(t.drop_last() =~= bv.take(k as int));
            assert(t.last() == bv[k as int]);
        }
        if !ok {
            proof {
                if all_fit(bv, width as int) {
                    lemma_all_fit(bv, width as int);
                    assert(fits(bv[k as int], width as int));
                }
            }
            return false;
        }
        k += 1;
    }
    assert(bv.take(k as int) =~= bv);
    true
}

/// Whether every block of a document renders at `width`.
fn document_fits(doc: &crate::processor::Document, width: usize) -> (b: bool)
    ensures
        b == forall|i: int| 0 <= i < doc.blocks@.len() ==> match ast_of(#[trigger] doc.blocks@[i]) {
            Some(a) => all_fit(a, width as int),
            None => true,
        },
{
    let mut k: usize = 0;
    while k < doc.blocks.len()
        invariant
            k <= doc.blocks@.len(),
            forall|i: int| 0 <= i < k ==> match ast_of(#[trigger] doc.blocks@[i]) {
                Some(a) => all_fit(a, width as int),
                None => true,
            },
        decreases doc.blocks@.len() - k,
    {
        match &doc.blocks[k].ast {
            Some(a) => {
                if !blocks_fit(&a.children, width) {
                    return false;
                }
            },
            None => {},
        }
        k += 1;
    }
    true
}

impl crate::renderer::Renderer for StreamMarkdownRenderer {
    /// Render through the display-adapter interface: as the inherent
    /// `render` when every block fits the width; a document that does not
    /// fit leaves the previous output in place.
    fn render(&mut self, doc: &crate::processor::Document)
        ensures
            (forall|i: int| 0 <= i < doc.blocks@.len() ==> match ast_of(#[trigger] doc.blocks@[i]) {
                Some(a) => all_fit(a, old(self).width_of()),
                None => true,
            }) ==> final(self).lines_of() == document_lines(
                Seq::new(doc.blocks@.len(), |i: int| old(self).block_out(doc.blocks@[i], i)),
            ),
            final(self).width_of() == old(self).width_of(),
    {
        if document_fits(doc, self.width) {
            StreamMarkdownRenderer::render(self, doc);
        }
    }
}

impl Default for StreamMarkdownRenderer {
    /// A renderer for 80 columns.
    fn default() -> (r: Self)
        ensures
            r.consistent(),
            r.width_of() == 80,
            r.lines_of() == Seq::<LineV>::empty(),
    {
        Self::new(80)
    }
}

} // verus!
