//! Markdown block text to syntax tree: pulldown-cmark's event stream, taken as
//! plain values, folded into an [`Ast`] by a verified tree builder.
use vstd::prelude::*;
use pulldown_cmark::{Alignment as CmarkAlignment, CodeBlockKind, Event, Options, Parser, Tag};
use crate::ast::{blocks_view, cells_view, inline_view, inlines_view, items_view, lemma_push_blocks, lemma_push_inlines, lemma_push_items, rows_view, Alignment, Ast, Block, BlockV, Inline, InlineV, ItemV, ListItem};
use crate::text::{chars_of, extend_all, string_of};
use crate::ast::{copy_aligns, copy_string};

verus! {

// ---------------------------------------------------------------------------
// events as plain values
// ---------------------------------------------------------------------------

/// A start tag, as plain values.
pub enum MdTag {
    Paragraph,
    /// Heading level, 1 to 6.
    Heading(u8),
    BlockQuote,
    /// The fence's info string; empty for an indented block.
    CodeBlock(String),
    /// `Some(first number)` for an ordered list.
    List(Option<u64>),
    Item,
    FootnoteDefinition(String),
    Table(Vec<Alignment>),
    TableHead,
    TableRow,
    TableCell,
    Emphasis,
    Strong,
    Strikethrough,
    /// A link with its destination.
    Link(String),
    /// An image with its destination.
    Image(String),
    /// HTML blocks, definition lists and metadata blocks.
    Other,
}

/// A markdown event, as plain values. Start and end events are balanced, so an
/// end closes the latest start that is still open.
pub enum MdEvent {
    Start(MdTag),
    End,
    Text(String),
    Code(String),
    InlineMath(String),
    DisplayMath(String),
    Html(String),
    InlineHtml(String),
    FootnoteReference(String),
    SoftBreak,
    HardBreak,
    Rule,
    TaskListMarker(bool),
}

/// The parser options used for every block: tables, footnotes,
/// strikethrough, task lists and math.
pub const CMARK_OPTIONS: u32 = 0b100_0001_1110;

#[verifier::external_type_specification]
#[verifier::external_body]
pub struct ExEvent<'a>(Event<'a>);

#[verifier::external_type_specification]
#[verifier::external_body]
pub struct ExTag<'a>(Tag<'a>);

#[verifier::external_type_specification]
#[verifier::external_body]
pub struct ExCmarkAlignment(CmarkAlignment);

/// The events, as plain values, that pulldown-cmark yields for a text under
/// the given option bits.
pub uninterp spec fn cmark_events(markdown: Seq<char>, options: u32) -> Seq<MdEvent>;

/// Runs `pulldown_cmark::Parser::new_ext` on `markdown` with the option bits
/// `options` (through `Options::from_bits_truncate`) and converts every event
/// to plain values. The contract claims only that the events depend on the
/// text and the options alone.
#[verifier::external_body]
fn markdown_events(markdown: &str, options: u32) -> (r: Vec<MdEvent>)
    ensures
        r@ == cmark_events(markdown@, options),
{
    Parser::new_ext(markdown, Options::from_bits_truncate(options)).map(event_of).collect()
}

/// Converts a `pulldown_cmark::Event` variant by variant; an end event keeps
/// no payload, text payloads become `String`s (`CowStr::into_string`).
#[verifier::external_body]
fn event_of(e: Event<'_>) -> MdEvent {
    match e {
        Event::Start(t) => MdEvent::Start(tag_of(t)),
        Event::End(_) => MdEvent::End,
        Event::Text(s) => MdEvent::Text(s.into_string()),
        Event::Code(s) => MdEvent::Code(s.into_string()),
        Event::InlineMath(s) => MdEvent::InlineMath(s.into_string()),
        Event::DisplayMath(s) => MdEvent::DisplayMath(s.into_string()),
        Event::Html(s) => MdEvent::Html(s.into_string()),
        Event::InlineHtml(s) => MdEvent::InlineHtml(s.into_string()),
        Event::FootnoteReference(s) => MdEvent::FootnoteReference(s.into_string()),
        Event::SoftBreak => MdEvent::SoftBreak,
        Event::HardBreak => MdEvent::HardBreak,
        Event::Rule => MdEvent::Rule,
        Event::TaskListMarker(b) => MdEvent::TaskListMarker(b),
    }
}

/// Converts the block-level variants of a `pulldown_cmark::Tag`; the other
/// variants go to `span_tag_of`.
#[verifier::external_body]
fn tag_of(t: Tag<'_>) -> MdTag {
    match t {
        Tag::Paragraph => MdTag::Paragraph,
        Tag::Heading { level, .. } => MdTag::Heading(level as u8),
        Tag::BlockQuote(_) => MdTag::BlockQuote,
        Tag::CodeBlock(CodeBlockKind::Fenced(lang)) => MdTag::CodeBlock(lang.into_string()),
        Tag::CodeBlock(CodeBlockKind::Indented) => MdTag::CodeBlock(String::new()),
        Tag::List(start) => MdTag::List(start),
        Tag::Item => MdTag::Item,
        Tag::FootnoteDefinition(label) => MdTag::FootnoteDefinition(label.into_string()),
        Tag::Table(aligns) => MdTag::Table(aligns.into_iter().map(align_of).collect()),
        Tag::TableHead => MdTag::TableHead,
        Tag::TableRow => MdTag::TableRow,
        Tag::TableCell => MdTag::TableCell,
        other => span_tag_of(other),
    }
}

/// Converts the span-level variants of a `pulldown_cmark::Tag` (links and
/// images keep their destination); HTML blocks, definition lists and metadata
/// blocks become `Other`.
#[verifier::external_body]
fn span_tag_of(t: Tag<'_>) -> MdTag {
    match t {
        Tag::Emphasis => MdTag::Emphasis,
        Tag::Strong => MdTag::Strong,
        Tag::Strikethrough => MdTag::Strikethrough,
        Tag::Link { dest_url, .. } => MdTag::Link(dest_url.into_string()),
        Tag::Image { dest_url, .. } => MdTag::Image(dest_url.into_string()),
        _ => MdTag::Other,
    }
}

/// Converts a `pulldown_cmark::Alignment` variant by variant.
#[verifier::external_body]
fn align_of(a: CmarkAlignment) -> Alignment {
    match a {
        CmarkAlignment::None => Alignment::Unspecified,
        CmarkAlignment::Left => Alignment::Left,
        CmarkAlignment::Center => Alignment::Center,
        CmarkAlignment::Right => Alignment::Right,
    }
}

// ---------------------------------------------------------------------------
// the tree builder: specification
// ---------------------------------------------------------------------------

/// What an end event closes, taken from the start it matches.
#[derive(Clone, Copy, PartialEq, Eq, Structural)]
pub enum Kind {
    Paragraph,
    Heading,
    BlockQuote,
    CodeBlock,
    List,
    Item,
    FootnoteDefinition,
    Table,
    TableHead,
    TableRow,
    TableCell,
    Emphasis,
    Strong,
    Strikethrough,
    Link,
    Image,
    Other,
}

pub open spec fn tag_kind(t: MdTag) -> Kind {
    match t {
        MdTag::Paragraph => Kind::Paragraph,
        MdTag::Heading(_) => Kind::Heading,
        MdTag::BlockQuote => Kind::BlockQuote,
        MdTag::CodeBlock(_) => Kind::CodeBlock,
        MdTag::List(_) => Kind::List,
        MdTag::Item => Kind::Item,
        MdTag::FootnoteDefinition(_) => Kind::FootnoteDefinition,
        MdTag::Table(_) => Kind::Table,
        MdTag::TableHead => Kind::TableHead,
        MdTag::TableRow => Kind::TableRow,
        MdTag::TableCell => Kind::TableCell,
        MdTag::Emphasis => Kind::Emphasis,
        MdTag::Strong => Kind::Strong,
        MdTag::Strikethrough => Kind::Strikethrough,
        MdTag::Link(_) => Kind::Link,
        MdTag::Image(_) => Kind::Image,
        MdTag::Other => Kind::Other,
    }
}

/// An open element of the tree under construction (view).
#[allow(inconsistent_fields)]
pub enum FrameV {
    Root(Seq<BlockV>),
    Paragraph(Seq<InlineV>),
    Heading { level: u8, children: Seq<InlineV> },
    BlockQuote(Seq<BlockV>),
    CodeBlock { lang: Seq<char>, text: Seq<char> },
    List { ordered: bool, start: u64, items: Seq<ItemV> },
    Item { checked: Option<bool>, pending: Option<Seq<InlineV>>, children: Seq<BlockV> },
    Table {
        aligns: Seq<Alignment>,
        head: Seq<Seq<InlineV>>,
        body: Seq<Seq<Seq<InlineV>>>,
        in_head: bool,
    },
    Footnote { label: Seq<char>, children: Seq<BlockV> },
    Strong(Seq<InlineV>),
    Emphasis(Seq<InlineV>),
    Strikethrough(Seq<InlineV>),
    Link { text: Seq<InlineV>, url: Seq<char> },
    Image { text: Seq<InlineV>, url: Seq<char> },
    Cell(Seq<InlineV>),
    Row(Seq<Seq<InlineV>>),
}

/// Frames that take inline content.
pub open spec fn is_inline_frame(f: FrameV) -> bool {
    f is Paragraph || f is Heading || f is Strong || f is Emphasis || f is Strikethrough
        || f is Link || f is Cell
}

/// Frames that take block content.
pub open spec fn is_block_frame(f: FrameV) -> bool {
    f is Root || f is BlockQuote || f is Item || f is Footnote
}

/// Index of the topmost inline frame at or below `i`, or -1.
pub open spec fn top_inline(st: Seq<FrameV>, i: int) -> int
    decreases i + 1,
{
    if i < 0 {
        -1
    } else if is_inline_frame(st[i]) {
        i
    } else {
        top_inline(st, i - 1)
    }
}

/// Index of the topmost block frame at or below `i`, or -1.
pub open spec fn top_block(st: Seq<FrameV>, i: int) -> int
    decreases i + 1,
{
    if i < 0 {
        -1
    } else if is_block_frame(st[i]) {
        i
    } else {
        top_block(st, i - 1)
    }
}

/// An inline frame with `x` appended to its content.
pub open spec fn with_inline(f: FrameV, x: InlineV) -> FrameV {
    match f {
        FrameV::Paragraph(c) => FrameV::Paragraph(c.push(x)),
        FrameV::Heading { level, children } => FrameV::Heading { level, children: children.push(x) },
        FrameV::Strong(c) => FrameV::Strong(c.push(x)),
        FrameV::Emphasis(c) => FrameV::Emphasis(c.push(x)),
        FrameV::Strikethrough(c) => FrameV::Strikethrough(c.push(x)),
        FrameV::Link { text, url } => FrameV::Link { text: text.push(x), url },
        FrameV::Cell(c) => FrameV::Cell(c.push(x)),
        _ => f,
    }
}

/// A block frame with `b` appended to its children.
pub open spec fn with_block(f: FrameV, b: BlockV) -> FrameV {
    match f {
        FrameV::Root(c) => FrameV::Root(c.push(b)),
        FrameV::BlockQuote(c) => FrameV::BlockQuote(c.push(b)),
        FrameV::Item { checked, pending, children } => FrameV::Item {
            checked,
            pending,
            children: children.push(b),
        },
        FrameV::Footnote { label, children } => FrameV::Footnote { label, children: children.push(b) },
        _ => f,
    }
}

/// An item frame with `x` appended to its pending paragraph (started if none).
pub open spec fn with_pending(f: FrameV, x: InlineV) -> FrameV {
    match f {
        FrameV::Item { checked, pending, children } => FrameV::Item {
            checked,
            pending: Some(
                match pending {
                    Some(p) => p.push(x),
                    None => seq![x],
                },
            ),
            children,
        },
        _ => f,
    }
}

/// Inline content goes to the topmost inline frame; with none, to the pending
/// paragraph of an item on top, else it opens a paragraph.
pub open spec fn add_inline(st: Seq<FrameV>, x: InlineV) -> Seq<FrameV> {
    let i = top_inline(st, st.len() - 1);
    if i >= 0 {
        st.update(i, with_inline(st[i], x))
    } else if st.len() > 0 && st.last() is Item {
        st.update(st.len() - 1, with_pending(st.last(), x))
    } else {
        st.push(FrameV::Paragraph(seq![x]))
    }
}

/// A block goes to the topmost block frame; with none it is dropped.
pub open spec fn add_block(st: Seq<FrameV>, b: BlockV) -> Seq<FrameV> {
    let i = top_block(st, st.len() - 1);
    if i >= 0 {
        st.update(i, with_block(st[i], b))
    } else {
        st
    }
}

/// Text extends an open code block, else it is inline text.
pub open spec fn on_text(st: Seq<FrameV>, t: Seq<char>) -> Seq<FrameV> {
    if st.len() > 0 && st.last() is CodeBlock {
        match st.last() {
            FrameV::CodeBlock { lang, text } => st.update(
                st.len() - 1,
                FrameV::CodeBlock { lang, text: text + t },
            ),
            _ => st,
        }
    } else {
        add_inline(st, InlineV::Text(t))
    }
}

/// HTML is inline inside an inline frame, else a block.
pub open spec fn on_html(st: Seq<FrameV>, h: Seq<char>) -> Seq<FrameV> {
    if st.len() > 0 && is_inline_frame(st.last()) {
        add_inline(st, InlineV::Html(h))
    } else {
        add_block(st, BlockV::Html(h))
    }
}

/// A task-list marker checks the item on top, if any.
pub open spec fn on_marker(st: Seq<FrameV>, c: bool) -> Seq<FrameV> {
    if st.len() > 0 {
        match st.last() {
            FrameV::Item { pending, children, .. } => st.update(
                st.len() - 1,
                FrameV::Item { checked: Some(c), pending, children },
            ),
            _ => st,
        }
    } else {
        st
    }
}

/// The table on top with its header flag set.
pub open spec fn set_head(st: Seq<FrameV>, h: bool) -> Seq<FrameV> {
    if st.len() > 0 {
        match st.last() {
            FrameV::Table { aligns, head, body, .. } => st.update(
                st.len() - 1,
                FrameV::Table { aligns, head, body, in_head: h },
            ),
            _ => st,
        }
    } else {
        st
    }
}

/// A start tag opens its frame.
pub open spec fn on_start(st: Seq<FrameV>, t: MdTag) -> Seq<FrameV> {
    match t {
        MdTag::Paragraph => st.push(FrameV::Paragraph(Seq::empty())),
        MdTag::Heading(level) => st.push(FrameV::Heading { level, children: Seq::empty() }),
        MdTag::BlockQuote => st.push(FrameV::BlockQuote(Seq::empty())),
        MdTag::CodeBlock(lang) => st.push(FrameV::CodeBlock { lang: lang@, text: Seq::empty() }),
        MdTag::List(n) => st.push(
            FrameV::List {
                ordered: n is Some,
                start: match n {
                    Some(v) => v,
                    None => 1,
                },
                items: Seq::empty(),
            },
        ),
        MdTag::Item => st.push(FrameV::Item { checked: None, pending: None, children: Seq::empty() }),
        MdTag::FootnoteDefinition(label) => st.push(
            FrameV::Footnote { label: label@, children: Seq::empty() },
        ),
        MdTag::Table(aligns) => st.push(
            FrameV::Table {
                aligns: aligns@,
                head: Seq::empty(),
                body: Seq::empty(),
                in_head: false,
            },
        ),
        MdTag::TableHead => set_head(st, true),
        MdTag::TableRow => st.push(FrameV::Row(Seq::empty())),
        MdTag::TableCell => st.push(FrameV::Cell(Seq::empty())),
        MdTag::Emphasis => st.push(FrameV::Emphasis(Seq::empty())),
        MdTag::Strong => st.push(FrameV::Strong(Seq::empty())),
        MdTag::Strikethrough => st.push(FrameV::Strikethrough(Seq::empty())),
        MdTag::Link(url) => st.push(FrameV::Link { text: Seq::empty(), url: url@ }),
        MdTag::Image(url) => st.push(FrameV::Image { text: Seq::empty(), url: url@ }),
        MdTag::Other => st,
    }
}

/// The text of inline content, without markup.
pub open spec fn plain_text_v(s: Seq<InlineV>) -> Seq<char>
    decreases s, 0nat,
{
    if s.len() == 0 {
        Seq::empty()
    } else {
        plain_text_v(s.drop_last()) + plain_one(s.last())
    }
}

/// The text of one inline node, without markup.
pub open spec fn plain_one(i: InlineV) -> Seq<char>
    decreases i, 1nat,
{
    match i {
        InlineV::Text(t) => t,
        InlineV::Code(c) => c,
        InlineV::Strong(c) => plain_text_v(c),
        InlineV::Emphasis(c) => plain_text_v(c),
        InlineV::Strikethrough(c) => plain_text_v(c),
        InlineV::Link { text, .. } => plain_text_v(text),
        InlineV::SoftBreak => seq!['\n'],
        InlineV::HardBreak => seq!['\n'],
        InlineV::Math(m, _) => m,
        InlineV::Html(h) => h,
        InlineV::Image { alt, .. } => alt,
        InlineV::FootnoteRef(l) => l,
    }
}

/// A closed item joins the list on top, its pending paragraph appended.
pub open spec fn close_item(
    st: Seq<FrameV>,
    checked: Option<bool>,
    pending: Option<Seq<InlineV>>,
    children: Seq<BlockV>,
) -> Seq<FrameV> {
    let all = match pending {
        Some(p) => children.push(BlockV::Paragraph(p)),
        None => children,
    };
    if st.len() > 0 {
        match st.last() {
            FrameV::List { ordered, start, items } => st.update(
                st.len() - 1,
                FrameV::List { ordered, start, items: items.push(ItemV { checked, children: all }) },
            ),
            _ => st,
        }
    } else {
        st
    }
}

/// A closed row joins the table on top: its cells extend the header while
/// the header is open, else it is a body row.
pub open spec fn close_row(st: Seq<FrameV>, row: Seq<Seq<InlineV>>) -> Seq<FrameV> {
    if st.len() > 0 {
        match st.last() {
            FrameV::Table { aligns, head, body, in_head } => st.update(
                st.len() - 1,
                if in_head {
                    FrameV::Table { aligns, head: head + row, body, in_head }
                } else {
                    FrameV::Table { aligns, head, body: body.push(row), in_head }
                },
            ),
            _ => st,
        }
    } else {
        st
    }
}

/// A closed cell joins the row on top, or the header of the table on top.
pub open spec fn close_cell(st: Seq<FrameV>, cell: Seq<InlineV>) -> Seq<FrameV> {
    if st.len() > 0 {
        match st.last() {
            FrameV::Row(r) => st.update(st.len() - 1, FrameV::Row(r.push(cell))),
            FrameV::Table { aligns, head, body, in_head } => if in_head {
                st.update(st.len() - 1, FrameV::Table { aligns, head: head.push(cell), body, in_head })
            } else {
                st
            },
            _ => st,
        }
    } else {
        st
    }
}

/// The frame `f`, popped by an end of kind `k`, delivered into `rest`.
pub open spec fn close_frame(rest: Seq<FrameV>, f: FrameV, k: Kind) -> Seq<FrameV> {
    match f {
        FrameV::Paragraph(c) => if k == Kind::Paragraph {
            add_block(rest, BlockV::Paragraph(c))
        } else {
            rest
        },
        FrameV::Heading { level, children } => if k == Kind::Heading {
            add_block(rest, BlockV::Heading { level, children })
        } else {
            rest
        },
        FrameV::BlockQuote(c) => if k == Kind::BlockQuote {
            add_block(rest, BlockV::BlockQuote(c))
        } else {
            rest
        },
        FrameV::CodeBlock { lang, text } => if k == Kind::CodeBlock {
            add_block(rest, BlockV::Code { lang, text })
        } else {
            rest
        },
        FrameV::List { ordered, start, items } => if k == Kind::List {
            add_block(rest, BlockV::List { ordered, start, items })
        } else {
            rest
        },
        FrameV::Item { checked, pending, children } => if k == Kind::Item {
            close_item(rest, checked, pending, children)
        } else {
            rest
        },
        FrameV::Footnote { label, children } => if k == Kind::FootnoteDefinition {
            add_block(rest, BlockV::FootnoteDefinition { label, children })
        } else {
            rest
        },
        FrameV::Table { aligns, head, body, .. } => if k == Kind::Table {
            add_block(rest, BlockV::Table { headers: head, rows: body, aligns })
        } else {
            rest
        },
        FrameV::Row(row) => if k == Kind::TableRow {
            close_row(rest, row)
        } else {
            rest
        },
        FrameV::Cell(c) => if k == Kind::TableCell {
            close_cell(rest, c)
        } else {
            rest
        },
        FrameV::Strong(c) => if k == Kind::Strong {
            add_inline(rest, InlineV::Strong(c))
        } else {
            rest
        },
        FrameV::Emphasis(c) => if k == Kind::Emphasis {
            add_inline(rest, InlineV::Emphasis(c))
        } else {
            rest
        },
        FrameV::Strikethrough(c) => if k == Kind::Strikethrough {
            add_inline(rest, InlineV::Strikethrough(c))
        } else {
            rest
        },
        FrameV::Link { text, url } => if k == Kind::Link {
            add_inline(rest, InlineV::Link { text, url })
        } else {
            rest
        },
        FrameV::Image { text, url } => if k == Kind::Image {
            add_inline(rest, InlineV::Image { alt: plain_text_v(text), url })
        } else {
            rest
        },
        FrameV::Root(_) => rest,
    }
}

/// An end event: a table head only closes the header; anything else pops the
/// top frame and delivers it when it has the kind that ends.
pub open spec fn on_end(st: Seq<FrameV>, k: Kind) -> Seq<FrameV> {
    if k == Kind::TableHead {
        set_head(st, false)
    } else if st.len() == 0 {
        st
    } else {
        close_frame(st.drop_last(), st.last(), k)
    }
}

/// The builder state: open frames and the kinds of the open start tags.
pub open spec fn step(b: (Seq<FrameV>, Seq<Kind>), e: MdEvent) -> (Seq<FrameV>, Seq<Kind>) {
    let st = b.0;
    let open = b.1;
    match e {
        MdEvent::Start(t) => (on_start(st, t), open.push(tag_kind(t))),
        MdEvent::End => if open.len() > 0 {
            (on_end(st, open.last()), open.drop_last())
        } else {
            (on_end(st, Kind::Other), open)
        },
        MdEvent::Text(t) => (on_text(st, t@), open),
        MdEvent::Code(c) => (add_inline(st, InlineV::Code(c@)), open),
        MdEvent::InlineMath(m) => (add_inline(st, InlineV::Math(m@, false)), open),
        MdEvent::DisplayMath(m) => (add_inline(st, InlineV::Math(m@, true)), open),
        MdEvent::Html(h) => (on_html(st, h@), open),
        MdEvent::InlineHtml(h) => (add_inline(st, InlineV::Html(h@)), open),
        MdEvent::FootnoteReference(l) => (add_inline(st, InlineV::FootnoteRef(l@)), open),
        MdEvent::SoftBreak => (add_inline(st, InlineV::SoftBreak), open),
        MdEvent::HardBreak => (add_inline(st, InlineV::HardBreak), open),
        MdEvent::Rule => (add_block(st, BlockV::ThematicBreak), open),
        MdEvent::TaskListMarker(c) => (on_marker(st, c), open),
    }
}

/// The builder state after `events`, from a lone empty root.
pub open spec fn run(events: Seq<MdEvent>) -> (Seq<FrameV>, Seq<Kind>)
    decreases events.len(),
{
    if events.len() == 0 {
        (seq![FrameV::Root(Seq::empty())], Seq::empty())
    } else {
        step(run(events.drop_last()), events.last())
    }
}

/// The children of the topmost root frame, or nothing.
pub open spec fn finish(st: Seq<FrameV>) -> Seq<BlockV>
    decreases st.len(),
{
    if st.len() == 0 {
        Seq::empty()
    } else {
        match st.last() {
            FrameV::Root(c) => c,
            _ => finish(st.drop_last()),
        }
    }
}

/// The tree an event stream builds.
pub open spec fn build_spec(events: Seq<MdEvent>) -> Seq<BlockV> {
    finish(run(events).0)
}

// ---------------------------------------------------------------------------
// the tree builder: frames
// ---------------------------------------------------------------------------

/// An open element of the tree under construction.
#[allow(inconsistent_fields)]
enum Frame {
    Root(Vec<Block>),
    Paragraph(Vec<Inline>),
    Heading { level: u8, children: Vec<Inline> },
    BlockQuote(Vec<Block>),
    CodeBlock { lang: String, text: Vec<char> },
    List { ordered: bool, start: u64, items: Vec<ListItem> },
    Item { checked: Option<bool>, pending: Option<Vec<Inline>>, children: Vec<Block> },
    Table {
        aligns: Vec<Alignment>,
        head: Vec<Vec<Inline>>,
        body: Vec<Vec<Vec<Inline>>>,
        in_head: bool,
    },
    Footnote { label: String, children: Vec<Block> },
    Strong(Vec<Inline>),
    Emphasis(Vec<Inline>),
    Strikethrough(Vec<Inline>),
    Link { text: Vec<Inline>, url: String },
    Image { text: Vec<Inline>, url: String },
    Cell(Vec<Inline>),
    Row(Vec<Vec<Inline>>),
}

spec fn frame_view(f: Frame) -> FrameV {
    match f {
        Frame::Root(c) => FrameV::Root(blocks_view(c@)),
        Frame::Paragraph(c) => FrameV::Paragraph(inlines_view(c@)),
        Frame::Heading { level, children } => FrameV::Heading {
            level,
            children: inlines_view(children@),
        },
        Frame::BlockQuote(c) => FrameV::BlockQuote(blocks_view(c@)),
        Frame::CodeBlock { lang, text } => FrameV::CodeBlock { lang: lang@, text: text@ },
        Frame::List { ordered, start, items } => FrameV::List {
            ordered,
            start,
            items: items_view(items@),
        },
        Frame::Item { checked, pending, children } => FrameV::Item {
            checked,
            pending: match pending {
                Some(p) => Some(inlines_view(p@)),
                None => None,
            },
            children: blocks_view(children@),
        },
        Frame::Table { aligns, head, body, in_head } => FrameV::Table {
            aligns: aligns@,
            head: cells_view(head@),
            body: rows_view(body@),
            in_head,
        },
        Frame::Footnote { label, children } => FrameV::Footnote {
            label: label@,
            children: blocks_view(children@),
        },
        Frame::Strong(c) => FrameV::Strong(inlines_view(c@)),
        Frame::Emphasis(c) => FrameV::Emphasis(inlines_view(c@)),
        Frame::Strikethrough(c) => FrameV::Strikethrough(inlines_view(c@)),
        Frame::Link { text, url } => FrameV::Link { text: inlines_view(text@), url: url@ },
        Frame::Image { text, url } => FrameV::Image { text: inlines_view(text@), url: url@ },
        Frame::Cell(c) => FrameV::Cell(inlines_view(c@)),
        Frame::Row(r) => FrameV::Row(cells_view(r@)),
    }
}

spec fn frames_view(s: Seq<Frame>) -> Seq<FrameV> {
    s.map_values(|f: Frame| frame_view(f))
}

proof fn lemma_frames_update(s: Seq<Frame>, i: int, f: Frame)
    requires
        0 <= i < s.len(),
    ensures
        frames_view(s.update(i, f)) == frames_view(s).update(i, frame_view(f)),
{
    assert(frames_view(s.update(i, f)) =~= frames_view(s).update(i, frame_view(f)));
}

proof fn lemma_frames_push(s: Seq<Frame>, f: Frame)
    ensures
        frames_view(s.push(f)) == frames_view(s).push(frame_view(f)),
{
    assert(frames_view(s.push(f)) =~= frames_view(s).push(frame_view(f)));
}

proof fn lemma_frames_drop_last(s: Seq<Frame>)
    requires
        s.len() > 0,
    ensures
        frames_view(s.drop_last()) == frames_view(s).drop_last(),
        frames_view(s).last() == frame_view(s.last()),
{
    assert(frames_view(s.drop_last()) =~= frames_view(s).drop_last());
}

fn is_inline_frame_exec(f: &Frame) -> (b: bool)
    ensures
        b == is_inline_frame(frame_view(*f)),
{
    match f {
        Frame::Paragraph(_) | Frame::Heading { .. } | Frame::Strong(_) | Frame::Emphasis(_)
        | Frame::Strikethrough(_) | Frame::Link { .. } | Frame::Cell(_) => true,
        _ => false,
    }
}

fn is_block_frame_exec(f: &Frame) -> (b: bool)
    ensures
        b == is_block_frame(frame_view(*f)),
{
    match f {
        Frame::Root(_) | Frame::BlockQuote(_) | Frame::Item { .. } | Frame::Footnote { .. } => true,
        _ => false,
    }
}

fn push_inline_vec(v: Vec<Inline>, x: Inline) -> (r: Vec<Inline>)
    ensures
        inlines_view(r@) == inlines_view(v@).push(x@),
{
    let mut v = v;
    proof {
        lemma_push_inlines(v@, x);
    }
    v.push(x);
    v
}

fn push_block_vec(v: Vec<Block>, x: Block) -> (r: Vec<Block>)
    ensures
        blocks_view(r@) == blocks_view(v@).push(x@),
{
    let mut v = v;
    proof {
        lemma_push_blocks(v@, x);
    }
    v.push(x);
    v
}

fn frame_with_inline(f: Frame, x: Inline) -> (r: Frame)
    ensures
        frame_view(r) == with_inline(frame_view(f), x@),
{
    match f {
        Frame::Paragraph(c) => Frame::Paragraph(push_inline_vec(c, x)),
        Frame::Heading { level, children } => Frame::Heading {
            level,
            children: push_inline_vec(children, x),
        },
        Frame::Strong(c) => Frame::Strong(push_inline_vec(c, x)),
        Frame::Emphasis(c) => Frame::Emphasis(push_inline_vec(c, x)),
        Frame::Strikethrough(c) => Frame::Strikethrough(push_inline_vec(c, x)),
        Frame::Link { text, url } => Frame::Link { text: push_inline_vec(text, x), url },
        Frame::Cell(c) => Frame::Cell(push_inline_vec(c, x)),
        other => other,
    }
}

fn frame_with_block(f: Frame, b: Block) -> (r: Frame)
    ensures
        frame_view(r) == with_block(frame_view(f), b@),
{
    match f {
        Frame::Root(c) => Frame::Root(push_block_vec(c, b)),
        Frame::BlockQuote(c) => Frame::BlockQuote(push_block_vec(c, b)),
        Frame::Item { checked, pending, children } => Frame::Item {
            checked,
            pending,
            children: push_block_vec(children, b),
        },
        Frame::Footnote { label, children } => Frame::Footnote {
            label,
            children: push_block_vec(children, b),
        },
        other => other,
    }
}

fn frame_with_pending(f: Frame, x: Inline) -> (r: Frame)
    ensures
        frame_view(r) == with_pending(frame_view(f), x@),
{
    match f {
        Frame::Item { checked, pending, children } => {
            let p = match pending {
                Some(p) => push_inline_vec(p, x),
                None => {
                    let e: Vec<Inline> = Vec::new();
                    assert(inlines_view(e@) =~= Seq::<InlineV>::empty());
                    push_inline_vec(e, x)
                },
            };
            Frame::Item { checked, pending: Some(p), children }
        },
        other => other,
    }
}

/// Index of the topmost inline frame, if any.
fn top_inline_exec(stack: &Vec<Frame>) -> (r: Option<usize>)
    ensures
        match r {
            Some(i) => i < stack@.len() && top_inline(frames_view(stack@), stack@.len() - 1) == i,
            None => top_inline(frames_view(stack@), stack@.len() - 1) == -1,
        },
{
    let ghost sv = frames_view(stack@);
    let mut j = stack.len();
    while j > 0
        invariant
            j <= stack@.len(),
            sv == frames_view(stack@),
            top_inline(sv, stack@.len() - 1) == top_inline(sv, j - 1),
        decreases j,
    {
        if is_inline_frame_exec(&stack[j - 1]) {
            return Some(j - 1);
        }
        j -= 1;
    }
    None
}

/// Index of the topmost block frame, if any.
fn top_block_exec(stack: &Vec<Frame>) -> (r: Option<usize>)
    ensures
        match r {
            Some(i) => i < stack@.len() && top_block(frames_view(stack@), stack@.len() - 1) == i,
            None => top_block(frames_view(stack@), stack@.len() - 1) == -1,
        },
{
    let ghost sv = frames_view(stack@);
    let mut j = stack.len();
    while j > 0
        invariant
            j <= stack@.len(),
            sv == frames_view(stack@),
            top_block(sv, stack@.len() - 1) == top_block(sv, j - 1),
        decreases j,
    {
        if is_block_frame_exec(&stack[j - 1]) {
            return Some(j - 1);
        }
        j -= 1;
    }
    None
}

fn add_inline_exec(stack: &mut Vec<Frame>, x: Inline)
    ensures
        frames_view(final(stack)@) == add_inline(frames_view(old(stack)@), x@),
{
    match top_inline_exec(stack) {
        Some(i) => {
            let ghost s0 = stack@;
            let f = stack.remove(i);
            let f2 = frame_with_inline(f, x);
            stack.insert(i, f2);
            proof {
                assert(stack@ =~= s0.update(i as int, f2));
                lemma_frames_update(s0, i as int, f2);
            }
        },
        None => {
            let n = stack.len();
            let on_item = n > 0 && match &stack[n - 1] {
                Frame::Item { .. } => true,
                _ => false,
            };
            if on_item {
                let ghost s0 = stack@;
                let f = stack.pop().unwrap();
                let f2 = frame_with_pending(f, x);
                stack.push(f2);
                proof {
                    assert(stack@ =~= s0.update(n - 1, f2));
                    lemma_frames_update(s0, n - 1, f2);
                    lemma_frames_drop_last(s0);
                }
            } else {
                let ghost s0 = stack@;
                let c = push_inline_vec(Vec::new(), x);
                proof {
                    assert(inlines_view(Seq::<Inline>::empty()) =~= Seq::<InlineV>::empty());
                }
                stack.push(Frame::Paragraph(c));
                proof {
                    lemma_frames_push(s0, Frame::Paragraph(c));
                    if n > 0 {
                        lemma_frames_drop_last(s0);
                    }
                }
            }
        },
    }
}

fn add_block_exec(stack: &mut Vec<Frame>, b: Block)
    ensures
        frames_view(final(stack)@) == add_block(frames_view(old(stack)@), b@),
{
    match top_block_exec(stack) {
        Some(i) => {
            let ghost s0 = stack@;
            let f = stack.remove(i);
            let f2 = frame_with_block(f, b);
            stack.insert(i, f2);
            proof {
                assert(stack@ =~= s0.update(i as int, f2));
                lemma_frames_update(s0, i as int, f2);
            }
        },
        None => {},
    }
}

fn on_text_exec(stack: &mut Vec<Frame>, t: &String)
    ensures
        frames_view(final(stack)@) == on_text(frames_view(old(stack)@), t@),
{
    let n = stack.len();
    let in_code = n > 0 && match &stack[n - 1] {
        Frame::CodeBlock { .. } => true,
        _ => false,
    };
    let ghost s0 = stack@;
    if in_code {
        proof {
            lemma_frames_drop_last(s0);
        }
        let f = stack.pop().unwrap();
        let f2 = match f {
            Frame::CodeBlock { lang, text } => {
                let mut text = text;
                let tc = chars_of(t.as_str());
                extend_all(&mut text, &tc);
                Frame::CodeBlock { lang, text }
            },
            other => other,
        };
        stack.push(f2);
        proof {
            assert(stack@ =~= s0.update(n - 1, f2));
            lemma_frames_update(s0, n - 1, f2);
        }
    } else {
        proof {
            if n > 0 {
                lemma_frames_drop_last(s0);
            }
        }
        add_inline_exec(stack, Inline::Text(copy_string(t)));
    }
}

fn on_html_exec(stack: &mut Vec<Frame>, h: &String)
    ensures
        frames_view(final(stack)@) == on_html(frames_view(old(stack)@), h@),
{
    let n = stack.len();
    proof {
        if n > 0 {
            lemma_frames_drop_last(stack@);
        }
    }
    if n > 0 && is_inline_frame_exec(&stack[n - 1]) {
        add_inline_exec(stack, Inline::Html(copy_string(h)));
    } else {
        add_block_exec(stack, Block::Html(copy_string(h)));
    }
}

fn on_marker_exec(stack: &mut Vec<Frame>, c: bool)
    ensures
        frames_view(final(stack)@) == on_marker(frames_view(old(stack)@), c),
{
    let n = stack.len();
    if n == 0 {
        return;
    }
    let ghost s0 = stack@;
    proof {
        lemma_frames_drop_last(s0);
    }
    let f = stack.pop().unwrap();
    let f2 = match f {
        Frame::Item { checked, pending, children } => Frame::Item { checked: Some(c), pending, children },
        other => other,
    };
    stack.push(f2);
    proof {
        assert(stack@ =~= s0.update(n - 1, f2));
        lemma_frames_update(s0, n - 1, f2);
    }
}

fn set_head_exec(stack: &mut Vec<Frame>, h: bool)
    ensures
        frames_view(final(stack)@) == set_head(frames_view(old(stack)@), h),
{
    let n = stack.len();
    if n == 0 {
        return;
    }
    let ghost s0 = stack@;
    proof {
        lemma_frames_drop_last(s0);
    }
    let f = stack.pop().unwrap();
    let f2 = match f {
        Frame::Table { aligns, head, body, in_head } => Frame::Table { aligns, head, body, in_head: h },
        other => other,
    };
    stack.push(f2);
    proof {
        assert(stack@ =~= s0.update(n - 1, f2));
        lemma_frames_update(s0, n - 1, f2);
    }
}

fn push_frame(stack: &mut Vec<Frame>, f: Frame)
    ensures
        frames_view(final(stack)@) == frames_view(old(stack)@).push(frame_view(f)),
{
    proof {
        lemma_frames_push(stack@, f);
    }
    stack.push(f);
}

fn empty_inlines() -> (r: Vec<Inline>)
    ensures
        inlines_view(r@) == Seq::<InlineV>::empty(),
        r@.len() == 0,
{
    let r: Vec<Inline> = Vec::new();
    assert(inlines_view(r@) =~= Seq::<InlineV>::empty());
    r
}

fn empty_blocks() -> (r: Vec<Block>)
    ensures
        blocks_view(r@) == Seq::<BlockV>::empty(),
{
    let r: Vec<Block> = Vec::new();
    assert(blocks_view(r@) =~= Seq::<BlockV>::empty());
    r
}

fn on_start_exec(stack: &mut Vec<Frame>, t: &MdTag)
    ensures
        frames_view(final(stack)@) == on_start(frames_view(old(stack)@), *t),
{
    match t {
        MdTag::Paragraph => push_frame(stack, Frame::Paragraph(empty_inlines())),
        MdTag::Heading(level) => push_frame(
            stack,
            Frame::Heading { level: *level, children: empty_inlines() },
        ),
        MdTag::BlockQuote => push_frame(stack, Frame::BlockQuote(empty_blocks())),
        MdTag::CodeBlock(lang) => push_frame(
            stack,
            Frame::CodeBlock { lang: copy_string(lang), text: Vec::new() },
        ),
        MdTag::List(n) => {
            let (ordered, start) = match n {
                Some(v) => (true, *v),
                None => (false, 1u64),
            };
            let items: Vec<ListItem> = Vec::new();
            assert(items_view(items@) =~= Seq::<ItemV>::empty());
            push_frame(stack, Frame::List { ordered, start, items });
        },
        MdTag::Item => push_frame(
            stack,
            Frame::Item { checked: None, pending: None, children: empty_blocks() },
        ),
        MdTag::FootnoteDefinition(label) => push_frame(
            stack,
            Frame::Footnote { label: copy_string(label), children: empty_blocks() },
        ),
        MdTag::Table(aligns) => {
            let head: Vec<Vec<Inline>> = Vec::new();
            let body: Vec<Vec<Vec<Inline>>> = Vec::new();
            assert(cells_view(head@) =~= Seq::<Seq<InlineV>>::empty());
            assert(rows_view(body@) =~= Seq::<Seq<Seq<InlineV>>>::empty());
            push_frame(
                stack,
                Frame::Table { aligns: copy_aligns(aligns), head, body, in_head: false },
            );
        },
        MdTag::TableHead => set_head_exec(stack, true),
        MdTag::TableRow => {
            let r: Vec<Vec<Inline>> = Vec::new();
            assert(cells_view(r@) =~= Seq::<Seq<InlineV>>::empty());
            push_frame(stack, Frame::Row(r));
        },
        MdTag::TableCell => push_frame(stack, Frame::Cell(empty_inlines())),
        MdTag::Emphasis => push_frame(stack, Frame::Emphasis(empty_inlines())),
        MdTag::Strong => push_frame(stack, Frame::Strong(empty_inlines())),
        MdTag::Strikethrough => push_frame(stack, Frame::Strikethrough(empty_inlines())),
        MdTag::Link(url) => push_frame(
            stack,
            Frame::Link { text: empty_inlines(), url: copy_string(url) },
        ),
        MdTag::Image(url) => push_frame(
            stack,
            Frame::Image { text: empty_inlines(), url: copy_string(url) },
        ),
        MdTag::Other => {},
    }
}

fn plain_into(v: &Vec<Inline>, out: &mut Vec<char>)
    ensures
        final(out)@ == old(out)@ + plain_text_v(inlines_view(v@)),
    decreases v, 0nat,
{
    let ghost start = out@;
    let mut k: usize = 0;
    assert(inlines_view(v@.take(0)) =~= Seq::<InlineV>::empty());
    assert(out@ =~= start + plain_text_v(inlines_view(v@.take(0))));
    while k < v.len()
        invariant
            k <= v.len(),
            out@ == start + plain_text_v(inlines_view(v@.take(k as int))),
        decreases v.len() - k,
    {
        assert(decreases_to!(v => v@[k as int]));
        let ghost before = out@;
        plain_one_into(&v[k], out);
        proof {
            lemma_push_inlines(v@.take(k as int), v@[k as int]);
            assert(v@.take(k + 1) == v@.take(k as int).push(v@[k as int]));
            let sv = inlines_view(v@.take(k as int));
            assert(sv.push(inline_view(v@[k as int])).drop_last() == sv);
            assert(out@ =~= start + plain_text_v(inlines_view(v@.take(k + 1))));
        }
        k += 1;
    }
    assert(v@.take(v.len() as int) == v@);
}

fn plain_one_into(i: &Inline, out: &mut Vec<char>)
    ensures
        final(out)@ == old(out)@ + plain_one(i@),
    decreases i, 1nat,
{
    match i {
        Inline::Text(t) => {
            let c = chars_of(t.as_str());
            extend_all(out, &c);
        },
        Inline::Code(t) => {
            let c = chars_of(t.as_str());
            extend_all(out, &c);
        },
        Inline::Strong(c) => plain_into(c, out),
        Inline::Emphasis(c) => plain_into(c, out),
        Inline::Strikethrough(c) => plain_into(c, out),
        Inline::Link { text, .. } => plain_into(text, out),
        Inline::SoftBreak => {
            out.push('\n');
            assert(out@ =~= old(out)@ + seq!['\n']);
        },
        Inline::HardBreak => {
            out.push('\n');
            assert(out@ =~= old(out)@ + seq!['\n']);
        },
        Inline::Math(t, _) => {
            let c = chars_of(t.as_str());
            extend_all(out, &c);
        },
        Inline::Html(t) => {
            let c = chars_of(t.as_str());
            extend_all(out, &c);
        },
        Inline::Image { alt, .. } => {
            let c = chars_of(alt.as_str());
            extend_all(out, &c);
        },
        Inline::FootnoteRef(t) => {
            let c = chars_of(t.as_str());
            extend_all(out, &c);
        },
    }
}

fn close_item_exec(
    stack: &mut Vec<Frame>,
    checked: Option<bool>,
    pending: Option<Vec<Inline>>,
    children: Vec<Block>,
)
    ensures
        frames_view(final(stack)@) == close_item(
            frames_view(old(stack)@),
            checked,
            match pending {
                Some(p) => Some(inlines_view(p@)),
                None => None,
            },
            blocks_view(children@),
        ),
{
    let all = match pending {
        Some(p) => push_block_vec(children, Block::Paragraph(p)),
        None => children,
    };
    let n = stack.len();
    if n == 0 {
        return;
    }
    let ghost s0 = stack@;
    proof {
        lemma_frames_drop_last(s0);
    }
    let f = stack.pop().unwrap();
    let f2 = match f {
        Frame::List { ordered, start, items } => {
            let item = ListItem { checked, children: all };
            let mut items = items;
            proof {
                lemma_push_items(items@, item);
            }
            items.push(item);
            Frame::List { ordered, start, items }
        },
        other => other,
    };
    stack.push(f2);
    proof {
        assert(stack@ =~= s0.update(n - 1, f2));
        lemma_frames_update(s0, n - 1, f2);
    }
}

proof fn lemma_cells_concat(a: Seq<Vec<Inline>>, b: Seq<Vec<Inline>>)
    ensures
        cells_view(a + b) == cells_view(a) + cells_view(b),
{
    crate::ast::lemma_cells_view(a);
    crate::ast::lemma_cells_view(b);
    crate::ast::lemma_cells_view(a + b);
    assert(cells_view(a + b) =~= cells_view(a) + cells_view(b));
}

fn close_row_exec(stack: &mut Vec<Frame>, row: Vec<Vec<Inline>>)
    ensures
        frames_view(final(stack)@) == close_row(frames_view(old(stack)@), cells_view(row@)),
{
    let n = stack.len();
    if n == 0 {
        return;
    }
    let ghost s0 = stack@;
    proof {
        lemma_frames_drop_last(s0);
    }
    let f = stack.pop().unwrap();
    let f2 = match f {
        Frame::Table { aligns, head, body, in_head } => {
            if in_head {
                let mut head = head;
                let mut row = row;
                let ghost h0 = head@;
                let ghost r0 = row@;
                head.append(&mut row);
                proof {
                    lemma_cells_concat(h0, r0);
                }
                Frame::Table { aligns, head, body, in_head }
            } else {
                let mut body = body;
                let ghost b0 = body@;
                let ghost r0 = row@;
                body.push(row);
                proof {
                    assert(body@.drop_last() == b0);
                }
                Frame::Table { aligns, head, body, in_head }
            }
        },
        other => other,
    };
    stack.push(f2);
    proof {
        assert(stack@ =~= s0.update(n - 1, f2));
        lemma_frames_update(s0, n - 1, f2);
    }
}

fn close_cell_exec(stack: &mut Vec<Frame>, cell: Vec<Inline>)
    ensures
        frames_view(final(stack)@) == close_cell(frames_view(old(stack)@), inlines_view(cell@)),
{
    let n = stack.len();
    if n == 0 {
        return;
    }
    let ghost s0 = stack@;
    proof {
        lemma_frames_drop_last(s0);
    }
    let f = stack.pop().unwrap();
    let f2 = match f {
        Frame::Row(r) => {
            let mut r = r;
            let ghost r0 = r@;
            r.push(cell);
            proof {
                assert(r@.drop_last() == r0);
            }
            Frame::Row(r)
        },
        Frame::Table { aligns, head, body, in_head } => {
            if in_head {
                let mut head = head;
                let ghost h0 = head@;
                head.push(cell);
                proof {
                    assert(head@.drop_last() == h0);
                }
                Frame::Table { aligns, head, body, in_head }
            } else {
                Frame::Table { aligns, head, body, in_head }
            }
        },
        other => other,
    };
    stack.push(f2);
    proof {
        assert(stack@ =~= s0.update(n - 1, f2));
        lemma_frames_update(s0, n - 1, f2);
    }
}

fn close_frame_exec(stack: &mut Vec<Frame>, f: Frame, k: Kind)
    ensures
        frames_view(final(stack)@) == close_frame(frames_view(old(stack)@), frame_view(f), k),
{
    match f {
        Frame::Paragraph(c) => if k == Kind::Paragraph {
            add_block_exec(stack, Block::Paragraph(c));
        },
        Frame::Heading { level, children } => if k == Kind::Heading {
            add_block_exec(stack, Block::Heading { level, children });
        },
        Frame::BlockQuote(c) => if k == Kind::BlockQuote {
            add_block_exec(stack, Block::BlockQuote(c));
        },
        Frame::CodeBlock { lang, text } => if k == Kind::CodeBlock {
            let text = string_of(&text);
            add_block_exec(stack, Block::Code { lang, text });
        },
        Frame::List { ordered, start, items } => if k == Kind::List {
            add_block_exec(stack, Block::List { ordered, start, items });
        },
        Frame::Item { checked, pending, children } => if k == Kind::Item {
            close_item_exec(stack, checked, pending, children);
        },
        Frame::Footnote { label, children } => if k == Kind::FootnoteDefinition {
            add_block_exec(stack, Block::FootnoteDefinition { label, children });
        },
        Frame::Table { aligns, head, body, .. } => if k == Kind::Table {
            add_block_exec(stack, Block::Table { headers: head, rows: body, aligns });
        },
        Frame::Row(row) => if k == Kind::TableRow {
            close_row_exec(stack, row);
        },
        Frame::Cell(c) => if k == Kind::TableCell {
            close_cell_exec(stack, c);
        },
        Frame::Strong(c) => if k == Kind::Strong {
            add_inline_exec(stack, Inline::Strong(c));
        },
        Frame::Emphasis(c) => if k == Kind::Emphasis {
            add_inline_exec(stack, Inline::Emphasis(c));
        },
        Frame::Strikethrough(c) => if k == Kind::Strikethrough {
            add_inline_exec(stack, Inline::Strikethrough(c));
        },
        Frame::Link { text, url } => if k == Kind::Link {
            add_inline_exec(stack, Inline::Link { text, url });
        },
        Frame::Image { text, url } => if k == Kind::Image {
            let mut alt_chars: Vec<char> = Vec::new();
            plain_into(&text, &mut alt_chars);
            assert(alt_chars@ =~= plain_text_v(inlines_view(text@)));
            let alt = string_of(&alt_chars);
            add_inline_exec(stack, Inline::Image { alt, url });
        },
        Frame::Root(_) => {},
    }
}

fn on_end_exec(stack: &mut Vec<Frame>, k: Kind)
    ensures
        frames_view(final(stack)@) == on_end(frames_view(old(stack)@), k),
{
    if k == Kind::TableHead {
        set_head_exec(stack, false);
    } else if stack.len() > 0 {
        proof {
            lemma_frames_drop_last(stack@);
        }
        let f = stack.pop().unwrap();
        close_frame_exec(stack, f, k);
    }
}

fn kind_of(t: &MdTag) -> (k: Kind)
    ensures
        k == tag_kind(*t),
{
    match t {
        MdTag::Paragraph => Kind::Paragraph,
        MdTag::Heading(_) => Kind::Heading,
        MdTag::BlockQuote => Kind::BlockQuote,
        MdTag::CodeBlock(_) => Kind::CodeBlock,
        MdTag::List(_) => Kind::List,
        MdTag::Item => Kind::Item,
        MdTag::FootnoteDefinition(_) => Kind::FootnoteDefinition,
        MdTag::Table(_) => Kind::Table,
        MdTag::TableHead => Kind::TableHead,
        MdTag::TableRow => Kind::TableRow,
        MdTag::TableCell => Kind::TableCell,
        MdTag::Emphasis => Kind::Emphasis,
        MdTag::Strong => Kind::Strong,
        MdTag::Strikethrough => Kind::Strikethrough,
        MdTag::Link(_) => Kind::Link,
        MdTag::Image(_) => Kind::Image,
        MdTag::Other => Kind::Other,
    }
}

fn push_event(stack: &mut Vec<Frame>, open: &mut Vec<Kind>, e: &MdEvent)
    ensures
        (frames_view(final(stack)@), final(open)@) == step(
            (frames_view(old(stack)@), old(open)@),
            *e,
        ),
{
    match e {
        MdEvent::Start(t) => {
            on_start_exec(stack, t);
            open.push(kind_of(t));
        },
        MdEvent::End => {
            match open.pop() {
                Some(k) => on_end_exec(stack, k),
                None => on_end_exec(stack, Kind::Other),
            }
        },
        MdEvent::Text(t) => on_text_exec(stack, t),
        MdEvent::Code(c) => add_inline_exec(stack, Inline::Code(copy_string(c))),
        MdEvent::InlineMath(m) => add_inline_exec(stack, Inline::Math(copy_string(m), false)),
        MdEvent::DisplayMath(m) => add_inline_exec(stack, Inline::Math(copy_string(m), true)),
        MdEvent::Html(h) => on_html_exec(stack, h),
        MdEvent::InlineHtml(h) => add_inline_exec(stack, Inline::Html(copy_string(h))),
        MdEvent::FootnoteReference(l) => add_inline_exec(
            stack,
            Inline::FootnoteRef(copy_string(l)),
        ),
        MdEvent::SoftBreak => add_inline_exec(stack, Inline::SoftBreak),
        MdEvent::HardBreak => add_inline_exec(stack, Inline::HardBreak),
        MdEvent::Rule => add_block_exec(stack, Block::ThematicBreak),
        MdEvent::TaskListMarker(c) => on_marker_exec(stack, *c),
    }
}

fn finish_exec(frames: Vec<Frame>) -> (r: Ast)
    ensures
        r@ == finish(frames_view(frames@)),
{
    let mut stack = frames;
    let ghost target = finish(frames_view(frames@));
    while stack.len() > 0
        invariant
            finish(frames_view(stack@)) == target,
            target == finish(frames_view(frames@)),
        decreases stack.len(),
    {
        let ghost sb = stack@;
        proof {
            lemma_frames_drop_last(sb);
        }
        let f = stack.pop().unwrap();
        assert(frames_view(sb).last() == frame_view(f));
        match f {
            Frame::Root(children) => {
                assert(frames_view(sb).len() == sb.len());
                assert(finish(frames_view(sb)) == blocks_view(children@));
                let r = Ast { children };
                assert(r@ == target);
                return r;
            },
            _ => {},
        }
    }
    assert(target == Seq::<BlockV>::empty());
    let r = Ast { children: Vec::new() };
    assert(r@ =~= Seq::<BlockV>::empty());
    r
}

/// Folds an event stream into a syntax tree: start tags open frames, inline
/// content joins the topmost inline frame, closed blocks join the topmost
/// block frame, and the root's children are the result.
pub fn build_ast(events: &[MdEvent]) -> (r: Ast)
    ensures
        r@ == build_spec(events@),
{
    let mut stack: Vec<Frame> = Vec::new();
    let root = Frame::Root(empty_blocks());
    stack.push(root);
    let mut open: Vec<Kind> = Vec::new();
    assert(frames_view(stack@) =~= seq![FrameV::Root(Seq::empty())]);
    assert(events@.take(0) =~= Seq::<MdEvent>::empty());
    let mut k: usize = 0;
    while k < events.len()
        invariant
            k <= events.len(),
            (frames_view(stack@), open@) == run(events@.take(k as int)),
        decreases events.len() - k,
    {
        push_event(&mut stack, &mut open, &events[k]);
        assert(events@.take(k + 1).drop_last() == events@.take(k as int));
        k += 1;
    }
    assert(events@.take(events.len() as int) == events@);
    finish_exec(stack)
}

/// Parses one markdown block into its syntax tree.
pub fn parse_block(markdown: &str) -> (r: Ast)
    ensures
        r@ == build_spec(cmark_events(markdown@, CMARK_OPTIONS)),
{
    let events = markdown_events(markdown, CMARK_OPTIONS);
    build_ast(events.as_slice())
}

} // verus!
