//! The syntax tree handed to display adapters, with its mathematical view.
//! Each node type has a view over `Seq<char>` and sequences, and a deep copy
//! that keeps the view.
use vstd::prelude::*;

verus! {

/// Inline content of a paragraph, heading, cell or link.
#[derive(Debug, PartialEq)]
#[allow(inconsistent_fields)]
pub enum Inline {
    Text(String),
    SoftBreak,
    HardBreak,
    Code(String),
    Strong(Vec<Inline>),
    Emphasis(Vec<Inline>),
    Strikethrough(Vec<Inline>),
    Link { text: Vec<Inline>, url: String },
    Image { alt: String, url: String },
    /// Math content; `display == true` for block math.
    Math(String, bool),
    Html(String),
    FootnoteRef(String),
}

/// One item of a list.
#[derive(Debug, PartialEq)]
pub struct ListItem {
    /// `Some(checked)` for task-list items.
    pub checked: Option<bool>,
    pub children: Vec<Block>,
}

/// Column alignment of a table.
#[derive(Debug, Clone, Copy, PartialEq, Eq, Structural)]
pub enum Alignment {
    /// No alignment given for the column.
    Unspecified,
    Left,
    Center,
    Right,
}

/// A block-level node.
#[derive(Debug, PartialEq)]
#[allow(inconsistent_fields)]
pub enum Block {
    Paragraph(Vec<Inline>),
    Heading { level: u8, children: Vec<Inline> },
    Code { lang: String, text: String },
    BlockQuote(Vec<Block>),
    List { ordered: bool, start: u64, items: Vec<ListItem> },
    Table { headers: Vec<Vec<Inline>>, rows: Vec<Vec<Vec<Inline>>>, aligns: Vec<Alignment> },
    ThematicBreak,
    Html(String),
    FootnoteDefinition { label: String, children: Vec<Block> },
}

/// One parsed block: the syntax tree of a single markdown block string.
#[derive(Debug, PartialEq)]
pub struct Ast {
    pub children: Vec<Block>,
}

// ---------------------------------------------------------------------------
// views
// ---------------------------------------------------------------------------

/// The view of an [`Inline`].
#[allow(inconsistent_fields)]
pub enum InlineV {
    Text(Seq<char>),
    SoftBreak,
    HardBreak,
    Code(Seq<char>),
    Strong(Seq<InlineV>),
    Emphasis(Seq<InlineV>),
    Strikethrough(Seq<InlineV>),
    Link { text: Seq<InlineV>, url: Seq<char> },
    Image { alt: Seq<char>, url: Seq<char> },
    Math(Seq<char>, bool),
    Html(Seq<char>),
    FootnoteRef(Seq<char>),
}

/// The view of a [`ListItem`].
pub struct ItemV {
    pub checked: Option<bool>,
    pub children: Seq<BlockV>,
}

/// The view of a [`Block`].
#[allow(inconsistent_fields)]
pub enum BlockV {
    Paragraph(Seq<InlineV>),
    Heading { level: u8, children: Seq<InlineV> },
    Code { lang: Seq<char>, text: Seq<char> },
    BlockQuote(Seq<BlockV>),
    List { ordered: bool, start: u64, items: Seq<ItemV> },
    Table {
        headers: Seq<Seq<InlineV>>,
        rows: Seq<Seq<Seq<InlineV>>>,
        aligns: Seq<Alignment>,
    },
    ThematicBreak,
    Html(Seq<char>),
    FootnoteDefinition { label: Seq<char>, children: Seq<BlockV> },
}

pub open spec fn inline_view(i: Inline) -> InlineV
    decreases i, 1nat,
{
    match i {
        Inline::Text(s) => InlineV::Text(s@),
        Inline::SoftBreak => InlineV::SoftBreak,
        Inline::HardBreak => InlineV::HardBreak,
        Inline::Code(s) => InlineV::Code(s@),
        Inline::Strong(v) => InlineV::Strong(inlines_view(v@)),
        Inline::Emphasis(v) => InlineV::Emphasis(inlines_view(v@)),
        Inline::Strikethrough(v) => InlineV::Strikethrough(inlines_view(v@)),
        Inline::Link { text, url } => InlineV::Link { text: inlines_view(text@), url: url@ },
        Inline::Image { alt, url } => InlineV::Image { alt: alt@, url: url@ },
        Inline::Math(s, d) => InlineV::Math(s@, d),
        Inline::Html(s) => InlineV::Html(s@),
        Inline::FootnoteRef(s) => InlineV::FootnoteRef(s@),
    }
}

pub open spec fn inlines_view(s: Seq<Inline>) -> Seq<InlineV>
    decreases s, 0nat,
{
    if s.len() == 0 {
        Seq::empty()
    } else {
        inlines_view(s.drop_last()).push(inline_view(s.last()))
    }
}

/// Views of a sequence of cells.
pub open spec fn cells_view(s: Seq<Vec<Inline>>) -> Seq<Seq<InlineV>>
    decreases s.len(),
{
    if s.len() == 0 {
        Seq::empty()
    } else {
        cells_view(s.drop_last()).push(inlines_view(s.last()@))
    }
}

/// Views of a sequence of rows.
pub open spec fn rows_view(s: Seq<Vec<Vec<Inline>>>) -> Seq<Seq<Seq<InlineV>>>
    decreases s.len(),
{
    if s.len() == 0 {
        Seq::empty()
    } else {
        rows_view(s.drop_last()).push(cells_view(s.last()@))
    }
}

pub open spec fn block_view(b: Block) -> BlockV
    decreases b, 1nat,
{
    match b {
        Block::Paragraph(v) => BlockV::Paragraph(inlines_view(v@)),
        Block::Heading { level, children } => BlockV::Heading {
            level,
            children: inlines_view(children@),
        },
        Block::Code { lang, text } => BlockV::Code { lang: lang@, text: text@ },
        Block::BlockQuote(v) => BlockV::BlockQuote(blocks_view(v@)),
        Block::List { ordered, start, items } => BlockV::List {
            ordered,
            start,
            items: items_view(items@),
        },
        Block::Table { headers, rows, aligns } => BlockV::Table {
            headers: cells_view(headers@),
            rows: rows_view(rows@),
            aligns: aligns@,
        },
        Block::ThematicBreak => BlockV::ThematicBreak,
        Block::Html(s) => BlockV::Html(s@),
        Block::FootnoteDefinition { label, children } => BlockV::FootnoteDefinition {
            label: label@,
            children: blocks_view(children@),
        },
    }
}

pub open spec fn blocks_view(s: Seq<Block>) -> Seq<BlockV>
    decreases s, 0nat,
{
    if s.len() == 0 {
        Seq::empty()
    } else {
        blocks_view(s.drop_last()).push(block_view(s.last()))
    }
}

pub open spec fn item_view(i: ListItem) -> ItemV
    decreases i, 1nat,
{
    ItemV { checked: i.checked, children: blocks_view(i.children@) }
}

pub open spec fn items_view(s: Seq<ListItem>) -> Seq<ItemV>
    decreases s, 0nat,
{
    if s.len() == 0 {
        Seq::empty()
    } else {
        items_view(s.drop_last()).push(item_view(s.last()))
    }
}

impl View for Inline {
    type V = InlineV;

    open spec fn view(&self) -> InlineV {
        inline_view(*self)
    }
}

impl View for Block {
    type V = BlockV;

    open spec fn view(&self) -> BlockV {
        block_view(*self)
    }
}

impl View for ListItem {
    type V = ItemV;

    open spec fn view(&self) -> ItemV {
        item_view(*self)
    }
}

impl View for Ast {
    type V = Seq<BlockV>;

    open spec fn view(&self) -> Seq<BlockV> {
        blocks_view(self.children@)
    }
}

// ---------------------------------------------------------------------------
// lemmas on sequence views
// ---------------------------------------------------------------------------

pub proof fn lemma_blocks_view(s: Seq<Block>)
    ensures
        blocks_view(s).len() == s.len(),
        forall|k: int| 0 <= k < s.len() ==> #[trigger] blocks_view(s)[k] == block_view(s[k]),
    decreases s.len(),
{
    if s.len() > 0 {
        lemma_blocks_view(s.drop_last());
    }
}

pub proof fn lemma_cells_view(s: Seq<Vec<Inline>>)
    ensures
        cells_view(s).len() == s.len(),
        forall|k: int| 0 <= k < s.len() ==> #[trigger] cells_view(s)[k] == inlines_view(s[k]@),
    decreases s.len(),
{
    if s.len() > 0 {
        lemma_cells_view(s.drop_last());
    }
}

/// Views of a pushed sequence of inlines.
pub proof fn lemma_push_inlines(a: Seq<Inline>, x: Inline)
    ensures
        inlines_view(a.push(x)) == inlines_view(a).push(inline_view(x)),
{
    assert(a.push(x).drop_last() == a);
}

/// Views of a pushed sequence of blocks.
pub proof fn lemma_push_blocks(a: Seq<Block>, x: Block)
    ensures
        blocks_view(a.push(x)) == blocks_view(a).push(block_view(x)),
{
    assert(a.push(x).drop_last() == a);
}

/// Views of a pushed sequence of list items.
pub proof fn lemma_push_items(a: Seq<ListItem>, x: ListItem)
    ensures
        items_view(a.push(x)) == items_view(a).push(item_view(x)),
{
    assert(a.push(x).drop_last() == a);
}

// ---------------------------------------------------------------------------
// deep copies
// ---------------------------------------------------------------------------

pub(crate) fn copy_string(s: &String) -> (r: String)
    ensures
        r@ == s@,
{
    s.clone()
}

fn copy_inline(i: &Inline) -> (r: Inline)
    ensures
        r@ == i@,
    decreases i, 1nat,
{
    match i {
        Inline::Text(s) => Inline::Text(copy_string(s)),
        Inline::SoftBreak => Inline::SoftBreak,
        Inline::HardBreak => Inline::HardBreak,
        Inline::Code(s) => Inline::Code(copy_string(s)),
        Inline::Strong(v) => Inline::Strong(copy_inlines(v)),
        Inline::Emphasis(v) => Inline::Emphasis(copy_inlines(v)),
        Inline::Strikethrough(v) => Inline::Strikethrough(copy_inlines(v)),
        Inline::Link { text, url } => Inline::Link { text: copy_inlines(text), url: copy_string(url) },
        Inline::Image { alt, url } => Inline::Image { alt: copy_string(alt), url: copy_string(url) },
        Inline::Math(s, d) => Inline::Math(copy_string(s), *d),
        Inline::Html(s) => Inline::Html(copy_string(s)),
        Inline::FootnoteRef(s) => Inline::FootnoteRef(copy_string(s)),
    }
}

fn copy_inlines(v: &Vec<Inline>) -> (r: Vec<Inline>)
    ensures
        inlines_view(r@) == inlines_view(v@),
    decreases v, 0nat,
{
    let mut out: Vec<Inline> = Vec::new();
    let mut k: usize = 0;
    while k < v.len()
        invariant
            k <= v.len(),
            inlines_view(out@) == inlines_view(v@.take(k as int)),
        decreases v.len() - k,
    {
        assert(decreases_to!(v => v@[k as int]));
        let x = copy_inline(&v[k]);
        proof {
            lemma_push_inlines(out@, x);
            lemma_push_inlines(v@.take(k as int), v@[k as int]);
            assert(v@.take(k + 1) == v@.take(k as int).push(v@[k as int]));
        }
        out.push(x);
        k += 1;
    }
    assert(v@.take(v.len() as int) == v@);
    out
}

fn copy_cells(v: &Vec<Vec<Inline>>) -> (r: Vec<Vec<Inline>>)
    ensures
        cells_view(r@) == cells_view(v@),
{
    let mut out: Vec<Vec<Inline>> = Vec::new();
    let mut k: usize = 0;
    while k < v.len()
        invariant
            k <= v.len(),
            cells_view(out@) == cells_view(v@.take(k as int)),
        decreases v.len() - k,
    {
        let x = copy_inlines(&v[k]);
        proof {
            assert(out@.push(x).drop_last() == out@);
            assert(v@.take(k + 1) == v@.take(k as int).push(v@[k as int]));
            assert(v@.take(k + 1).drop_last() == v@.take(k as int));
        }
        out.push(x);
        k += 1;
    }
    assert(v@.take(v.len() as int) == v@);
    out
}

fn copy_rows(v: &Vec<Vec<Vec<Inline>>>) -> (r: Vec<Vec<Vec<Inline>>>)
    ensures
        rows_view(r@) == rows_view(v@),
{
    let mut out: Vec<Vec<Vec<Inline>>> = Vec::new();
    let mut k: usize = 0;
    while k < v.len()
        invariant
            k <= v.len(),
            rows_view(out@) == rows_view(v@.take(k as int)),
        decreases v.len() - k,
    {
        let x = copy_cells(&v[k]);
        proof {
            assert(out@.push(x).drop_last() == out@);
            assert(v@.take(k + 1) == v@.take(k as int).push(v@[k as int]));
            assert(v@.take(k + 1).drop_last() == v@.take(k as int));
        }
        out.push(x);
        k += 1;
    }
    assert(v@.take(v.len() as int) == v@);
    out
}

pub(crate) fn copy_aligns(v: &Vec<Alignment>) -> (r: Vec<Alignment>)
    ensures
        r@ == v@,
{
    let mut out: Vec<Alignment> = Vec::new();
    let mut k: usize = 0;
    while k < v.len()
        invariant
            k <= v.len(),
            out@ == v@.take(k as int),
        decreases v.len() - k,
    {
        out.push(v[k]);
        assert(v@.take(k + 1) == v@.take(k as int).push(v@[k as int]));
        k += 1;
    }
    assert(v@.take(v.len() as int) == v@);
    out
}

fn copy_block(b: &Block) -> (r: Block)
    ensures
        r@ == b@,
    decreases b, 1nat,
{
    match b {
        Block::Paragraph(v) => Block::Paragraph(copy_inlines(v)),
        Block::Heading { level, children } => Block::Heading {
            level: *level,
            children: copy_inlines(children),
        },
        Block::Code { lang, text } => Block::Code { lang: copy_string(lang), text: copy_string(text) },
        Block::BlockQuote(v) => Block::BlockQuote(copy_blocks(v)),
        Block::List { ordered, start, items } => Block::List {
            ordered: *ordered,
            start: *start,
            items: copy_items(items),
        },
        Block::Table { headers, rows, aligns } => Block::Table {
            headers: copy_cells(headers),
            rows: copy_rows(rows),
            aligns: copy_aligns(aligns),
        },
        Block::ThematicBreak => Block::ThematicBreak,
        Block::Html(s) => Block::Html(copy_string(s)),
        Block::FootnoteDefinition { label, children } => Block::FootnoteDefinition {
            label: copy_string(label),
            children: copy_blocks(children),
        },
    }
}

fn copy_blocks(v: &Vec<Block>) -> (r: Vec<Block>)
    ensures
        blocks_view(r@) == blocks_view(v@),
    decreases v, 0nat,
{
    let mut out: Vec<Block> = Vec::new();
    let mut k: usize = 0;
    while k < v.len()
        invariant
            k <= v.len(),
            blocks_view(out@) == blocks_view(v@.take(k as int)),
        decreases v.len() - k,
    {
        assert(decreases_to!(v => v@[k as int]));
        let x = copy_block(&v[k]);
        proof {
            lemma_push_blocks(out@, x);
            lemma_push_blocks(v@.take(k as int), v@[k as int]);
            assert(v@.take(k + 1) == v@.take(k as int).push(v@[k as int]));
        }
        out.push(x);
        k += 1;
    }
    assert(v@.take(v.len() as int) == v@);
    out
}

fn copy_item(i: &ListItem) -> (r: ListItem)
    ensures
        r@ == i@,
    decreases i, 1nat,
{
    ListItem { checked: i.checked, children: copy_blocks(&i.children) }
}

fn copy_items(v: &Vec<ListItem>) -> (r: Vec<ListItem>)
    ensures
        items_view(r@) == items_view(v@),
    decreases v, 0nat,
{
    let mut out: Vec<ListItem> = Vec::new();
    let mut k: usize = 0;
    while k < v.len()
        invariant
            k <= v.len(),
            items_view(out@) == items_view(v@.take(k as int)),
        decreases v.len() - k,
    {
        assert(decreases_to!(v => v@[k as int]));
        let x = copy_item(&v[k]);
        proof {
            lemma_push_items(out@, x);
            lemma_push_items(v@.take(k as int), v@[k as int]);
            assert(v@.take(k + 1) == v@.take(k as int).push(v@[k as int]));
        }
        out.push(x);
        k += 1;
    }
    assert(v@.take(v.len() as int) == v@);
    out
}

impl Clone for Inline {
    fn clone(&self) -> (r: Self)
        ensures
            r@ == self@,
    {
        copy_inline(self)
    }
}

impl Clone for Block {
    fn clone(&self) -> (r: Self)
        ensures
            r@ == self@,
    {
        copy_block(self)
    }
}

impl Clone for ListItem {
    fn clone(&self) -> (r: Self)
        ensures
            r@ == self@,
    {
        copy_item(self)
    }
}

impl Clone for Ast {
    fn clone(&self) -> (r: Self)
        ensures
            r@ == self@,
    {
        Ast { children: copy_blocks(&self.children) }
    }
}

impl Default for Ast {
    fn default() -> (r: Self)
        ensures
            r@ == Seq::<BlockV>::empty(),
    {
        Ast { children: Vec::new() }
    }
}

impl Ast {
    /// True when the tree has no block.
    pub fn is_empty(&self) -> (b: bool)
        ensures
            b == (self@.len() == 0),
    {
        proof {
            lemma_blocks_view(self.children@);
        }
        self.children.len() == 0
    }
}

} // verus!
