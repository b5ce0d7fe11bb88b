//! Display widths (through unicode-width) and plain text of inline content.
use vstd::prelude::*;
use crate::ast::{inline_view, inlines_view, lemma_push_inlines, Inline, InlineV};
use crate::text::{chars_of, extend_all, string_of};

verus! {

/// The width unicode-width's table gives a non-control character from U+00A0 on.
pub uninterp spec fn char_cols(c: char) -> u8;

/// The display width unicode-width gives a text.
pub uninterp spec fn str_cols(s: Seq<char>) -> usize;

/// The width of one character: one column for printable ASCII, none for
/// control characters, the table's width from U+00A0 on.
pub open spec fn char_width_spec(c: char) -> Option<usize> {
    if 0x20 <= (c as u32) && (c as u32) < 0x7f {
        Some(1)
    } else if (c as u32) < 0xa0 {
        None
    } else {
        Some(char_cols(c) as usize)
    }
}

/// `unicode_width::UnicodeWidthChar::width`: one column for printable ASCII,
/// `None` for the control characters below U+0020 and from U+007F to
/// U+009F, and a table lookup (a `u8`) from U+00A0 on; the table itself is
/// left as a name.
#[verifier::external_body]
pub(crate) fn char_width(c: char) -> (r: Option<usize>)
    ensures
        0x20 <= (c as u32) && (c as u32) < 0x7f ==> r == Some(1usize),
        (c as u32) < 0x20 || (0x7f <= (c as u32) && (c as u32) < 0xa0) ==> r is None,
        0xa0 <= (c as u32) ==> r == Some(char_cols(c) as usize),
{
    unicode_width::UnicodeWidthChar::width(c)
}

/// `unicode_width::UnicodeWidthStr::width`: the display width of a text, a
/// function of the text alone (left as a name).
#[verifier::external_body]
fn display_width(s: &str) -> (w: usize)
    ensures
        w == str_cols(s@),
{
    unicode_width::UnicodeWidthStr::width(s)
}

/// Display width in terminal columns.
pub trait WidthExt {
    /// Terminal display width in columns.
    fn width(&self) -> usize;
}

impl WidthExt for str {
    fn width(&self) -> (w: usize)
        ensures
            w == str_cols(self@),
    {
        display_width(self)
    }
}

/// The longest prefix of `t` from `i` whose widths, added to `col`, stay
/// within `lim` (control characters count as zero).
pub open spec fn fit_prefix(t: Seq<char>, i: int, col: int, lim: int) -> Seq<char>
    decreases t.len() - i,
{
    if i < 0 || i >= t.len() {
        Seq::empty()
    } else {
        let w = match char_width_spec(t[i]) {
            Some(w) => w as int,
            None => 0,
        };
        if col + w > lim {
            Seq::empty()
        } else {
            seq![t[i]] + fit_prefix(t, i + 1, col + w, lim)
        }
    }
}

/// Columns of one character, control characters counting none.
pub open spec fn cols_or_zero(c: char) -> int {
    match char_width_spec(c) {
        Some(w) => w as int,
        None => 0,
    }
}

/// Columns of the first `n` characters of `t`.
pub open spec fn cols_sum(t: Seq<char>, n: int) -> int
    decreases n,
{
    if n <= 0 || n > t.len() {
        0
    } else {
        cols_sum(t, n - 1) + cols_or_zero(t[n - 1])
    }
}

proof fn lemma_cols_sum_mono(t: Seq<char>, a: int, b: int)
    requires
        0 <= a <= b <= t.len(),
    ensures
        cols_sum(t, a) <= cols_sum(t, b),
    decreases b - a,
{
    if a < b {
        lemma_cols_sum_mono(t, a, b - 1);
    }
}

proof fn lemma_fit_prefix_longest(t: Seq<char>, i: int, lim: int)
    requires
        0 <= i <= t.len(),
        cols_sum(t, i) <= lim,
    ensures
        ({
            let p = fit_prefix(t, i, cols_sum(t, i), lim);
            &&& i + p.len() <= t.len()
            &&& p == t.subrange(i, i + p.len())
            &&& cols_sum(t, i + p.len()) <= lim
            &&& forall|j: int| i + p.len() < j <= t.len() ==> cols_sum(t, j) > lim
        }),
    decreases t.len() - i,
{
    let p = fit_prefix(t, i, cols_sum(t, i), lim);
    if i < t.len() {
        let w = cols_or_zero(t[i]);
        assert(cols_sum(t, i + 1) == cols_sum(t, i) + w);
        if cols_sum(t, i) + w > lim {
            assert(p =~= Seq::<char>::empty());
            assert forall|j: int| i + p.len() < j <= t.len() implies cols_sum(t, j) > lim by {
                lemma_cols_sum_mono(t, i + 1, j);
            }
        } else {
            lemma_fit_prefix_longest(t, i + 1, lim);
            let q = fit_prefix(t, i + 1, cols_sum(t, i + 1), lim);
            assert(p == seq![t[i]] + q);
            assert(p =~= t.subrange(i, i + p.len()));
        }
    } else {
        assert(p =~= Seq::<char>::empty());
    }
}

/// What `truncate` keeps of a text wider than `width` (before the ellipsis)
/// is the longest prefix within `width - 1` columns: it fits, and every
/// longer prefix is wider.
pub proof fn lemma_truncate_longest_prefix(t: Seq<char>, width: usize)
    requires
        str_cols(t) > width,
        width >= 1,
    ensures
        ({
            let p = truncate_spec(t, width).drop_last();
            &&& p == t.take(p.len() as int)
            &&& cols_sum(t, p.len() as int) <= width - 1
            &&& forall|j: int| p.len() < j <= t.len() ==> cols_sum(t, j) > width - 1
        }),
{
    let lim = width - 1;
    lemma_fit_prefix_longest(t, 0, lim);
    let q = fit_prefix(t, 0, 0, lim);
    assert(truncate_spec(t, width).drop_last() =~= q);
}

/// `t` cut to `width` columns: unchanged when it fits, else the longest
/// prefix within `width - 1` columns followed by an ellipsis.
pub open spec fn truncate_spec(t: Seq<char>, width: usize) -> Seq<char> {
    if str_cols(t) <= width {
        t
    } else {
        fit_prefix(t, 0, 0, if width > 0 { width - 1 } else { 0 }) + seq!['\u{2026}']
    }
}

/// Truncate a string to `width` display columns (CJK-aware).
pub fn truncate(text: &str, width: usize) -> (r: String)
    ensures
        r@ == truncate_spec(text@, width),
{
    if text.width() <= width {
        return text.to_owned();
    }
    let t = chars_of(text);
    let lim: usize = if width > 0 {
        width - 1
    } else {
        0
    };
    let mut out: Vec<char> = Vec::new();
    let mut col: usize = 0;
    let mut i: usize = 0;
    let mut full = false;
    while i < t.len() && !full
        invariant
            i <= t@.len(),
            col <= lim,
            out@ + fit_prefix(t@, i as int, col as int, lim as int) == fit_prefix(t@, 0, 0, lim as int),
            full ==> fit_prefix(t@, i as int, col as int, lim as int) == Seq::<char>::empty(),
        decreases t@.len() - i, if full { 0int } else { 1int },
    {
        let w = match char_width(t[i]) {
            Some(w) => w,
            None => 0,
        };
        if w > lim - col {
            full = true;
        } else {
            out.push(t[i]);
            assert(out@ + fit_prefix(t@, i + 1, (col + w) as int, lim as int) =~= out@.drop_last()
                + (seq![t@[i as int]] + fit_prefix(t@, i + 1, (col + w) as int, lim as int)));
            col += w;
            i += 1;
        }
    }
    assert(out@ =~= fit_prefix(t@, 0, 0, lim as int)) by {
        assert(fit_prefix(t@, i as int, col as int, lim as int) =~= Seq::<char>::empty());
    }
    out.push('\u{2026}');
    string_of(&out)
}

/// The text of inline content, breaks as spaces.
pub open spec fn flat_text(s: Seq<InlineV>) -> Seq<char>
    decreases s, 0nat,
{
    if s.len() == 0 {
        Seq::empty()
    } else {
        flat_text(s.drop_last()) + flat_one(s.last())
    }
}

/// The text of one inline node, a break as a space.
pub open spec fn flat_one(i: InlineV) -> Seq<char>
    decreases i, 1nat,
{
    match i {
        InlineV::Text(t) => t,
        InlineV::Code(c) => c,
        InlineV::Strong(c) => flat_text(c),
        InlineV::Emphasis(c) => flat_text(c),
        InlineV::Strikethrough(c) => flat_text(c),
        InlineV::Link { text, .. } => flat_text(text),
        InlineV::SoftBreak => seq![' '],
        InlineV::HardBreak => seq![' '],
        InlineV::Image { alt, .. } => alt,
        InlineV::Math(m, _) => m,
        InlineV::Html(h) => h,
        InlineV::FootnoteRef(l) => l,
    }
}

fn flat_into(v: &[Inline], out: &mut Vec<char>)
    ensures
        final(out)@ == old(out)@ + flat_text(inlines_view(v@)),
    decreases v@, 0nat,
{
    let ghost start = out@;
    let mut k: usize = 0;
    assert(inlines_view(v@.take(0)) =~= Seq::<InlineV>::empty());
    assert(out@ =~= start + flat_text(inlines_view(v@.take(0))));
    while k < v.len()
        invariant
            k <= v@.len(),
            out@ == start + flat_text(inlines_view(v@.take(k as int))),
        decreases v@.len() - k,
    {
        assert(decreases_to!(v@ => v@[k as int]));
        flat_one_into(&v[k], out);
        proof {
            lemma_push_inlines(v@.take(k as int), v@[k as int]);
            assert(v@.take(k + 1) == v@.take(k as int).push(v@[k as int]));
            let sv = inlines_view(v@.take(k as int));
            assert(sv.push(inline_view(v@[k as int])).drop_last() == sv);
            assert(out@ =~= start + flat_text(inlines_view(v@.take(k + 1))));
        }
        k += 1;
    }
    assert(v@.take(v@.len() as int) == v@);
}

fn push_str(out: &mut Vec<char>, t: &String)
    ensures
        final(out)@ == old(out)@ + t@,
{
    let c = chars_of(t.as_str());
    extend_all(out, &c);
}

fn flat_one_into(i: &Inline, out: &mut Vec<char>)
    ensures
        final(out)@ == old(out)@ + flat_one(i@),
    decreases i, 1nat,
{
    match i {
        Inline::Text(t) => push_str(out, t),
        Inline::Code(t) => push_str(out, t),
        Inline::Strong(c) => flat_into(c.as_slice(), out),
        Inline::Emphasis(c) => flat_into(c.as_slice(), out),
        Inline::Strikethrough(c) => flat_into(c.as_slice(), out),
        Inline::Link { text, .. } => flat_into(text.as_slice(), out),
        Inline::SoftBreak => {
            out.push(' ');
            assert(out@ =~= old(out)@ + seq![' ']);
        },
        Inline::HardBreak => {
            out.push(' ');
            assert(out@ =~= old(out)@ + seq![' ']);
        },
        Inline::Image { alt, .. } => push_str(out, alt),
        Inline::Math(t, _) => push_str(out, t),
        Inline::Html(t) => push_str(out, t),
        Inline::FootnoteRef(t) => push_str(out, t),
    }
}

/// Flatten inline content to plain text.
pub fn plain_text(inlines: &[Inline]) -> (r: String)
    ensures
        r@ == flat_text(inlines_view(inlines@)),
{
    let mut out: Vec<char> = Vec::new();
    flat_into(inlines, &mut out);
    assert(out@ =~= flat_text(inlines_view(inlines@)));
    string_of(&out)
}

/// Display width of an inline run.
pub fn plain_width(inlines: &[Inline]) -> (w: usize)
    ensures
        w == str_cols(flat_text(inlines_view(inlines@))),
{
    let t = plain_text(inlines);
    t.as_str().width()
}

/// The columns of one character, control characters counting as zero.
pub open spec fn cols_of(c: char) -> int {
    match char_width_spec(c) {
        Some(w) => w as int,
        None => 0,
    }
}

/// Sum of the character widths of `t` (control characters count as zero).
pub open spec fn widths(t: Seq<char>) -> int
    decreases t.len(),
{
    if t.len() == 0 {
        0
    } else {
        cols_of(t[0]) + widths(t.drop_first())
    }
}

/// What `truncate` keeps before its ellipsis fits in `lim - col` columns.
pub proof fn lemma_fit_prefix_fits(t: Seq<char>, i: int, col: int, lim: int)
    requires
        0 <= i,
        col <= lim,
    ensures
        col + widths(fit_prefix(t, i, col, lim)) <= lim,
    decreases t.len() - i,
{
    if i < t.len() {
        let w = match char_width_spec(t[i]) {
            Some(w) => w as int,
            None => 0,
        };
        if col + w <= lim {
            lemma_fit_prefix_fits(t, i + 1, col + w, lim);
            let rest = fit_prefix(t, i + 1, col + w, lim);
            assert((seq![t[i]] + rest).drop_first() == rest);
        }
    }
}

} // verus!
