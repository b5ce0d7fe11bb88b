//! Block segmentation: splits markdown into stable blocks so only the
//! trailing block needs re-parsing as content streams in.
use vstd::prelude::*;
use crate::fix::{defs_from, defs_in, refs_from, refs_in};
use crate::fix_math::{is_dd, starts_fence};
use crate::scan::{
    count_in, count_occ, lemma_lines_shape, line_blank, line_ranges, line_ranges_in, lines_shape,
};
use crate::text::{chars_eq, 
    all_white_range, chars_of, extend_all, find_seq, find_seq_from, is_js_ws, is_js_ws_char,
    all_white, is_white, is_white_char, string_of, sub_vec, trim_end_js, trim_end_js_len, trim_start_js,
    trim_start_js_len, trim_white, trim_white_vec,
};

verus! {

/// Number of leading `#` characters.
pub open spec fn hashes(t: Seq<char>) -> int
    decreases t.len(),
{
    if t.len() > 0 && t[0] == '#' {
        1 + hashes(t.drop_first())
    } else {
        0
    }
}

/// The line (after leading whitespace) starts a block boundary: an ATX
/// heading `#{1,6} `, a quote, HTML, or a fence.
pub open spec fn starts_block(line: Seq<char>) -> bool {
    let t = trim_start_js(line);
    let h = hashes(t);
    t.len() > 0 && if t[0] == '#' {
        1 <= h <= 6 && h < t.len() && (t[h] == ' ' || is_js_ws(t[h]))
    } else {
        t[0] == '>' || t[0] == '<' || t[0] == '!' || t[0] == '?' || t[0] == '`'
    }
}

fn starts_block_in(line: &[char]) -> (b: bool)
    ensures
        b == starts_block(line@),
{
    let a = trim_start_js_len(line);
    let t = sub_vec(line, a, line.len());
    assert(t@ == line@.skip(a as int));
    if t.len() == 0 {
        return false;
    }
    if t[0] == '#' {
        let mut h: usize = 0;
        assert(t@.skip(0) == t@);
        while h < t.len() && t[h] == '#'
            invariant
                h <= t.len(),
                h + hashes(t@.skip(h as int)) == hashes(t@),
            decreases t.len() - h,
        {
            assert(t@.skip(h as int).drop_first() == t@.skip(h + 1));
            h += 1;
        }
        return 1 <= h && h <= 6 && h < t.len() && (t[h] == ' ' || is_js_ws_char(t[h]));
    }
    t[0] == '>' || t[0] == '<' || t[0] == '!' || t[0] == '?' || t[0] == '`'
}

/// The trimmed text of line `k`.
pub open spec fn trimmed_line(s: Seq<char>, l: Seq<(usize, usize)>, k: int) -> Seq<char> {
    trim_white(s.subrange(l[k].0 as int, l[k].1 as int))
}

/// Block tokens from line `k` on: blank-line separated runs, fences kept
/// whole, boundary lines starting new runs. `ts` is the start of the open
/// token (-1 for none), `tls` its first line.
pub open spec fn lex_from(
    s: Seq<char>,
    l: Seq<(usize, usize)>,
    k: int,
    ts: int,
    tls: int,
    in_fence: bool,
) -> Seq<(usize, usize)>
    decreases l.len() - k,
{
    if k < 0 || k >= l.len() {
        if ts >= 0 {
            seq![(ts as usize, s.len() as usize)]
        } else {
            Seq::empty()
        }
    } else {
        let off = l[k].0 as int;
        let t = trimmed_line(s, l, k);
        let flush = if ts >= 0 {
            seq![(ts as usize, off as usize)]
        } else {
            Seq::empty()
        };
        if in_fence {
            lex_from(s, l, k + 1, ts, tls, !starts_fence(t))
        } else if line_blank(s, l, k) {
            flush + lex_from(s, l, k + 1, -1, k + 1, false)
        } else if starts_fence(t) {
            flush + lex_from(s, l, k + 1, off, k, true)
        } else if starts_block(s.subrange(off, l[k].1 as int)) && ts >= 0 && k > tls {
            flush + lex_from(s, l, k + 1, off, k, false)
        } else if ts < 0 {
            lex_from(s, l, k + 1, off, k, false)
        } else {
            lex_from(s, l, k + 1, ts, tls, false)
        }
    }
}

/// The block tokens of `s`.
pub open spec fn lex_tokens(s: Seq<char>) -> Seq<(usize, usize)> {
    lex_from(s, line_ranges(s), 0, -1, 0, false)
}

pub proof fn lemma_lex_from(
    s: Seq<char>,
    l: Seq<(usize, usize)>,
    k: int,
    ts: int,
    tls: int,
    in_fence: bool,
)
    requires
        lines_shape(s, l, 0),
        0 <= k <= l.len(),
        -1 <= ts <= s.len(),
        k < l.len() ==> ts <= l[k].0,
        s.len() <= usize::MAX,
    ensures
        forall|m: int|
            0 <= m < lex_from(s, l, k, ts, tls, in_fence).len() ==> (#[trigger] lex_from(
                s,
                l,
                k,
                ts,
                tls,
                in_fence,
            )[m]).0 <= lex_from(s, l, k, ts, tls, in_fence)[m].1 <= s.len(),
    decreases l.len() - k,
{
    if k < l.len() {
        let off = l[k].0 as int;
        let t = trimmed_line(s, l, k);
        let flush: Seq<(usize, usize)> = if ts >= 0 {
            seq![(ts as usize, off as usize)]
        } else {
            Seq::empty()
        };
        let all = lex_from(s, l, k, ts, tls, in_fence);
        if k + 1 < l.len() {
            assert(l[k + 1].0 == l[k].1 + 1);
        }
        if in_fence {
            lemma_lex_from(s, l, k + 1, ts, tls, !starts_fence(t));
            assert(all == lex_from(s, l, k + 1, ts, tls, !starts_fence(t)));
        } else if line_blank(s, l, k) {
            lemma_lex_from(s, l, k + 1, -1, k + 1, false);
            let rest = lex_from(s, l, k + 1, -1, k + 1, false);
            assert(all == flush + rest);
            assert forall|m: int| 0 <= m < all.len() implies (#[trigger] all[m]).0 <= all[m].1
                <= s.len() by {
                if m >= flush.len() {
                    assert(all[m] == rest[m - flush.len()]);
                }
            }
        } else if starts_fence(t) {
            lemma_lex_from(s, l, k + 1, off, k, true);
            let rest = lex_from(s, l, k + 1, off, k, true);
            assert(all == flush + rest);
            assert forall|m: int| 0 <= m < all.len() implies (#[trigger] all[m]).0 <= all[m].1
                <= s.len() by {
                if m >= flush.len() {
                    assert(all[m] == rest[m - flush.len()]);
                }
            }
        } else if starts_block(s.subrange(off, l[k].1 as int)) && ts >= 0 && k > tls {
            lemma_lex_from(s, l, k + 1, off, k, false);
            let rest = lex_from(s, l, k + 1, off, k, false);
            assert(all == flush + rest);
            assert forall|m: int| 0 <= m < all.len() implies (#[trigger] all[m]).0 <= all[m].1
                <= s.len() by {
                if m >= flush.len() {
                    assert(all[m] == rest[m - flush.len()]);
                }
            }
        } else if ts < 0 {
            lemma_lex_from(s, l, k + 1, off, k, false);
            assert(all == lex_from(s, l, k + 1, off, k, false));
        } else {
            lemma_lex_from(s, l, k + 1, ts, tls, false);
            assert(all == lex_from(s, l, k + 1, ts, tls, false));
        }
    }
}

fn lex_tokens_in(s: &[char]) -> (r: Vec<(usize, usize)>)
    ensures
        r@ == lex_tokens(s@),
        forall|m: int| 0 <= m < r@.len() ==> (#[trigger] r@[m]).0 <= r@[m].1 <= s@.len(),
{
    let l = line_ranges_in(s);
    proof {
        assert(s@.len() == s.len());
        lemma_lex_from(s@, l@, 0, -1, 0, false);
    }
    let mut tokens: Vec<(usize, usize)> = Vec::new();
    let mut has_start = false;
    let mut ts: usize = 0;
    let mut tls: usize = 0;
    let mut in_fence = false;
    let mut k: usize = 0;
    while k < l.len()
        invariant
            forall|j: int| 0 <= j < l@.len() ==> (#[trigger] l@[j]).0 <= l@[j].1 <= s@.len(),
            forall|j: int| 0 <= j < l@.len() - 1 ==> (#[trigger] l@[j + 1]).0 == l@[j].1 + 1,
            l@ == line_ranges(s@),
            k <= l.len(),
            has_start ==> ts <= s.len(),
            has_start && k < l.len() ==> ts <= l@[k as int].0,
            tokens@ + lex_from(s@, l@, k as int, if has_start {
                ts as int
            } else {
                -1
            }, tls as int, in_fence) == lex_tokens(s@),
        decreases l.len() - k,
    {
        let (a, b) = l[k];
        let ghost ots = if has_start {
            ts as int
        } else {
            -1
        };
        let ghost otok = tokens@;
        let ghost t_spec = trimmed_line(s@, l@, k as int);
        let ghost flush: Seq<(usize, usize)> = if has_start {
            seq![(ts, a)]
        } else {
            Seq::empty()
        };
        if k + 1 < l.len() {
            assert(l@[k + 1].0 == l@[k as int].1 + 1);
        }
        let line = sub_vec(s, a, b);
        let t = trim_white_vec(&line);
        let fence = t.len() >= 3 && t[0] == '`' && t[1] == '`' && t[2] == '`';
        assert(t@ == t_spec);
        assert(fence == starts_fence(t_spec));
        if in_fence {
            if fence {
                in_fence = false;
            }
        } else if all_white_range(s, a, b) {
            if has_start {
                tokens.push((ts, a));
            }
            assert(tokens@ == otok + flush);
            has_start = false;
            tls = k + 1;
        } else if fence {
            if has_start {
                tokens.push((ts, a));
            }
            assert(tokens@ == otok + flush);
            tls = k;
            ts = a;
            has_start = true;
            in_fence = true;
        } else if starts_block_in(&line) && has_start && k > tls {
            tokens.push((ts, a));
            assert(tokens@ == otok + flush);
            tls = k;
            ts = a;
        } else if !has_start {
            ts = a;
            has_start = true;
            tls = k;
        }
        proof {
            assert(otok + (flush + lex_from(s@, l@, k + 1, if has_start {
                ts as int
            } else {
                -1
            }, tls as int, in_fence)) == (otok + flush) + lex_from(s@, l@, k + 1, if has_start {
                ts as int
            } else {
                -1
            }, tls as int, in_fence));
        }
        k += 1;
    }
    if has_start {
        tokens.push((ts, s.len()));
    }
    tokens
}

/// Number of fence lines (trimmed text starting with three backticks) among
/// lines `0..k`.
pub open spec fn fence_count(s: Seq<char>, l: Seq<(usize, usize)>, k: int) -> nat
    decreases k,
{
    if k <= 0 {
        0
    } else if starts_fence(trimmed_line(s, l, k - 1)) {
        fence_count(s, l, k - 1) + 1
    } else {
        fence_count(s, l, k - 1)
    }
}

/// A blank line is no fence line.
proof fn lemma_blank_no_fence(s: Seq<char>, l: Seq<(usize, usize)>, k: int)
    requires
        lines_shape(s, l, 0),
        0 <= k < l.len(),
        line_blank(s, l, k),
    ensures
        !starts_fence(trimmed_line(s, l, k)),
{
    let x = s.subrange(l[k].0 as int, l[k].1 as int);
    let j = crate::text::lemma_trim_white_sub(x);
    let t = trimmed_line(s, l, k);
    if t.len() >= 3 {
        assert(t[0] == x[j]);
        assert(is_white(x[j]));
    }
}

/// Tokens from line `k` on end at the end of the text or at the start of a
/// line with an even number of fence lines before it.
proof fn lemma_lex_ends(s: Seq<char>, l: Seq<(usize, usize)>, k: int, ts: int, tls: int, in_fence: bool)
    requires
        lines_shape(s, l, 0),
        0 <= k <= l.len(),
        in_fence == (fence_count(s, l, k) % 2 == 1),
    ensures
        forall|m: int|
            0 <= m < lex_from(s, l, k, ts, tls, in_fence).len() ==> (#[trigger] lex_from(
                s,
                l,
                k,
                ts,
                tls,
                in_fence,
            )[m]).1 == s.len() || exists|j: int|
                #![trigger l[j]]
                k <= j < l.len() && l[j].0 == lex_from(s, l, k, ts, tls, in_fence)[m].1
                    && fence_count(s, l, j) % 2 == 0,
    decreases l.len() - k,
{
    if k < l.len() {
        let off = l[k].0 as int;
        let t = trimmed_line(s, l, k);
        let flush: Seq<(usize, usize)> = if ts >= 0 {
            seq![(ts as usize, off as usize)]
        } else {
            Seq::empty()
        };
        let all = lex_from(s, l, k, ts, tls, in_fence);
        assert(fence_count(s, l, k + 1) == fence_count(s, l, k) + if starts_fence(t) { 1nat } else { 0nat });
        let (nts, ntls, nf): (int, int, bool) = if in_fence {
            (ts, tls, !starts_fence(t))
        } else if line_blank(s, l, k) {
            (-1, k + 1, false)
        } else if starts_fence(t) {
            (off, k, true)
        } else if starts_block(s.subrange(off, l[k].1 as int)) && ts >= 0 && k > tls {
            (off, k, false)
        } else if ts < 0 {
            (off, k, false)
        } else {
            (ts, tls, false)
        };
        if !in_fence && line_blank(s, l, k) {
            lemma_blank_no_fence(s, l, k);
        }
        lemma_lex_ends(s, l, k + 1, nts, ntls, nf);
        let rest = lex_from(s, l, k + 1, nts, ntls, nf);
        let flushed = !in_fence && (line_blank(s, l, k) || starts_fence(t) || (starts_block(
            s.subrange(off, l[k].1 as int),
        ) && ts >= 0 && k > tls));
        let pre: Seq<(usize, usize)> = if flushed { flush } else { Seq::empty() };
        assert(all == pre + rest);
        assert forall|m: int| 0 <= m < all.len() implies (#[trigger] all[m]).1 == s.len()
            || exists|j: int|
            #![trigger l[j]]
            k <= j < l.len() && l[j].0 == all[m].1 && fence_count(s, l, j) % 2 == 0 by {
            if m < pre.len() {
                assert(all[m] == flush[0]);
                assert(l[k].0 == all[m].1);
            } else {
                assert(all[m] == rest[m - pre.len()]);
                if all[m].1 != s.len() {
                    let j = choose|j: int|
                        #![trigger l[j]]
                        k + 1 <= j < l.len() && l[j].0 == rest[m - pre.len()].1
                            && fence_count(s, l, j) % 2 == 0;
                    assert(l[j].0 == all[m].1);
                }
            }
        }
    }
}

/// Blocks never end inside a fenced code block: every block token ends at the
/// end of the text or at the start of a line before which the fence lines
/// (trimmed text starting with three backticks) are even in number. So a
/// blank line between an opening fence line and its closing one ends no
/// block, and the block that holds the opening line reaches past the closing
/// line.
pub proof fn lemma_tokens_end_outside_fences(s: Seq<char>)
    requires
        s.len() <= usize::MAX,
    ensures
        forall|m: int|
            0 <= m < lex_tokens(s).len() ==> (#[trigger] lex_tokens(s)[m]).1 == s.len() || exists|
                j: int,
            |
                #![trigger line_ranges(s)[j]]
                0 <= j < line_ranges(s).len() && line_ranges(s)[j].0 == lex_tokens(s)[m].1
                    && fence_count(s, line_ranges(s), j) % 2 == 0,
{
    lemma_lines_shape(s, 0);
    lemma_lex_ends(s, line_ranges(s), 0, -1, 0, false);
}

/// Line starts strictly increase.
proof fn lemma_line_starts_increase(s: Seq<char>, l: Seq<(usize, usize)>, i: int, j: int)
    requires
        lines_shape(s, l, 0),
        0 <= i < j < l.len(),
    ensures
        l[i].0 < l[j].0,
    decreases j - i,
{
    assert(l[i + 1].0 == l[i].1 + 1);
    if i + 1 < j {
        lemma_line_starts_increase(s, l, i + 1, j);
    }
}

/// Line `j` is not blank, or has an odd number of fence lines before it.
pub open spec fn fenced_if_blank(s: Seq<char>, l: Seq<(usize, usize)>, j: int) -> bool {
    line_blank(s, l, j) ==> fence_count(s, l, j) % 2 == 1
}

/// Every line before `k` whose start is at or after `ts` is fenced if blank.
pub open spec fn open_token_ok(s: Seq<char>, l: Seq<(usize, usize)>, k: int, ts: int) -> bool {
    ts >= 0 ==> forall|j: int| 0 <= j < k && ts <= l[j].0 ==> #[trigger] fenced_if_blank(s, l, j)
}

/// The line ranges of `s`, hidden behind a name.
#[verifier::opaque]
spec fn shaped(s: Seq<char>, l: Seq<(usize, usize)>) -> bool {
    lines_shape(s, l, 0)
}

/// Line `k` lies within the text, before the start of the next line.
proof fn lemma_shaped_step(s: Seq<char>, l: Seq<(usize, usize)>, k: int)
    requires
        shaped(s, l),
        0 <= k < l.len(),
    ensures
        l[k].0 <= l[k].1 <= s.len(),
        k + 1 < l.len() ==> l[k].1 < l[k + 1].0,
{
    reveal(shaped);
}

/// A token opened at line `k` holds no earlier line.
proof fn lemma_fresh_blank_free(s: Seq<char>, l: Seq<(usize, usize)>, k: int)
    requires
        shaped(s, l),
        0 <= k < l.len(),
        !line_blank(s, l, k),
    ensures
        open_token_ok(s, l, k + 1, l[k].0 as int),
{
    reveal(shaped);
    assert forall|j: int| 0 <= j < k + 1 && l[k].0 <= l[j].0 implies #[trigger] fenced_if_blank(
        s,
        l,
        j,
    ) by {
        if j < k {
            lemma_line_starts_increase(s, l, j, k);
        }
    }
}

/// The open token stays in order across line `k` when that line is fenced
/// if blank.
proof fn lemma_next_blank_free(s: Seq<char>, l: Seq<(usize, usize)>, k: int, ts: int)
    requires
        0 <= k < l.len(),
        fenced_if_blank(s, l, k),
        open_token_ok(s, l, k, ts),
    ensures
        open_token_ok(s, l, k + 1, ts),
{
}

/// The token `(ts, l[k].0)` flushed at line `k` holds no blank line outside
/// fences.
proof fn lemma_flush_blank_free(s: Seq<char>, l: Seq<(usize, usize)>, k: int, ts: int, j: int)
    requires
        shaped(s, l),
        0 <= k < l.len(),
        0 <= j < l.len(),
        open_token_ok(s, l, k, ts),
        ts >= 0,
        ts <= l[j].0 < l[k].0,
    ensures
        fenced_if_blank(s, l, j),
{
    reveal(shaped);
    if j > k {
        lemma_line_starts_increase(s, l, k, j);
    }
}

/// Tokens from line `k` on hold no blank line with an even number of fence
/// lines before it, given that the open token (from `ts`) holds none so far.
proof fn lemma_lex_blank_free(
    s: Seq<char>,
    l: Seq<(usize, usize)>,
    k: int,
    ts: int,
    tls: int,
    in_fence: bool,
)
    requires
        shaped(s, l),
        0 <= k <= l.len(),
        -1 <= ts <= s.len(),
        k < l.len() ==> ts <= l[k].0,
        s.len() <= usize::MAX,
        in_fence == (fence_count(s, l, k) % 2 == 1),
        open_token_ok(s, l, k, ts),
    ensures
        forall|m: int, j: int|
            0 <= m < lex_from(s, l, k, ts, tls, in_fence).len() && 0 <= j < l.len() && (#[trigger] lex_from(
                s,
                l,
                k,
                ts,
                tls,
                in_fence,
            )[m]).0 <= (#[trigger] l[j]).0 < lex_from(s, l, k, ts, tls, in_fence)[m].1
                ==> fenced_if_blank(s, l, j),
    decreases l.len() - k,
{
    let all = lex_from(s, l, k, ts, tls, in_fence);
    if k >= l.len() {
        assert forall|m: int, j: int|
            0 <= m < all.len() && 0 <= j < l.len() && (#[trigger] all[m]).0 <= (#[trigger] l[j]).0
                < all[m].1 implies fenced_if_blank(s, l, j) by {
            assert(all[m].0 == ts);
        }
    } else {
        let off = l[k].0 as int;
        let t = trimmed_line(s, l, k);
        let flush: Seq<(usize, usize)> = if ts >= 0 {
            seq![(ts as usize, off as usize)]
        } else {
            Seq::empty()
        };
        assert(fence_count(s, l, k + 1) == fence_count(s, l, k) + if starts_fence(t) { 1nat } else { 0nat });
        lemma_shaped_step(s, l, k);
        if line_blank(s, l, k) {
            reveal(shaped);
            lemma_blank_no_fence(s, l, k);
        }
        let (nts, ntls, nf): (int, int, bool) = if in_fence {
            (ts, tls, !starts_fence(t))
        } else if line_blank(s, l, k) {
            (-1, k + 1, false)
        } else if starts_fence(t) {
            (off, k, true)
        } else if starts_block(s.subrange(off, l[k].1 as int)) && ts >= 0 && k > tls {
            (off, k, false)
        } else if ts < 0 {
            (off, k, false)
        } else {
            (ts, tls, false)
        };
        if nts >= 0 {
            if nts == off && !in_fence {
                lemma_fresh_blank_free(s, l, k);
            } else {
                lemma_next_blank_free(s, l, k, ts);
            }
        }
        lemma_lex_blank_free(s, l, k + 1, nts, ntls, nf);
        let rest = lex_from(s, l, k + 1, nts, ntls, nf);
        let flushed = !in_fence && (line_blank(s, l, k) || starts_fence(t) || (starts_block(
            s.subrange(off, l[k].1 as int),
        ) && ts >= 0 && k > tls));
        let pre: Seq<(usize, usize)> = if flushed { flush } else { Seq::empty() };
        assert(all == pre + rest);
        assert forall|m: int, j: int|
            0 <= m < all.len() && 0 <= j < l.len() && (#[trigger] all[m]).0 <= (#[trigger] l[j]).0
                < all[m].1 implies fenced_if_blank(s, l, j) by {
            if m < pre.len() {
                assert(all[m] == flush[0]);
                lemma_flush_blank_free(s, l, k, ts, j);
            } else {
                assert(all[m] == rest[m - pre.len()]);
            }
        }
    }
}

/// No block holds a blank line outside a fenced code block: every blank line
/// that starts inside a block token (not at its first character) has an odd
/// number of fence lines before it, that is, stands inside an open fence.
pub proof fn lemma_tokens_hold_no_blank_line(s: Seq<char>)
    requires
        s.len() <= usize::MAX,
    ensures
        forall|m: int, j: int|
            #![trigger lex_tokens(s)[m], line_ranges(s)[j]]
            0 <= m < lex_tokens(s).len() && 0 <= j < line_ranges(s).len() && lex_tokens(s)[m].0
                <= line_ranges(s)[j].0 < lex_tokens(s)[m].1 && line_blank(s, line_ranges(s), j)
                ==> fence_count(s, line_ranges(s), j) % 2 == 1,
{
    let l = line_ranges(s);
    lemma_lines_shape(s, 0);
    reveal(shaped);
    lemma_lex_blank_free(s, l, 0, -1, 0, false);
    let toks = lex_tokens(s);
    assert forall|m: int, j: int|
        #![trigger toks[m], l[j]]
        0 <= m < toks.len() && 0 <= j < l.len() && toks[m].0 <= l[j].0 < toks[m].1 && line_blank(
            s,
            l,
            j,
        ) implies fence_count(s, l, j) % 2 == 1 by {
        assert(fenced_if_blank(s, l, j));
    }
}

/// A line that is not blank has text, and so starts before the end.
proof fn lemma_nonblank_starts_before_end(s: Seq<char>, l: Seq<(usize, usize)>, k: int)
    requires
        shaped(s, l),
        0 <= k < l.len(),
        !line_blank(s, l, k),
    ensures
        l[k].0 < l[k].1 <= s.len(),
{
    reveal(shaped);
    if l[k].0 == l[k].1 {
        assert(all_white(s.subrange(l[k].0 as int, l[k].1 as int)));
    }
}

/// Tokens from line `k` on: the open token (from `ts`) comes first and runs
/// at least to line `k`, and every later line that is not blank lies in one
/// of them.
proof fn lemma_lex_covers(s: Seq<char>, l: Seq<(usize, usize)>, k: int, ts: int, tls: int, in_fence: bool)
    requires
        shaped(s, l),
        0 <= k <= l.len(),
        -1 <= ts <= s.len(),
        k < l.len() ==> ts <= l[k].0,
        in_fence ==> ts >= 0,
        s.len() <= usize::MAX,
    ensures
        ts >= 0 ==> {
            let toks = lex_from(s, l, k, ts, tls, in_fence);
            &&& toks.len() > 0
            &&& toks[0].0 == ts
            &&& k < l.len() ==> toks[0].1 >= l[k].0
            &&& k == l.len() ==> toks[0].1 == s.len()
        },
        forall|j: int|
            k <= j < l.len() && !line_blank(s, l, j) ==> exists|m: int|
                0 <= m < lex_from(s, l, k, ts, tls, in_fence).len() && (#[trigger] lex_from(
                    s,
                    l,
                    k,
                    ts,
                    tls,
                    in_fence,
                )[m]).0 <= (#[trigger] l[j]).0 < lex_from(s, l, k, ts, tls, in_fence)[m].1,
    decreases l.len() - k,
{
    let all = lex_from(s, l, k, ts, tls, in_fence);
    if k < l.len() {
        let off = l[k].0 as int;
        let t = trimmed_line(s, l, k);
        let flush: Seq<(usize, usize)> = if ts >= 0 {
            seq![(ts as usize, off as usize)]
        } else {
            Seq::empty()
        };
        lemma_shaped_step(s, l, k);
        if line_blank(s, l, k) {
            reveal(shaped);
            lemma_blank_no_fence(s, l, k);
        } else {
            lemma_nonblank_starts_before_end(s, l, k);
        }
        let (nts, ntls, nf): (int, int, bool) = if in_fence {
            (ts, tls, !starts_fence(t))
        } else if line_blank(s, l, k) {
            (-1, k + 1, false)
        } else if starts_fence(t) {
            (off, k, true)
        } else if starts_block(s.subrange(off, l[k].1 as int)) && ts >= 0 && k > tls {
            (off, k, false)
        } else if ts < 0 {
            (off, k, false)
        } else {
            (ts, tls, false)
        };
        lemma_lex_covers(s, l, k + 1, nts, ntls, nf);
        let rest = lex_from(s, l, k + 1, nts, ntls, nf);
        let flushed = !in_fence && (line_blank(s, l, k) || starts_fence(t) || (starts_block(
            s.subrange(off, l[k].1 as int),
        ) && ts >= 0 && k > tls));
        let pre: Seq<(usize, usize)> = if flushed { flush } else { Seq::empty() };
        assert(all == pre + rest);
        if ts >= 0 && flushed {
            assert(all[0] == flush[0]);
        }
        if ts >= 0 && !flushed {
            assert(all[0] == rest[0]);
        }
        assert forall|j: int| k <= j < l.len() && !line_blank(s, l, j) implies exists|m: int|
            0 <= m < all.len() && (#[trigger] all[m]).0 <= (#[trigger] l[j]).0 < all[m].1 by {
            if j == k {
                assert(nts >= 0);
                assert(all[pre.len() as int] == rest[0]);
                assert(all[pre.len() as int].0 <= l[j].0 < all[pre.len() as int].1);
            } else {
                let m = choose|m: int|
                    0 <= m < rest.len() && (#[trigger] rest[m]).0 <= (#[trigger] l[j]).0 < rest[m].1;
                assert(all[pre.len() + m] == rest[m]);
            }
        }
    } else {
        if ts >= 0 {
            assert(all[0] == (ts as usize, s.len() as usize));
        }
    }
}

/// Every line that is not blank lies within some block token: no text is
/// lost in the split.
pub proof fn lemma_tokens_cover_text(s: Seq<char>)
    requires
        s.len() <= usize::MAX,
    ensures
        forall|j: int|
            0 <= j < line_ranges(s).len() && !line_blank(s, line_ranges(s), j) ==> exists|m: int|
                0 <= m < lex_tokens(s).len() && (#[trigger] lex_tokens(s)[m]).0 <= (
                #[trigger] line_ranges(s)[j]).0 < lex_tokens(s)[m].1,
{
    let l = line_ranges(s);
    let toks = lex_tokens(s);
    lemma_lines_shape(s, 0);
    reveal(shaped);
    lemma_lex_covers(s, l, 0, -1, 0, false);
    assert forall|j: int| 0 <= j < l.len() && !line_blank(s, l, j) implies exists|m: int|
        0 <= m < toks.len() && (#[trigger] toks[m]).0 <= (#[trigger] l[j]).0 < toks[m].1 by {
        let m = choose|m: int| 0 <= m < toks.len() && (#[trigger] toks[m]).0 <= (#[trigger] l[j]).0 < toks[m].1;
    }
}

/// Leading ASCII whitespace skipped, the text starts with `$$`.
pub open spec fn starts_dd(t: Seq<char>) -> bool {
    let u = trim_start_js(t);
    u.len() >= 2 && u[0] == '$' && u[1] == '$'
}

/// Trailing ASCII whitespace skipped, the text ends with `$$`.
pub open spec fn ends_dd(t: Seq<char>) -> bool {
    let u = trim_end_js(t);
    u.len() >= 2 && u[u.len() - 1] == '$' && u[u.len() - 2] == '$'
}

fn starts_dd_in(t: &[char]) -> (b: bool)
    ensures
        b == starts_dd(t@),
{
    let a = trim_start_js_len(t);
    let n = t.len();
    assert(t@.skip(a as int).len() == n - a);
    n - a >= 2 && t[a] == '$' && t[a + 1] == '$'
}

fn ends_dd_in(t: &[char]) -> (b: bool)
    ensures
        b == ends_dd(t@),
{
    let e = trim_end_js_len(t);
    e >= 2 && t[e - 1] == '$' && t[e - 2] == '$'
}

/// Length of the leading run of ASCII letters, digits and `_`.
pub open spec fn word_len(t: Seq<char>) -> int
    decreases t.len(),
{
    if t.len() > 0 && (crate::text::is_ascii_alnum(t[0]) || t[0] == '_') {
        1 + word_len(t.drop_first())
    } else {
        0
    }
}

/// The tag a block opens without closing it (`<tag>` or `<tag ...` with no
/// `</tag>` in the block), if any.
pub open spec fn opened_tag(tok: Seq<char>) -> Option<Seq<char>> {
    let t = trim_start_js(tok);
    let after = t.skip(1);
    let n = word_len(after);
    let tag = after.take(n);
    let closing = seq!['<', '/'] + tag + seq!['>'];
    if t.len() > 0 && t[0] == '<' && n > 0 && n < after.len() && (after[n] == '>' || is_js_ws(
        after[n],
    )) && find_seq(tok, closing, 0) < 0 {
        Some(tag)
    } else {
        None
    }
}

/// Length of the leading run of Unicode whitespace.
pub open spec fn white_len(t: Seq<char>) -> int
    decreases t.len(),
{
    if t.len() > 0 && is_white(t[0]) {
        1 + white_len(t.drop_first())
    } else {
        0
    }
}

/// Length of the leading run of non-whitespace.
pub open spec fn nonwhite_len(t: Seq<char>) -> int
    decreases t.len(),
{
    if t.len() > 0 && !is_white(t[0]) {
        1 + nonwhite_len(t.drop_first())
    } else {
        0
    }
}

/// `s` with trailing `>` and `/` removed.
pub open spec fn trim_tag_end(s: Seq<char>) -> Seq<char>
    decreases s.len(),
{
    if s.len() > 0 && (s.last() == '>' || s.last() == '/' || s.last() == '\n') {
        trim_tag_end(s.drop_last())
    } else {
        s
    }
}

/// The tag named right after the first `</` of the block, if any.
pub open spec fn closing_tag(tok: Seq<char>) -> Option<Seq<char>> {
    let c = find_seq(tok, seq!['<', '/'], 0);
    let rest = tok.skip(c + 2);
    let r2 = rest.skip(white_len(rest));
    let w = r2.take(nonwhite_len(r2));
    if c >= 0 && w.len() > 0 {
        Some(trim_tag_end(w))
    } else {
        None
    }
}

/// The block tokens `toks[k..]` merged: unclosed HTML blocks absorb the
/// following blocks (joined by a newline) until their closing tag, and an
/// unclosed `$$` block absorbs the block that closes it.
pub open spec fn merge_from(
    s: Seq<char>,
    toks: Seq<(usize, usize)>,
    k: int,
    merged: Seq<Seq<char>>,
    stack: Seq<Seq<char>>,
) -> Seq<Seq<char>>
    decreases toks.len() - k,
{
    if k < 0 || k >= toks.len() {
        merged
    } else {
        let tok = s.subrange(toks[k].0 as int, toks[k].1 as int);
        let last = merged.len() - 1;
        let prev = merged[last];
        if stack.len() > 0 && merged.len() > 0 {
            let m2 = merged.update(last, prev + seq!['\n'] + tok);
            let st2 = match closing_tag(tok) {
                Some(tag) => if stack.last() == tag {
                    stack.drop_last()
                } else {
                    stack
                },
                None => stack,
            };
            merge_from(s, toks, k + 1, m2, st2)
        } else {
            let st2 = match opened_tag(tok) {
                Some(tag) => stack.push(tag),
                None => stack,
            };
            let joins = merged.len() > 0 && starts_dd(prev) && count_occ(prev, seq!['$', '$']) % 2
                == 1 && (is_dd(trim_white(tok)) || (ends_dd(tok) && !starts_dd(tok) && count_occ(
                tok,
                seq!['$', '$'],
            ) == 1));
            if joins {
                merge_from(s, toks, k + 1, merged.update(last, prev + tok), st2)
            } else {
                merge_from(s, toks, k + 1, merged.push(tok), st2)
            }
        }
    }
}

/// The blocks of a markdown text: the whole text when it has footnotes,
/// else the merged block tokens.
pub open spec fn blocks_spec(s: Seq<char>) -> Seq<Seq<char>> {
    if refs_from(s, 0).len() > 0 || defs_from(s, 0).len() > 0 {
        seq![s]
    } else {
        merge_from(s, lex_tokens(s), 0, Seq::empty(), Seq::empty())
    }
}

/// A character that is not whitespace lies on a line that is not blank.
proof fn lemma_nonwhite_line(s: Seq<char>, l: Seq<(usize, usize)>, j: int, k: int)
    requires
        lines_shape(s, l, 0),
        0 <= k < l.len(),
        l[k].0 <= j < s.len(),
        !is_white(s[j]),
    ensures
        exists|m: int| k <= m < l.len() && !line_blank(s, l, m),
    decreases l.len() - k,
{
    if j < l[k].1 {
        let sub = s.subrange(l[k].0 as int, l[k].1 as int);
        assert(sub[j - l[k].0] == s[j]);
        assert(!all_white(sub));
        assert(!line_blank(s, l, k));
    } else {
        assert(k < l.len() - 1);
        assert(s[l[k].1 as int] == '\n');
        lemma_nonwhite_line(s, l, j, k + 1);
    }
}

/// With a token open, lexing yields at least one token.
proof fn lemma_lex_open(
    s: Seq<char>,
    l: Seq<(usize, usize)>,
    k: int,
    ts: int,
    tls: int,
    in_fence: bool,
)
    requires
        ts >= 0,
    ensures
        lex_from(s, l, k, ts, tls, in_fence).len() > 0,
    decreases l.len() - k,
{
    if 0 <= k < l.len() {
        let t = trimmed_line(s, l, k);
        let off = l[k].0 as int;
        if in_fence {
            lemma_lex_open(s, l, k + 1, ts, tls, !starts_fence(t));
        } else if line_blank(s, l, k) {
        } else if starts_fence(t) {
        } else if starts_block(s.subrange(off, l[k].1 as int)) && ts >= 0 && k > tls {
        } else {
            lemma_lex_open(s, l, k + 1, ts, tls, false);
        }
    }
}

/// Lexing from a line with no token open yields a token when a later line
/// is not blank.
proof fn lemma_lex_nonblank(s: Seq<char>, l: Seq<(usize, usize)>, k: int, tls: int)
    requires
        0 <= k < l.len(),
        exists|m: int| k <= m < l.len() && !line_blank(s, l, m),
    ensures
        lex_from(s, l, k, -1, tls, false).len() > 0,
    decreases l.len() - k,
{
    let t = trimmed_line(s, l, k);
    let off = l[k].0 as int;
    if line_blank(s, l, k) {
        let m = choose|m: int| k <= m < l.len() && !line_blank(s, l, m);
        assert(m != k);
        lemma_lex_nonblank(s, l, k + 1, k + 1);
        assert(lex_from(s, l, k, -1, tls, false) == Seq::<(usize, usize)>::empty() + lex_from(
            s,
            l,
            k + 1,
            -1,
            k + 1,
            false,
        ));
    } else if starts_fence(t) {
        lemma_lex_open(s, l, k + 1, off, k, true);
        assert(lex_from(s, l, k, -1, tls, false) == Seq::<(usize, usize)>::empty() + lex_from(
            s,
            l,
            k + 1,
            off,
            k,
            true,
        ));
    } else {
        lemma_lex_open(s, l, k + 1, off, k, false);
    }
}

/// Merging never loses a block already merged.
proof fn lemma_merge_grows(
    s: Seq<char>,
    toks: Seq<(usize, usize)>,
    k: int,
    merged: Seq<Seq<char>>,
    stack: Seq<Seq<char>>,
)
    ensures
        merge_from(s, toks, k, merged, stack).len() >= merged.len(),
    decreases toks.len() - k,
{
    if 0 <= k < toks.len() {
        let tok = s.subrange(toks[k].0 as int, toks[k].1 as int);
        let last = merged.len() - 1;
        let prev = merged[last];
        if stack.len() > 0 && merged.len() > 0 {
            let m2 = merged.update(last, prev + seq!['\n'] + tok);
            let st2 = match closing_tag(tok) {
                Some(tag) => if stack.last() == tag {
                    stack.drop_last()
                } else {
                    stack
                },
                None => stack,
            };
            lemma_merge_grows(s, toks, k + 1, m2, st2);
        } else {
            let st2 = match opened_tag(tok) {
                Some(tag) => stack.push(tag),
                None => stack,
            };
            let joins = merged.len() > 0 && starts_dd(prev) && count_occ(prev, seq!['$', '$']) % 2
                == 1 && (is_dd(trim_white(tok)) || (ends_dd(tok) && !starts_dd(tok) && count_occ(
                tok,
                seq!['$', '$'],
            ) == 1));
            if joins {
                lemma_merge_grows(s, toks, k + 1, merged.update(last, prev + tok), st2);
            } else {
                lemma_merge_grows(s, toks, k + 1, merged.push(tok), st2);
            }
        }
    }
}

/// A text with a character that is not whitespace splits into at least one
/// block.
pub proof fn lemma_blocks_nonempty(s: Seq<char>, j: int)
    requires
        s.len() <= usize::MAX,
        0 <= j < s.len(),
        !is_white(s[j]),
    ensures
        blocks_spec(s).len() > 0,
{
    if !(refs_from(s, 0).len() > 0 || defs_from(s, 0).len() > 0) {
        let l = line_ranges(s);
        lemma_lines_shape(s, 0);
        lemma_nonwhite_line(s, l, j, 0);
        lemma_lex_nonblank(s, l, 0, 0);
        let toks = lex_tokens(s);
        let tok = s.subrange(toks[0].0 as int, toks[0].1 as int);
        let st2 = match opened_tag(tok) {
            Some(tag) => Seq::<Seq<char>>::empty().push(tag),
            None => Seq::<Seq<char>>::empty(),
        };
        lemma_merge_grows(s, toks, 1, Seq::<Seq<char>>::empty().push(tok), st2);
    }
}

fn opened_tag_in(tok: &[char]) -> (r: Option<Vec<char>>)
    ensures
        match r {
            Some(v) => opened_tag(tok@) == Some(v@),
            None => opened_tag(tok@) is None,
        },
{
    let a = trim_start_js_len(tok);
    let t = sub_vec(tok, a, tok.len());
    assert(t@ == trim_start_js(tok@));
    if t.len() == 0 || t[0] != '<' {
        return None;
    }
    let tl = t.len();
    let after = sub_vec(&t, 1, tl);
    assert(after@ == t@.skip(1));
    let mut n: usize = 0;
    assert(after@.skip(0) == after@);
    while n < after.len() && ((('a' <= after[n] && after[n] <= 'z') || ('A' <= after[n]
        && after[n] <= 'Z') || ('0' <= after[n] && after[n] <= '9')) || after[n] == '_')
        invariant
            n <= after.len(),
            n + word_len(after@.skip(n as int)) == word_len(after@),
        decreases after.len() - n,
    {
        assert(after@.skip(n as int).drop_first() == after@.skip(n + 1));
        n += 1;
    }
    if n == 0 || n >= after.len() || !(after[n] == '>' || is_js_ws_char(after[n])) {
        return None;
    }
    let tag = sub_vec(&after, 0, n);
    let mut closing: Vec<char> = vec!['<', '/'];
    extend_all(&mut closing, &tag);
    closing.push('>');
    assert(closing@ == seq!['<', '/'] + tag@ + seq!['>']);
    if find_seq_from(tok, &closing, 0).is_some() {
        return None;
    }
    Some(tag)
}

fn closing_tag_in(tok: &[char]) -> (r: Option<Vec<char>>)
    ensures
        match r {
            Some(v) => closing_tag(tok@) == Some(v@),
            None => closing_tag(tok@) is None,
        },
{
    let open = vec!['<', '/'];
    assert(open@ == seq!['<', '/']);
    let c = match find_seq_from(tok, &open, 0) {
        Some(c) => c,
        None => {
            return None;
        },
    };
    proof {
        crate::text::lemma_find_seq_bounds(tok@, open@, 0);
    }
    assert(c + 2 <= tok.len());
    let rest = sub_vec(tok, c + 2, tok.len());
    assert(rest@ == tok@.skip(c + 2));
    tag_word_in(&rest)
}

/// The word after leading whitespace of `rest`, without trailing `>`, `/`
/// and newlines; `None` when there is no word.
fn tag_word_in(rest: &[char]) -> (r: Option<Vec<char>>)
    ensures
        ({
            let r2 = rest@.skip(white_len(rest@));
            let w = r2.take(nonwhite_len(r2));
            match r {
                Some(v) => w.len() > 0 && v@ == trim_tag_end(w),
                None => w.len() == 0,
            }
        }),
{
    let mut a: usize = 0;
    assert(rest@.skip(0) == rest@);
    while a < rest.len() && is_white_char(rest[a])
        invariant
            a <= rest.len(),
            a + white_len(rest@.skip(a as int)) == white_len(rest@),
        decreases rest.len() - a,
    {
        assert(rest@.skip(a as int).drop_first() == rest@.skip(a + 1));
        a += 1;
    }
    let rl = rest.len();
    let r2 = sub_vec(&rest, a, rl);
    assert(r2@ == rest@.skip(a as int));
    let mut w: usize = 0;
    assert(r2@.skip(0) == r2@);
    while w < r2.len() && !is_white_char(r2[w])
        invariant
            w <= r2.len(),
            w + nonwhite_len(r2@.skip(w as int)) == nonwhite_len(r2@),
        decreases r2.len() - w,
    {
        assert(r2@.skip(w as int).drop_first() == r2@.skip(w + 1));
        w += 1;
    }
    if w == 0 {
        return None;
    }
    let mut e = w;
    assert(r2@.take(w as int) == r2@.subrange(0, w as int));
    while e > 0 && (r2[e - 1] == '>' || r2[e - 1] == '/' || r2[e - 1] == '\n')
        invariant
            e <= w <= r2.len(),
            trim_tag_end(r2@.take(e as int)) == trim_tag_end(r2@.take(w as int)),
        decreases e,
    {
        assert(r2@.take(e as int).drop_last() == r2@.take(e - 1));
        e -= 1;
    }
    Some(sub_vec(&r2, 0, e))
}

/// The views of a vector of character vectors.
pub open spec fn views(v: Seq<Vec<char>>) -> Seq<Seq<char>> {
    v.map_values(|x: Vec<char>| x@)
}

fn merge_in(s: &[char], toks: &Vec<(usize, usize)>) -> (r: Vec<Vec<char>>)
    requires
        forall|m: int| 0 <= m < toks@.len() ==> (#[trigger] toks@[m]).0 <= toks@[m].1 <= s@.len(),
    ensures
        views(r@) == merge_from(s@, toks@, 0, Seq::empty(), Seq::empty()),
{
    let mut merged: Vec<Vec<char>> = Vec::new();
    let mut stack: Vec<Vec<char>> = Vec::new();
    let mut k: usize = 0;
    assert(views(merged@) =~= Seq::<Seq<char>>::empty());
    assert(views(stack@) =~= Seq::<Seq<char>>::empty());
    while k < toks.len()
        invariant
            k <= toks.len(),
            forall|m: int| 0 <= m < toks@.len() ==> (#[trigger] toks@[m]).0 <= toks@[m].1
                <= s@.len(),
            merge_from(s@, toks@, k as int, views(merged@), views(stack@)) == merge_from(
                s@,
                toks@,
                0,
                Seq::empty(),
                Seq::empty(),
            ),
        decreases toks.len() - k,
    {
        let (a, b) = toks[k];
        let tok = sub_vec(s, a, b);
        let ghost ms = views(merged@);
        let ghost ss = views(stack@);
        if stack.len() > 0 && merged.len() > 0 {
            let ghost old_m = merged@;
            let mut prev = merged.pop().unwrap();
            assert(merged@ == old_m.drop_last());
            assert(prev@ == ms[ms.len() - 1]);
            prev.push('\n');
            extend_all(&mut prev, &tok);
            assert(prev@ =~= ms[ms.len() - 1] + seq!['\n'] + tok@);
            merged.push(prev);
            assert(merged@ == old_m.drop_last().push(prev));
            assert(views(merged@) =~= ms.update(ms.len() - 1, ms[ms.len() - 1] + seq!['\n']
                + tok@));
            match closing_tag_in(&tok) {
                Some(tag) => {
                    let top_matches = chars_eq(&stack[stack.len() - 1], &tag);
                    assert(stack@[stack@.len() - 1]@ == ss.last());
                    if top_matches {
                        stack.pop();
                        assert(views(stack@) =~= ss.drop_last());
                    }
                },
                None => {},
            }
            k += 1;
            continue;
        }
        match opened_tag_in(&tok) {
            Some(tag) => {
                stack.push(tag);
                assert(views(stack@) =~= ss.push(tag@));
            },
            None => {},
        }
        let mut joins = false;
        if merged.len() > 0 {
            let last = merged.len() - 1;
            assert(merged@[last as int]@ == ms[last as int]);
            let dd = vec!['$', '$'];
            assert(dd@ == seq!['$', '$']);
            let p_ok = starts_dd_in(&merged[last]) && count_in(&merged[last], &dd) % 2 == 1;
            let t = trim_white_vec(&tok);
            let t_dd = t.len() == 2 && t[0] == '$' && t[1] == '$';
            assert(t_dd == is_dd(t@)) by {
                if t_dd {
                    assert(t@ =~= seq!['$', '$']);
                }
                if is_dd(t@) {
                    assert(t@.len() == 2 && t@[0] == '$' && t@[1] == '$');
                }
            }
            joins = p_ok && (t_dd || (ends_dd_in(&tok) && !starts_dd_in(&tok) && count_in(
                &tok,
                &dd,
            ) == 1));
        }
        if joins {
            let ghost old_m = merged@;
            let mut prev = merged.pop().unwrap();
            assert(merged@ == old_m.drop_last());
            assert(prev@ == ms[ms.len() - 1]);
            extend_all(&mut prev, &tok);
            merged.push(prev);
            assert(merged@ == old_m.drop_last().push(prev));
            assert(views(merged@) =~= ms.update(ms.len() - 1, ms[ms.len() - 1] + tok@));
        } else {
            merged.push(tok);
            assert(views(merged@) =~= ms.push(s@.subrange(a as int, b as int)));
        }
        k += 1;
    }
    merged
}

pub fn blocks_in(s: &[char]) -> (r: Vec<Vec<char>>)
    ensures
        views(r@) == blocks_spec(s@),
{
    if refs_in(s).len() > 0 || defs_in(s).len() > 0 {
        let mut r: Vec<Vec<char>> = Vec::new();
        let whole = sub_vec(s, 0, s.len());
        assert(whole@ == s@);
        r.push(whole);
        assert(views(r@) =~= seq![s@]);
        return r;
    }
    let toks = lex_tokens_in(s);
    merge_in(s, &toks)
}

/// Split markdown into logical blocks. Footnotes collapse the whole document into
/// a single block; unclosed HTML tags and unclosed `$$` math merge across blocks.
pub fn parse_markdown_into_blocks(markdown: &str) -> (r: Vec<String>)
    ensures
        r@.len() == blocks_spec(markdown@).len(),
        forall|k: int| 0 <= k < r@.len() ==> (#[trigger] r@[k])@ == blocks_spec(markdown@)[k],
{
    let v = chars_of(markdown);
    let b = blocks_in(&v);
    let mut out: Vec<String> = Vec::new();
    let mut k: usize = 0;
    while k < b.len()
        invariant
            k <= b.len(),
            views(b@) == blocks_spec(markdown@),
            out@.len() == k,
            forall|m: int| 0 <= m < k ==> (#[trigger] out@[m])@ == blocks_spec(markdown@)[m],
        decreases b.len() - k,
    {
        assert(b@[k as int]@ == views(b@)[k as int]);
        out.push(string_of(&b[k]));
        k += 1;
    }
    out
}

/// A text with a footnote reference or definition is one block: the whole text.
pub proof fn lemma_footnotes_keep_text_whole(s: Seq<char>)
    requires
        refs_from(s, 0).len() > 0 || defs_from(s, 0).len() > 0,
    ensures
        blocks_spec(s) == seq![s],
{
}

} // verus!
