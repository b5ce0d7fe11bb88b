//! Scanning helpers: whitespace, code fences, paragraphs, inline code, masking.
//!
//! The scanners over character slices (`*_in`) take character indices. The
//! public functions on `&str` take and return byte offsets, as `str` indexing
//! does: those that look for ASCII markers scan the byte view of the text
//! (`bytes::byte_view`), the others convert character indices with
//! `bytes::byte_offset`.
use vstd::prelude::*;
use crate::bytes::{
    byte_chars, byte_offset, byte_offset_of, byte_view, char_index_at, char_index_of, is_boundary,
    lemma_byte_offset_end, lemma_byte_offset_mono, lemma_byte_offset_step, utf8_len, utf8_width,
};
use crate::text::{
    matches_at, extend_all,    all_white, all_white_range, char_is_alphanumeric, extend_range, find_char, find_char_from,
    is_alphanumeric, lemma_find_char_bounds, string_of, chars_of, find_seq, is_js_ws, is_js_ws_char, lemma_find_seq_bounds, sub_vec, trim_end_js,
    trim_end_js_len, trim_end_white_len, trim_start_white_len, trim_white, find_seq_from,
};

verus! {

// ---------------------------------------------------------------------------
// whitespace, trimming, counting
// ---------------------------------------------------------------------------

/// ASCII whitespace: space, tab, newline, CR, FF, VT.
pub fn is_ws(c: char) -> (b: bool)
    ensures
        b == is_js_ws(c),
{
    is_js_ws_char(c)
}

/// `str::trim` (Unicode whitespace at both ends).
pub fn js_trim(s: &str) -> (r: &str)
    ensures
        r@ == trim_white(s@),
{
    let v = chars_of(s);
    let b = trim_end_white_len(&v);
    let t = sub_vec(&v, 0, b);
    let a = trim_start_white_len(&t);
    assert(t@.skip(a as int) == v@.subrange(a as int, b as int));
    s.substring_char(a, b)
}

/// Byte offset where the trailing ASCII-whitespace run of `s` starts (`/\s+$/`).
pub fn trailing_ws_offset(s: &str) -> (n: usize)
    ensures
        n as int == byte_offset(s@, trim_end_js(s@).len() as int),
{
    let v = chars_of(s);
    let k = trim_end_js_len(&v);
    byte_offset_of(s, k)
}

/// Number of non-overlapping occurrences of `pat` in `s` from `i` on,
/// found left to right.
pub open spec fn count_from(s: Seq<char>, pat: Seq<char>, i: int) -> nat
    decreases s.len() + 1 - i,
{
    if pat.len() == 0 || i < 0 || i > s.len() {
        0
    } else {
        let j = find_seq(s, pat, i);
        if j < 0 {
            0
        } else {
            proof {
                lemma_find_seq_bounds(s, pat, i);
            }
            1 + count_from(s, pat, j + pat.len())
        }
    }
}

/// Non-overlapping occurrences of `pat` in `s`.
pub open spec fn count_occ(s: Seq<char>, pat: Seq<char>) -> nat {
    count_from(s, pat, 0)
}

pub fn count_in(s: &[char], pat: &[char]) -> (n: usize)
    requires
        pat.len() > 0,
    ensures
        n == count_occ(s@, pat@),
{
    let mut n: usize = 0;
    let mut i: usize = 0;
    loop
        invariant
            pat.len() > 0,
            i <= s.len(),
            n <= i,
            n + count_from(s@, pat@, i as int) == count_occ(s@, pat@),
        decreases s.len() + 1 - i,
    {
        match find_seq_from(s, pat, i) {
            None => {
                return n;
            },
            Some(j) => {
                proof {
                    lemma_find_seq_bounds(s@, pat@, i as int);
                }
                n += 1;
                i = j + pat.len();
            },
        }
    }
}

/// Count non-overlapping occurrences of `needle` (which must not be empty),
/// searching byte by byte.
pub fn count_of(text: &str, needle: &str) -> (n: usize)
    requires
        byte_view(needle).len() > 0,
    ensures
        n == count_occ(byte_view(text), byte_view(needle)),
{
    let t = byte_chars(text);
    let p = byte_chars(needle);
    count_in(&t, &p)
}

// ---------------------------------------------------------------------------
// fenced code
// ---------------------------------------------------------------------------

/// A ` ``` ` starts at `i`.
pub open spec fn triple_at(s: Seq<char>, i: int) -> bool {
    0 <= i && i + 3 <= s.len() && s[i] == '`' && s[i + 1] == '`' && s[i + 2] == '`'
}

/// First ` ``` ` at or after `i`, or -1.
pub open spec fn find_triple(s: Seq<char>, i: int) -> int
    decreases s.len() - i,
{
    if i < 0 || i + 3 > s.len() {
        -1
    } else if triple_at(s, i) {
        i
    } else {
        find_triple(s, i + 1)
    }
}

pub proof fn lemma_find_triple(s: Seq<char>, i: int)
    ensures
        find_triple(s, i) == -1 || (i <= find_triple(s, i) && triple_at(s, find_triple(s, i))),
        find_triple(s, i) != -1 ==> forall|k: int| i <= k < find_triple(s, i) ==> !triple_at(s, k),
        find_triple(s, i) == -1 && i >= 0 ==> forall|k: int| i <= k ==> !triple_at(s, k),
    decreases s.len() - i,
{
    if !(i < 0 || i + 3 > s.len()) && !triple_at(s, i) {
        lemma_find_triple(s, i + 1);
    }
}

pub fn find_triple_from(s: &[char], i: usize) -> (r: Option<usize>)
    ensures
        match r {
            Some(j) => j as int == find_triple(s@, i as int),
            None => find_triple(s@, i as int) == -1,
        },
{
    let mut j = i;
    while j < s.len() && s.len() - j >= 3
        invariant
            i <= j,
            find_triple(s@, i as int) == find_triple(s@, j as int),
        decreases s.len() - j,
    {
        if s[j] == '`' && s[j + 1] == '`' && s[j + 2] == '`' {
            return Some(j);
        }
        j += 1;
    }
    None
}

/// Closed fences ` ```...``` ` found left to right from `search`, as `[start, end)`.
pub open spec fn code_ranges_from(s: Seq<char>, search: int) -> Seq<(usize, usize)>
    decreases s.len() - search,
{
    let start = find_triple(s, search);
    if search < 0 || start < 0 {
        Seq::empty()
    } else {
        let close = find_triple(s, start + 3);
        if close < 0 {
            Seq::empty()
        } else {
            proof {
                lemma_find_triple(s, search);
                lemma_find_triple(s, start + 3);
            }
            seq![(start as usize, (close + 3) as usize)] + code_ranges_from(s, close + 3)
        }
    }
}

/// All closed fenced code ranges of `s` (`/```[\s\S]*?```/g`).
pub open spec fn closed_code_ranges(s: Seq<char>) -> Seq<(usize, usize)> {
    code_ranges_from(s, 0)
}

/// The ranges are ordered, disjoint and within `len`.
pub open spec fn ranges_well_formed(r: Seq<(usize, usize)>, len: int) -> bool {
    &&& forall|k: int| 0 <= k < r.len() ==> (#[trigger] r[k]).0 <= r[k].1 <= len
    &&& forall|k: int, m: int| 0 <= k < m < r.len() ==> (#[trigger] r[k]).1 <= (#[trigger] r[m]).0
}

pub proof fn lemma_code_ranges_wf(s: Seq<char>, search: int)
    requires
        0 <= search,
        s.len() <= usize::MAX,
    ensures
        ranges_well_formed(code_ranges_from(s, search), s.len() as int),
        forall|k: int|
            0 <= k < code_ranges_from(s, search).len() ==> search <= #[trigger] code_ranges_from(
                s,
                search,
            )[k].0,
    decreases s.len() - search,
{
    let start = find_triple(s, search);
    lemma_find_triple(s, search);
    if start >= 0 {
        let close = find_triple(s, start + 3);
        lemma_find_triple(s, start + 3);
        if close >= 0 {
            lemma_code_ranges_wf(s, close + 3);
            let rest = code_ranges_from(s, close + 3);
            let all = code_ranges_from(s, search);
            assert(all == seq![(start as usize, (close + 3) as usize)] + rest);
            assert forall|k: int, m: int| 0 <= k < m < all.len() implies (#[trigger] all[k]).1
                <= (#[trigger] all[m]).0 by {
                if k > 0 {
                    assert(all[k] == rest[k - 1]);
                }
                assert(all[m] == rest[m - 1]);
            }
            assert forall|k: int| 0 <= k < all.len() implies search <= #[trigger] all[k].0 by {
                if k > 0 {
                    assert(all[k] == rest[k - 1]);
                }
            }
        }
    }
}

pub fn code_ranges_in(s: &[char]) -> (r: Vec<(usize, usize)>)
    ensures
        r@ == closed_code_ranges(s@),
{
    let mut ranges: Vec<(usize, usize)> = Vec::new();
    let mut search: usize = 0;
    loop
        invariant
            search <= s.len(),
            ranges@ + code_ranges_from(s@, search as int) == closed_code_ranges(s@),
        decreases s.len() - search,
    {
        match find_triple_from(s, search) {
            None => {
                assert(ranges@ + code_ranges_from(s@, search as int) == ranges@);
                return ranges;
            },
            Some(start) => {
                proof {
                    lemma_find_triple(s@, search as int);
                }
                match find_triple_from(s, start + 3) {
                    None => {
                        assert(ranges@ + code_ranges_from(s@, search as int) == ranges@);
                        return ranges;
                    },
                    Some(close) => {
                        proof {
                            lemma_find_triple(s@, start + 3);
                        }
                        let ghost old_r = ranges@;
                        ranges.push((start, close + 3));
                        assert(old_r + code_ranges_from(s@, search as int) == ranges@
                            + code_ranges_from(s@, close + 3));
                        search = close + 3;
                    },
                }
            },
        }
    }
}

/// `/```[\s\S]*?```/g` — all closed fenced code ranges `[start, end)`, in bytes.
pub fn find_closed_code_block_ranges(content: &str) -> (r: Vec<(usize, usize)>)
    ensures
        r@ == closed_code_ranges(byte_view(content)),
{
    let v = byte_chars(content);
    code_ranges_in(&v)
}

/// The fence search and the search for the fence pattern agree.
proof fn lemma_find_triple_seq(s: Seq<char>, i: int)
    requires
        0 <= i,
    ensures
        find_triple(s, i) == find_seq(s, fence(), i),
    decreases s.len() - i,
{
    let t = fence();
    if i + 3 <= s.len() {
        if triple_at(s, i) {
            assert(s.subrange(i, i + 3) =~= t);
        } else {
            assert(!matches_at(s, i, t)) by {
                if matches_at(s, i, t) {
                    assert(s.subrange(i, i + 3)[0] == s[i]);
                    assert(s.subrange(i, i + 3)[1] == s[i + 1]);
                    assert(s.subrange(i, i + 3)[2] == s[i + 2]);
                }
            }
            lemma_find_triple_seq(s, i + 1);
        }
    }
}

/// Fences counted from `search`: two for each closed range, and at most one
/// more, left open at the end.
proof fn lemma_ranges_count(s: Seq<char>, search: int)
    requires
        0 <= search <= s.len(),
    ensures
        2 * code_ranges_from(s, search).len() <= count_from(s, fence(), search) <= 2
            * code_ranges_from(s, search).len() + 1,
    decreases s.len() - search,
{
    let t = fence();
    assert(t.len() == 3);
    lemma_find_triple_seq(s, search);
    lemma_find_triple(s, search);
    let start = find_triple(s, search);
    if start >= 0 {
        assert(count_from(s, t, search) == 1 + count_from(s, t, start + 3));
        lemma_find_triple_seq(s, start + 3);
        lemma_find_triple(s, start + 3);
        let close = find_triple(s, start + 3);
        if close >= 0 {
            assert(count_from(s, t, start + 3) == 1 + count_from(s, t, close + 3));
            lemma_ranges_count(s, close + 3);
        } else {
            assert(count_from(s, t, start + 3) == 0);
        }
    } else {
        assert(count_from(s, t, search) == 0);
    }
}

/// The closed fenced ranges pair up the fences left to right: there are half
/// as many ranges as fences, each starts and ends with a fence, spans at
/// least two fences' width, and holds no fence between them.
pub proof fn lemma_code_ranges_fences(s: Seq<char>)
    requires
        s.len() <= usize::MAX,
    ensures
        closed_code_ranges(s).len() == count_occ(s, fence()) / 2,
        forall|k: int|
            0 <= k < closed_code_ranges(s).len() ==> {
                let (a, e) = #[trigger] closed_code_ranges(s)[k];
                &&& a + 6 <= e <= s.len()
                &&& s.subrange(a as int, a + 3) == fence()
                &&& s.subrange(e - 3, e as int) == fence()
                &&& forall|j: int| a + 3 <= j < e - 3 ==> !triple_at(s, j)
            },
{
    lemma_ranges_count(s, 0);
    lemma_code_ranges_shape(s, 0);
}

proof fn lemma_code_ranges_shape(s: Seq<char>, search: int)
    requires
        0 <= search <= s.len(),
        s.len() <= usize::MAX,
    ensures
        forall|k: int|
            0 <= k < code_ranges_from(s, search).len() ==> {
                let (a, e) = #[trigger] code_ranges_from(s, search)[k];
                &&& a + 6 <= e <= s.len()
                &&& s.subrange(a as int, a + 3) == fence()
                &&& s.subrange(e - 3, e as int) == fence()
                &&& forall|j: int| a + 3 <= j < e - 3 ==> !triple_at(s, j)
            },
    decreases s.len() - search,
{
    lemma_find_triple(s, search);
    let start = find_triple(s, search);
    if start >= 0 {
        lemma_find_triple(s, start + 3);
        let close = find_triple(s, start + 3);
        if close >= 0 {
            lemma_code_ranges_shape(s, close + 3);
            let rest = code_ranges_from(s, close + 3);
            let all = code_ranges_from(s, search);
            assert(all == seq![(start as usize, (close + 3) as usize)] + rest);
            assert(s.subrange(start, start + 3) =~= fence());
            assert(s.subrange(close, close + 3) =~= fence());
            assert forall|k: int| 0 <= k < all.len() implies {
                let (a, e) = #[trigger] all[k];
                &&& a + 6 <= e <= s.len()
                &&& s.subrange(a as int, a + 3) == fence()
                &&& s.subrange(e - 3, e as int) == fence()
                &&& forall|j: int| a + 3 <= j < e - 3 ==> !triple_at(s, j)
            } by {
                if k > 0 {
                    assert(all[k] == rest[k - 1]);
                }
            }
        }
    }
}

/// The bytes of a fence read as a fence.
proof fn lemma_fence_bytes()
    ensures
        byte_view("```") == fence(),
{
    reveal_strlit("```");
    let t = "```"@;
    assert(t == seq!['`', '`', '`']);
    assert(96u32 & 0x7F == 96u32) by (bit_vector);
    assert(('`' as u32) == 96u32);
    reveal_with_fuel(vstd::utf8::encode_utf8, 4);
    assert(t.drop_first() =~= seq!['`', '`']);
    assert(t.drop_first().drop_first() =~= seq!['`']);
    assert(t.drop_first().drop_first().drop_first() =~= Seq::<char>::empty());
    assert(vstd::utf8::encode_scalar(96u32) =~= seq![96u8]);
    assert(vstd::utf8::encode_utf8(t) =~= seq![96u8, 96u8, 96u8]);
    assert(byte_view("```") =~= fence());
}

/// A text ends inside an unclosed fence exactly when `count_of` counts an
/// odd number of fences in it.
pub proof fn lemma_unclosed_fence_count(t: &str)
    ensures
        inside_unclosed_code(byte_view(t)) == (count_occ(byte_view(t), byte_view("```")) % 2 == 1),
{
    lemma_fence_bytes();
    lemma_unclosed_fence_parity(byte_view(t));
}

/// The closed fenced ranges of a text are half as many as the fences that
/// `count_of` counts in it.
pub proof fn lemma_fence_ranges_count(t: &str)
    requires
        byte_view(t).len() <= usize::MAX,
    ensures
        closed_code_ranges(byte_view(t)).len() == count_occ(byte_view(t), byte_view("```")) / 2,
{
    lemma_fence_bytes();
    lemma_code_ranges_fences(byte_view(t));
}

/// `pos` lies in one of the half-open ranges.
pub open spec fn in_ranges(pos: int, r: Seq<(usize, usize)>) -> bool {
    exists|k: int| 0 <= k < r.len() && (#[trigger] r[k]).0 <= pos < r[k].1
}

pub fn is_position_in_ranges(position: usize, ranges: &[(usize, usize)]) -> (b: bool)
    ensures
        b == in_ranges(position as int, ranges@),
{
    let mut k: usize = 0;
    while k < ranges.len()
        invariant
            k <= ranges.len(),
            forall|m: int|
                0 <= m < k ==> !((#[trigger] ranges@[m]).0 <= position < ranges@[m].1),
        decreases ranges.len() - k,
    {
        let (a, b) = ranges[k];
        if position >= a && position < b {
            return true;
        }
        k += 1;
    }
    false
}

/// `[start, end)` overlaps range `(rs, re)` in the way the scanners test it.
pub open spec fn overlaps(start: int, end: int, rs: int, re: int) -> bool {
    (start >= rs && start < re) || (end > rs && end <= re) || (start < rs && end > re)
}

/// `[start, end)` overlaps one of the ranges.
pub open spec fn overlaps_any(start: int, end: int, r: Seq<(usize, usize)>) -> bool {
    exists|k: int|
        0 <= k < r.len() && overlaps(start, end, (#[trigger] r[k]).0 as int, r[k].1 as int)
}

/// Whether `[start, end)` overlaps any range.
pub fn is_range_overlapping_ranges(start: usize, end: usize, ranges: &[(usize, usize)]) -> (b:
    bool)
    ensures
        b == overlaps_any(start as int, end as int, ranges@),
{
    let mut k: usize = 0;
    while k < ranges.len()
        invariant
            k <= ranges.len(),
            forall|m: int|
                0 <= m < k ==> !overlaps(
                    start as int,
                    end as int,
                    (#[trigger] ranges@[m]).0 as int,
                    ranges@[m].1 as int,
                ),
        decreases ranges.len() - k,
    {
        let (rs, re) = ranges[k];
        if (start >= rs && start < re) || (end > rs && end <= re) || (start < rs && end > re) {
            return true;
        }
        k += 1;
    }
    false
}

/// Toggling on each ` ``` ` scanned from `i` up to `pos`.
pub open spec fn code_toggle(s: Seq<char>, i: int, pos: int, in_code: bool) -> bool
    decreases s.len() - i,
{
    if i < 0 || i >= pos || i >= s.len() {
        in_code
    } else if triple_at(s, i) {
        code_toggle(s, i + 3, pos, !in_code)
    } else {
        code_toggle(s, i + 1, pos, in_code)
    }
}

/// Position `pos` is inside a fence opened before it.
pub open spec fn within_code(s: Seq<char>, pos: int) -> bool {
    code_toggle(s, 0, pos, false)
}

pub fn within_code_in(s: &[char], position: usize) -> (b: bool)
    ensures
        b == within_code(s@, position as int),
{
    let mut in_code = false;
    let mut i: usize = 0;
    while i < position && i < s.len()
        invariant
            code_toggle(s@, i as int, position as int, in_code) == within_code(s@, position as int),
        decreases s.len() - i,
    {
        if s.len() - i >= 3 && s[i] == '`' && s[i + 1] == '`' && s[i + 2] == '`' {
            in_code = !in_code;
            i += 3;
        } else {
            i += 1;
        }
    }
    in_code
}

/// Toggle on each ` ``` ` while scanning the bytes up to byte offset `position`.
pub fn is_within_code_block(text: &str, position: usize) -> (b: bool)
    ensures
        b == within_code(byte_view(text), position as int),
{
    let v = byte_chars(text);
    within_code_in(&v, position)
}

/// The text ends inside an unclosed fence.
pub open spec fn inside_unclosed_code(s: Seq<char>) -> bool {
    within_code(s, s.len() as int)
}

/// A fence: three backticks.
pub open spec fn fence() -> Seq<char> {
    seq!['`', '`', '`']
}

proof fn lemma_toggle_counts(s: Seq<char>, i: int, b: bool)
    requires
        0 <= i <= s.len(),
    ensures
        code_toggle(s, i, s.len() as int, b) == (b != (count_from(s, fence(), i) % 2 == 1)),
    decreases s.len() - i,
{
    let t = fence();
    if i < s.len() {
        if triple_at(s, i) {
            assert(s.subrange(i, i + 3) =~= t);
            assert(find_seq(s, t, i) == i);
            lemma_toggle_counts(s, i + 3, !b);
        } else {
            if i + 3 <= s.len() {
                assert(!matches_at(s, i, t)) by {
                    if matches_at(s, i, t) {
                        assert(s.subrange(i, i + 3)[0] == s[i]);
                        assert(s.subrange(i, i + 3)[1] == s[i + 1]);
                        assert(s.subrange(i, i + 3)[2] == s[i + 2]);
                    }
                }
            }
            assert(find_seq(s, t, i) == find_seq(s, t, i + 1));
            lemma_toggle_counts(s, i + 1, b);
        }
    } else {
        assert(find_seq(s, t, i) == -1);
    }
}

/// A text ends inside an unclosed fence exactly when it holds an odd number
/// of fences, counted left to right without overlap.
pub proof fn lemma_unclosed_fence_parity(s: Seq<char>)
    ensures
        inside_unclosed_code(s) == (count_occ(s, fence()) % 2 == 1),
{
    lemma_toggle_counts(s, 0, false);
}

/// The text ends inside an unclosed fence (scanning its bytes).
pub fn is_inside_unclosed_code_block(content: &str) -> (b: bool)
    ensures
        b == inside_unclosed_code(byte_view(content)),
{
    let v = byte_chars(content);
    within_code_in(&v, v.len())
}


// ---------------------------------------------------------------------------
// lines and paragraphs
// ---------------------------------------------------------------------------

/// Line ranges of `s` (split on `'\n'`) from `start` on, as `[begin, end)`.
pub open spec fn lines_from(s: Seq<char>, start: int) -> Seq<(usize, usize)>
    decreases s.len() + 1 - start,
{
    if start < 0 || start > s.len() {
        Seq::empty()
    } else {
        let e = find_char(s, '\n', start);
        if e < 0 {
            seq![(start as usize, s.len() as usize)]
        } else {
            proof {
                lemma_find_char_bounds(s, '\n', start);
            }
            seq![(start as usize, e as usize)] + lines_from(s, e + 1)
        }
    }
}

/// The lines of `s` (`str::split('\n')`), as character ranges.
pub open spec fn line_ranges(s: Seq<char>) -> Seq<(usize, usize)> {
    lines_from(s, 0)
}

/// Shape of the line ranges: contiguous, separated by single newlines,
/// newline-free, and covering `[start, len]`.
pub open spec fn lines_shape(s: Seq<char>, l: Seq<(usize, usize)>, start: int) -> bool {
    &&& l.len() >= 1
    &&& l[0].0 == start
    &&& l[l.len() - 1].1 == s.len()
    &&& forall|k: int| 0 <= k < l.len() ==> (#[trigger] l[k]).0 <= l[k].1 <= s.len()
    &&& forall|k: int| 0 <= k < l.len() - 1 ==> (#[trigger] l[k]).1 < s.len() && s[l[k].1 as int]
        == '\n' && l[k + 1].0 == l[k].1 + 1
    &&& forall|k: int, j: int|
        #![trigger l[k], s[j]]
        0 <= k < l.len() && l[k].0 <= j < l[k].1 ==> s[j] != '\n'
}

pub proof fn lemma_lines_shape(s: Seq<char>, start: int)
    requires
        0 <= start <= s.len(),
        s.len() <= usize::MAX,
    ensures
        lines_shape(s, lines_from(s, start), start),
    decreases s.len() + 1 - start,
{
    let e = find_char(s, '\n', start);
    lemma_find_char_bounds(s, '\n', start);
    let l = lines_from(s, start);
    if e >= 0 {
        lemma_lines_shape(s, e + 1);
        let rest = lines_from(s, e + 1);
        assert(l == seq![(start as usize, e as usize)] + rest);
        assert forall|k: int| 0 <= k < l.len() implies (#[trigger] l[k]).0 <= l[k].1 <= s.len() by {
            if k > 0 {
                assert(l[k] == rest[k - 1]);
            }
        }
        assert forall|k: int| 0 <= k < l.len() - 1 implies (#[trigger] l[k]).1 < s.len()
            && s[l[k].1 as int] == '\n' && l[k + 1].0 == l[k].1 + 1 by {
            if k > 0 {
                assert(l[k] == rest[k - 1]);
            }
            assert(l[k + 1] == rest[k]);
        }
        assert forall|k: int, j: int|
            #![trigger l[k], s[j]]
            0 <= k < l.len() && l[k].0 <= j < l[k].1 implies s[j] != '\n' by {
            if k > 0 {
                assert(l[k] == rest[k - 1]);
            }
        }
    }
}

pub fn line_ranges_in(s: &[char]) -> (r: Vec<(usize, usize)>)
    ensures
        r@ == line_ranges(s@),
        lines_shape(s@, r@, 0),
{
    proof {
        assert(s@.len() == s.len());
        lemma_lines_shape(s@, 0);
    }
    let mut out: Vec<(usize, usize)> = Vec::new();
    let mut start: usize = 0;
    loop
        invariant
            start <= s.len(),
            out@ + lines_from(s@, start as int) == line_ranges(s@),
        decreases s.len() - start,
    {
        match find_char_from(s, '\n', start) {
            None => {
                let ghost old_out = out@;
                out.push((start, s.len()));
                assert(out@ == old_out + lines_from(s@, start as int));
                proof {
                    assert(s@.len() == s.len());
                    lemma_lines_shape(s@, 0);
                }
                return out;
            },
            Some(e) => {
                proof {
                    lemma_find_char_bounds(s@, '\n', start as int);
                }
                let ghost old_out = out@;
                out.push((start, e));
                assert(old_out + lines_from(s@, start as int) == out@ + lines_from(s@, e + 1));
                start = e + 1;
            },
        }
    }
}

/// Line `k` of `s` is blank (only Unicode whitespace).
pub open spec fn line_blank(s: Seq<char>, l: Seq<(usize, usize)>, k: int) -> bool {
    all_white(s.subrange(l[k].0 as int, l[k].1 as int))
}

/// Index of the line after the last blank line at or before line `i`
/// (skipping a blank final line when `skip` holds), or 0.
pub open spec fn para_scan(s: Seq<char>, l: Seq<(usize, usize)>, i: int, skip: bool) -> int
    decreases i + 1,
{
    if i < 0 {
        0
    } else if skip && i == l.len() - 1 && line_blank(s, l, i) {
        para_scan(s, l, i - 1, skip)
    } else if line_blank(s, l, i) {
        i + 1
    } else {
        para_scan(s, l, i - 1, skip)
    }
}

/// `(start_line, offset)` of the last paragraph: the text after the last blank line.
pub open spec fn last_para_range(s: Seq<char>, skip: bool) -> (usize, usize) {
    let l = line_ranges(s);
    let k = para_scan(s, l, l.len() - 1, skip);
    let off = if k == 0 {
        0
    } else if l[k - 1].1 + 1 <= s.len() {
        l[k - 1].1 + 1
    } else {
        s.len() as int
    };
    (k as usize, off as usize)
}

/// Start offset of the last paragraph.
pub open spec fn last_para_start(s: Seq<char>, skip: bool) -> int {
    last_para_range(s, skip).1 as int
}

/// The last paragraph.
pub open spec fn last_para(s: Seq<char>, skip: bool) -> Seq<char> {
    s.skip(last_para_start(s, skip))
}

pub proof fn lemma_para_scan_bound(s: Seq<char>, l: Seq<(usize, usize)>, i: int, skip: bool)
    requires
        -1 <= i < l.len(),
    ensures
        0 <= para_scan(s, l, i, skip) <= i + 1,
    decreases i + 1,
{
    if i >= 0 {
        lemma_para_scan_bound(s, l, i - 1, skip);
    }
}

fn para_scan_in(s: &[char], l: &Vec<(usize, usize)>, skip: bool) -> (k: usize)
    requires
        lines_shape(s@, l@, 0),
    ensures
        k as int == para_scan(s@, l@, l@.len() - 1, skip),
        k <= l.len(),
{
    proof {
        lemma_para_scan_bound(s@, l@, l@.len() - 1, skip);
    }
    let n = l.len();
    let mut i = n;
    while i > 0
        invariant
            lines_shape(s@, l@, 0),
            n == l.len(),
            i <= n,
            para_scan(s@, l@, i - 1, skip) == para_scan(s@, l@, n - 1, skip),
        decreases i,
    {
        let (a, b) = l[i - 1];
        let blank = all_white_range(s, a, b);
        if skip && i == n && blank {
            i -= 1;
        } else if blank {
            return i;
        } else {
            i -= 1;
        }
    }
    0
}

pub fn last_para_range_in(s: &[char], skip: bool) -> (r: (usize, usize))
    ensures
        r == last_para_range(s@, skip),
        r.1 <= s.len(),
{
    let l = line_ranges_in(s);
    let k = para_scan_in(s, &l, skip);
    if k == 0 {
        (0, 0)
    } else {
        let end = l[k - 1].1;
        if end < s.len() {
            (k, end + 1)
        } else {
            (k, s.len())
        }
    }
}

/// Last paragraph = content after the last blank line.
/// Returns `(start_line_index, byte_offset_of_start)`.
pub fn last_paragraph_range(content: &str, skip_trailing_empty: bool) -> (r: (usize, usize))
    ensures
        r.0 == last_para_range(content@, skip_trailing_empty).0,
        r.1 as int == byte_offset(
            content@,
            last_para_range(content@, skip_trailing_empty).1 as int,
        ),
{
    let v = chars_of(content);
    let (line, offset) = last_para_range_in(&v, skip_trailing_empty);
    (line, byte_offset_of(content, offset))
}

/// The text of the last paragraph.
pub fn last_paragraph(content: &str, skip_trailing_empty: bool) -> (r: &str)
    ensures
        r@ == last_para(content@, skip_trailing_empty),
{
    let v = chars_of(content);
    let (_line, offset) = last_para_range_in(&v, skip_trailing_empty);
    let len = v.len();
    content.substring_char(offset, len)
}

/// Index of the last line that is not blank, or -1.
pub open spec fn last_nonblank(lines: Seq<&str>, i: int) -> int
    decreases i + 1,
{
    if i < 0 {
        -1
    } else if !all_white(lines[i]@) {
        i
    } else {
        last_nonblank(lines, i - 1)
    }
}

/// Index of the last non-blank line, or -1.
pub fn last_non_empty_line_index(lines: &[&str]) -> (r: isize)
    requires
        lines.len() <= isize::MAX,
    ensures
        r == last_nonblank(lines@, lines@.len() - 1),
{
    let mut i = lines.len();
    while i > 0
        invariant
            i <= lines.len() <= isize::MAX,
            last_nonblank(lines@, i - 1) == last_nonblank(lines@, lines@.len() - 1),
        decreases i,
    {
        let v = chars_of(lines[i - 1]);
        if !all_white_range(&v, 0, v.len()) {
            assert(v@.subrange(0, v@.len() as int) == v@);
            return (i - 1) as isize;
        }
        assert(v@.subrange(0, v@.len() as int) == v@);
        i -= 1;
    }
    -1
}

// ---------------------------------------------------------------------------
// inline code
// ---------------------------------------------------------------------------

/// A backtick sits at `j`.
pub open spec fn tick_at(s: Seq<char>, j: int) -> bool {
    0 <= j < s.len() && s[j] == '`'
}

/// The backtick at `i` belongs to a run of three or more.
pub open spec fn part_of_triple(s: Seq<char>, i: int) -> bool {
    (tick_at(s, i - 1) && tick_at(s, i - 2)) || (tick_at(s, i - 1) && tick_at(s, i + 1)) || (
    tick_at(s, i + 1) && tick_at(s, i + 2))
}

pub fn part_of_triple_in(s: &[char], i: usize) -> (b: bool)
    ensures
        b == part_of_triple(s@, i as int),
{
    let n = s.len();
    let before = i >= 1 && i - 1 < n && s[i - 1] == '`';
    let before2 = i >= 2 && i - 2 < n && s[i - 2] == '`';
    let after = i < n && n - i > 1 && s[i + 1] == '`';
    let after2 = i < n && n - i > 2 && s[i + 2] == '`';
    (before && before2) || (before && after) || (after && after2)
}

/// The backtick at byte offset `index` belongs to a run of three or more.
pub fn is_backtick_part_of_triple(text: &str, index: usize) -> (b: bool)
    requires
        is_boundary(text@, index as int),
    ensures
        b == part_of_triple(byte_view(text), index as int),
{
    let v = byte_chars(text);
    part_of_triple_in(&v, index)
}

/// Position `i` holds a backtick that opens or closes inline code.
pub open spec fn tick_cond(s: Seq<char>, r: Seq<(usize, usize)>, i: int) -> bool {
    !in_ranges(i, r) && s[i] == '`' && !part_of_triple(s, i)
}

/// Single-backtick positions among the first `n` characters.
pub open spec fn tick_positions(s: Seq<char>, r: Seq<(usize, usize)>, n: int) -> Seq<usize>
    decreases n,
{
    if n <= 0 {
        Seq::empty()
    } else if tick_cond(s, r, n - 1) {
        tick_positions(s, r, n - 1).push((n - 1) as usize)
    } else {
        tick_positions(s, r, n - 1)
    }
}

/// Consecutive positions paired into `[open, close + 1)` ranges.
pub open spec fn pair_up(p: Seq<usize>) -> Seq<(usize, usize)>
    decreases p.len(),
{
    if p.len() < 2 {
        Seq::empty()
    } else {
        seq![(p[0], (p[1] + 1) as usize)] + pair_up(p.skip(2))
    }
}

/// `/`[^`\n]+`/`-style inline code ranges outside the given code ranges.
pub open spec fn inline_code_ranges(s: Seq<char>, r: Seq<(usize, usize)>) -> Seq<(usize, usize)> {
    pair_up(tick_positions(s, r, s.len() as int))
}

pub fn inline_code_ranges_in(s: &[char], code: &[(usize, usize)]) -> (r: Vec<(usize, usize)>)
    ensures
        r@ == inline_code_ranges(s@, code@),
{
    let mut positions: Vec<usize> = Vec::new();
    let mut i: usize = 0;
    while i < s.len()
        invariant
            i <= s.len(),
            positions@ == tick_positions(s@, code@, i as int),
            forall|m: int| 0 <= m < positions@.len() ==> #[trigger] positions@[m] < i,
        decreases s.len() - i,
    {
        if !is_position_in_ranges(i, code) && s[i] == '`' && !part_of_triple_in(s, i) {
            positions.push(i);
        }
        i += 1;
    }
    let mut out: Vec<(usize, usize)> = Vec::new();
    let mut k: usize = 0;
    assert(positions@.skip(0) == positions@);
    while k < positions.len() && positions.len() - k >= 2
        invariant
            k <= positions.len(),
            positions@ == tick_positions(s@, code@, s@.len() as int),
            forall|m: int| 0 <= m < positions@.len() ==> #[trigger] positions@[m] < s.len(),
            out@ + pair_up(positions@.skip(k as int)) == inline_code_ranges(s@, code@),
        decreases positions.len() - k,
    {
        let ghost rest = positions@.skip(k as int);
        assert(rest.skip(2) == positions@.skip(k + 2));
        out.push((positions[k], positions[k + 1] + 1));
        k += 2;
    }
    proof {
        assert(pair_up(positions@.skip(k as int)) == Seq::<(usize, usize)>::empty());
    }
    out
}

pub proof fn lemma_tick_positions(s: Seq<char>, r: Seq<(usize, usize)>, n: int)
    requires
        0 <= n <= s.len(),
        s.len() <= usize::MAX,
    ensures
        forall|k: int|
            0 <= k < tick_positions(s, r, n).len() ==> #[trigger] tick_positions(s, r, n)[k] < n,
        forall|k: int, m: int|
            0 <= k < m < tick_positions(s, r, n).len() ==> #[trigger] tick_positions(s, r, n)[k]
                < #[trigger] tick_positions(s, r, n)[m],
    decreases n,
{
    if n > 0 {
        lemma_tick_positions(s, r, n - 1);
        let p = tick_positions(s, r, n - 1);
        let q = tick_positions(s, r, n);
        if tick_cond(s, r, n - 1) {
            assert(q == p.push((n - 1) as usize));
            assert forall|k: int| 0 <= k < q.len() implies #[trigger] q[k] < n by {
                if k < p.len() {
                    assert(q[k] == p[k]);
                }
            }
            assert forall|k: int, m: int| 0 <= k < m < q.len() implies #[trigger] q[k]
                < #[trigger] q[m] by {
                assert(q[k] == p[k]);
                if m < p.len() {
                    assert(q[m] == p[m]);
                }
            }
        }
    }
}

pub proof fn lemma_pair_up_wf(p: Seq<usize>, len: int)
    requires
        len <= usize::MAX,
        forall|k: int| 0 <= k < p.len() ==> #[trigger] p[k] < len,
        forall|k: int, m: int| 0 <= k < m < p.len() ==> #[trigger] p[k] < #[trigger] p[m],
    ensures
        ranges_well_formed(pair_up(p), len),
        forall|k: int| 0 <= k < pair_up(p).len() ==> p[0] <= (#[trigger] pair_up(p)[k]).0,
    decreases p.len(),
{
    if p.len() >= 2 {
        let q = p.skip(2);
        assert forall|k: int| 0 <= k < q.len() implies #[trigger] q[k] < len by {
            assert(q[k] == p[k + 2]);
        }
        assert forall|k: int, m: int| 0 <= k < m < q.len() implies #[trigger] q[k]
            < #[trigger] q[m] by {
            assert(q[k] == p[k + 2]);
            assert(q[m] == p[m + 2]);
        }
        lemma_pair_up_wf(q, len);
        let all = pair_up(p);
        let rest = pair_up(q);
        assert(all == seq![(p[0], (p[1] + 1) as usize)] + rest);
        assert forall|k: int| 0 <= k < all.len() implies (#[trigger] all[k]).0 <= all[k].1 <= len by {
            if k > 0 {
                assert(all[k] == rest[k - 1]);
            }
        }
        assert forall|k: int, m: int| 0 <= k < m < all.len() implies (#[trigger] all[k]).1
            <= (#[trigger] all[m]).0 by {
            assert(all[m] == rest[m - 1]);
            if k > 0 {
                assert(all[k] == rest[k - 1]);
            } else if q.len() > 0 {
                assert(q[0] == p[2]);
            }
        }
        assert forall|k: int| 0 <= k < all.len() implies p[0] <= (#[trigger] all[k]).0 by {
            if k > 0 {
                assert(all[k] == rest[k - 1]);
                assert(q[0] == p[2]);
            }
        }
    }
}

/// The inline code ranges are ordered, disjoint and within the text.
pub proof fn lemma_inline_ranges_wf(s: Seq<char>, r: Seq<(usize, usize)>)
    requires
        s.len() <= usize::MAX,
    ensures
        ranges_well_formed(inline_code_ranges(s, r), s.len() as int),
{
    lemma_tick_positions(s, r, s.len() as int);
    lemma_pair_up_wf(tick_positions(s, r, s.len() as int), s.len() as int);
}

/// `/`[^`\n]+`/`-style inline code ranges `[start, end)` outside code blocks.
pub fn find_inline_code_ranges(content: &str, code_block_ranges: &[(usize, usize)]) -> (r: Vec<
    (usize, usize),
>)
    ensures
        r@ == inline_code_ranges(byte_view(content), code_block_ranges@),
{
    let v = byte_chars(content);
    inline_code_ranges_in(&v, code_block_ranges)
}

/// An emphasis marker character: `*`, `_` or `~`.
pub open spec fn is_emph_marker(c: char) -> bool {
    c == '*' || c == '_' || c == '~'
}

/// `s` with every emphasis marker inside the ranges replaced by a space.
pub open spec fn mask_markers(s: Seq<char>, r: Seq<(usize, usize)>) -> Seq<char> {
    Seq::new(
        s.len(),
        |i: int|
            if in_ranges(i, r) && is_emph_marker(s[i]) {
                ' '
            } else {
                s[i]
            },
    )
}

pub fn mask_markers_in(s: &[char], ranges: &[(usize, usize)]) -> (r: Vec<char>)
    ensures
        r@ == mask_markers(s@, ranges@),
{
    let mut out: Vec<char> = Vec::new();
    let mut i: usize = 0;
    while i < s.len()
        invariant
            i <= s.len(),
            out@ == mask_markers(s@, ranges@).take(i as int),
        decreases s.len() - i,
    {
        let c = s[i];
        if is_position_in_ranges(i, ranges) && (c == '*' || c == '_' || c == '~') {
            out.push(' ');
        } else {
            out.push(c);
        }
        assert(mask_markers(s@, ranges@).take(i + 1) == mask_markers(s@, ranges@).take(
            i as int,
        ).push(mask_markers(s@, ranges@)[i as int]));
        i += 1;
    }
    assert(mask_markers(s@, ranges@).take(s.len() as int) == mask_markers(s@, ranges@));
    out
}

/// `s` with every emphasis marker whose byte offset lies in the ranges
/// replaced by a space.
pub open spec fn mask_markers_bytes(s: Seq<char>, r: Seq<(usize, usize)>) -> Seq<char> {
    Seq::new(
        s.len(),
        |i: int|
            if in_ranges(byte_offset(s, i), r) && is_emph_marker(s[i]) {
                ' '
            } else {
                s[i]
            },
    )
}

/// Mask `* _ ~` inside the byte ranges with spaces (offsets preserved).
/// Each range must start no later than its end and than the end of the text.
pub fn mask_inline_code_markdown_markers(content: &str, ranges: &[(usize, usize)]) -> (r: String)
    requires
        forall|k: int|
            0 <= k < ranges@.len() ==> (#[trigger] ranges@[k]).0 <= ranges@[k].1 && ranges@[k].0
                <= utf8_len(content@),
    ensures
        r@ == mask_markers_bytes(content@, ranges@),
        r@.len() == content@.len(),
{
    let v = chars_of(content);
    let total = content.as_bytes().len();
    let n = v.len();
    let ghost m = mask_markers_bytes(v@, ranges@);
    proof {
        lemma_byte_offset_end(v@);
    }
    let mut out: Vec<char> = Vec::new();
    let mut i: usize = 0;
    let mut off: usize = 0;
    while i < n
        invariant
            n == v.len(),
            i <= n,
            v@ == content@,
            m == mask_markers_bytes(v@, ranges@),
            total as int == utf8_len(v@),
            byte_offset(v@, n as int) == utf8_len(v@),
            off as int == byte_offset(v@, i as int),
            out@ == m.take(i as int),
        decreases n - i,
    {
        let c = v[i];
        if is_position_in_ranges(off, ranges) && (c == '*' || c == '_' || c == '~') {
            out.push(' ');
        } else {
            out.push(c);
        }
        assert(m.take(i + 1) == m.take(i as int).push(m[i as int]));
        let w = utf8_width(c);
        proof {
            lemma_byte_offset_step(v@, i as int);
            if i + 1 < n {
                lemma_byte_offset_mono(v@, i + 1, n as int);
            }
        }
        off = off + w;
        i += 1;
    }
    assert(m.take(n as int) == m);
    string_of(&out)
}

// ---------------------------------------------------------------------------
// escapes and underscores
// ---------------------------------------------------------------------------

/// Number of consecutive backslashes right before `i`.
pub open spec fn backslash_run(s: Seq<char>, i: int) -> nat
    decreases i,
{
    if i > 0 && i <= s.len() && s[i - 1] == '\\' {
        1 + backslash_run(s, i - 1)
    } else {
        0
    }
}

/// The character at `i` is escaped (odd number of preceding backslashes).
pub open spec fn escaped_at(s: Seq<char>, i: int) -> bool {
    backslash_run(s, i) % 2 == 1
}

pub fn escaped_in(s: &[char], index: usize) -> (b: bool)
    requires
        index <= s.len(),
    ensures
        b == escaped_at(s@, index as int),
{
    let mut count: usize = 0;
    let mut i = index;
    while i > 0 && s[i - 1] == '\\'
        invariant
            i <= index <= s.len(),
            count + backslash_run(s@, i as int) == backslash_run(s@, index as int),
            count <= index - i,
        decreases i,
    {
        count += 1;
        i -= 1;
    }
    count % 2 == 1
}

/// Odd number of backslash bytes right before byte offset `index`.
pub fn is_escaped_character(content: &str, index: usize) -> (b: bool)
    requires
        index <= byte_view(content).len(),
    ensures
        b == escaped_at(byte_view(content), index as int),
{
    let v = byte_chars(content);
    escaped_in(&v, index)
}

/// The marker run `[start, start + len)` has word characters on both sides.
pub open spec fn inside_word(s: Seq<char>, start: int, len: int) -> bool {
    1 <= start <= s.len() && start + len < s.len() && char_is_alphanumeric(s[start - 1])
        && char_is_alphanumeric(s[start + len])
}

pub fn inside_word_in(s: &[char], start: usize, len: usize) -> (b: bool)
    ensures
        b == inside_word(s@, start as int, len as int),
{
    if start < 1 || start > s.len() || len >= s.len() - start {
        return false;
    }
    is_alphanumeric(s[start - 1]) && is_alphanumeric(s[start + len])
}

/// The marker run at byte offsets `[start, start + len)` has word characters
/// on both sides; an offset that is no character boundary has none.
pub open spec fn inside_word_bytes(s: Seq<char>, start: int, len: int) -> bool {
    let p = char_index_at(s, start);
    let q = char_index_at(s, start + len);
    1 <= p && 0 <= q < s.len() && char_is_alphanumeric(s[p - 1]) && char_is_alphanumeric(s[q])
}

pub fn is_underscore_inside_word(content: &str, start: usize, len: usize) -> (b: bool)
    requires
        start + len <= usize::MAX,
    ensures
        b == inside_word_bytes(content@, start as int, len as int),
{
    let v = chars_of(content);
    match char_index_of(&v, start) {
        Some(p) => {
            if p < 1 {
                return false;
            }
            match char_index_of(&v, start + len) {
                Some(q) => {
                    if q >= v.len() {
                        return false;
                    }
                    is_alphanumeric(v[p - 1]) && is_alphanumeric(v[q])
                },
                None => false,
            }
        },
        None => false,
    }
}

/// The marker run at `start` is escaped or sits inside a word.
pub open spec fn ignore_underscore(s: Seq<char>, start: int, len: int) -> bool {
    escaped_at(s, start) || inside_word(s, start, len)
}

pub fn ignore_underscore_in(s: &[char], start: usize, len: usize) -> (b: bool)
    requires
        start <= s.len(),
    ensures
        b == ignore_underscore(s@, start as int, len as int),
{
    escaped_in(s, start) || inside_word_in(s, start, len)
}

/// The marker run at byte offsets `[start, start + len)` is escaped or sits
/// inside a word.
pub fn should_ignore_underscore_marker(content: &str, start: usize, len: usize) -> (b: bool)
    requires
        start <= byte_view(content).len(),
        start + len <= usize::MAX,
    ensures
        b == (escaped_at(byte_view(content), start as int) || inside_word_bytes(
            content@,
            start as int,
            len as int,
        )),
{
    is_escaped_character(content, start) || is_underscore_inside_word(content, start, len)
}

/// End of the run of `_` starting at `i`.
pub open spec fn us_run_end(s: Seq<char>, i: int) -> int
    decreases s.len() - i,
{
    if 0 <= i < s.len() && s[i] == '_' {
        us_run_end(s, i + 1)
    } else {
        i
    }
}

pub proof fn lemma_us_run_end(s: Seq<char>, i: int)
    requires
        0 <= i <= s.len(),
    ensures
        i <= us_run_end(s, i) <= s.len(),
        i < s.len() && s[i] == '_' ==> i < us_run_end(s, i),
        forall|k: int| i <= k < us_run_end(s, i) ==> s[k] == '_',
        us_run_end(s, i) < s.len() ==> s[us_run_end(s, i)] != '_',
    decreases s.len() - i,
{
    if i < s.len() && s[i] == '_' {
        lemma_us_run_end(s, i + 1);
    }
}

/// `n` spaces.
pub open spec fn spaces(n: int) -> Seq<char> {
    Seq::new(n as nat, |k: int| ' ')
}

/// Masking of escaped / intraword underscore runs, from position `i` on.
pub open spec fn mask_us_from(s: Seq<char>, i: int) -> Seq<char>
    decreases s.len() - i,
{
    if i < 0 || i >= s.len() {
        Seq::empty()
    } else if s[i] != '_' {
        seq![s[i]] + mask_us_from(s, i + 1)
    } else {
        let e = us_run_end(s, i);
        proof {
            lemma_us_run_end(s, i);
        }
        let seg = if ignore_underscore(s, i, e - i) {
            spaces(e - i)
        } else {
            s.subrange(i, e)
        };
        seg + mask_us_from(s, e)
    }
}

/// `s` with escaped and intraword underscore runs replaced by spaces.
pub open spec fn mask_underscores(s: Seq<char>) -> Seq<char> {
    mask_us_from(s, 0)
}

pub proof fn lemma_mask_us_len(s: Seq<char>, i: int)
    requires
        0 <= i <= s.len(),
    ensures
        mask_us_from(s, i).len() == s.len() - i,
    decreases s.len() - i,
{
    if i < s.len() {
        if s[i] != '_' {
            lemma_mask_us_len(s, i + 1);
        } else {
            lemma_us_run_end(s, i);
            lemma_mask_us_len(s, us_run_end(s, i));
        }
    }
}

pub fn mask_underscores_in(s: &[char]) -> (r: Vec<char>)
    ensures
        r@ == mask_underscores(s@),
{
    let mut out: Vec<char> = Vec::new();
    let mut index: usize = 0;
    while index < s.len()
        invariant
            index <= s.len(),
            out@ + mask_us_from(s@, index as int) == mask_underscores(s@),
        decreases s.len() - index,
    {
        if s[index] != '_' {
            out.push(s[index]);
            index += 1;
            continue;
        }
        let run_start = index;
        proof {
            lemma_us_run_end(s@, run_start as int);
        }
        while index < s.len() && s[index] == '_'
            invariant
                run_start <= index <= s.len(),
                us_run_end(s@, run_start as int) == us_run_end(s@, index as int),
            decreases s.len() - index,
        {
            index += 1;
        }
        let run_len = index - run_start;
        let ghost before = out@;
        if ignore_underscore_in(s, run_start, run_len) {
            let mut k: usize = 0;
            while k < run_len
                invariant
                    k <= run_len,
                    out@ == before + spaces(k as int),
                decreases run_len - k,
            {
                out.push(' ');
                assert(spaces(k + 1) == spaces(k as int).push(' '));
                k += 1;
            }
        } else {
            extend_range(&mut out, s, run_start, index);
        }
    }
    out
}

/// Mask escaped / intraword underscore runs with spaces.
pub fn mask_invalid_underscore_markers(content: &str) -> (r: String)
    ensures
        r@ == mask_underscores(content@),
        r@.len() == content@.len(),
{
    proof {
        lemma_mask_us_len(content@, 0);
    }
    let v = chars_of(content);
    let m = mask_underscores_in(&v);
    string_of(&m)
}


// ---------------------------------------------------------------------------
// stripping ranges, URLs, HTML tags and math
// ---------------------------------------------------------------------------

/// `s` with the ranges `r[k..]` cut out, copying from `cursor` on.
pub open spec fn strip_ranges_from(s: Seq<char>, r: Seq<(usize, usize)>, k: int, cursor: int) -> Seq<
    char,
>
    decreases r.len() - k,
{
    if k < 0 || k >= r.len() {
        s.subrange(cursor, s.len() as int)
    } else {
        s.subrange(cursor, r[k].0 as int) + strip_ranges_from(s, r, k + 1, r[k].1 as int)
    }
}

/// `s` with every range of `r` cut out.
pub open spec fn strip_ranges(s: Seq<char>, r: Seq<(usize, usize)>) -> Seq<char> {
    strip_ranges_from(s, r, 0, 0)
}

/// `s` with its closed code fences removed.
pub open spec fn strip_code(s: Seq<char>) -> Seq<char> {
    strip_ranges(s, closed_code_ranges(s))
}

pub fn strip_ranges_in(s: &[char], r: &[(usize, usize)]) -> (out: Vec<char>)
    requires
        ranges_well_formed(r@, s@.len() as int),
    ensures
        out@ == strip_ranges(s@, r@),
{
    let mut out: Vec<char> = Vec::new();
    let mut cursor: usize = 0;
    let mut k: usize = 0;
    while k < r.len()
        invariant
            ranges_well_formed(r@, s@.len() as int),
            k <= r.len(),
            cursor <= s.len(),
            k < r.len() ==> cursor <= r@[k as int].0,
            out@ + strip_ranges_from(s@, r@, k as int, cursor as int) == strip_ranges(s@, r@),
        decreases r.len() - k,
    {
        let (a, b) = r[k];
        extend_range(&mut out, s, cursor, a);
        cursor = b;
        k += 1;
        if k < r.len() {
            assert(r@[k - 1].1 <= r@[k as int].0);
        }
    }
    extend_range(&mut out, s, cursor, s.len());
    out
}

pub fn strip_code_in(s: &[char]) -> (out: Vec<char>)
    ensures
        out@ == strip_code(s@),
{
    let r = code_ranges_in(s);
    proof {
        assert(s@.len() == s.len());
        lemma_code_ranges_wf(s@, 0);
    }
    strip_ranges_in(s, &r)
}

/// HTML tags `<...>` replaced by a single space, from `i` on.
pub open spec fn strip_tags_from(s: Seq<char>, i: int) -> Seq<char>
    decreases s.len() - i,
{
    if i < 0 || i >= s.len() {
        Seq::empty()
    } else if s[i] == '<' && find_char(s, '>', i) >= 0 {
        proof {
            lemma_find_char_bounds(s, '>', i);
        }
        seq![' '] + strip_tags_from(s, find_char(s, '>', i) + 1)
    } else {
        seq![s[i]] + strip_tags_from(s, i + 1)
    }
}

/// Complete links/images `!?[text](url)` rewritten to `[text]()`, from `i` on.
pub open spec fn complete_links_from(s: Seq<char>, i: int) -> Seq<char>
    decreases s.len() - i,
{
    if i < 0 || i >= s.len() {
        Seq::empty()
    } else {
        let is_image = s[i] == '!' && i + 1 < s.len() && s[i + 1] == '[';
        let ls = if is_image {
            i + 1
        } else {
            i
        };
        let close = find_char(s, ']', ls);
        let cp = find_char(s, ')', close + 2);
        if (s[i] == '[' || is_image) && close >= 0 && close + 1 < s.len() && s[close + 1] == '('
            && cp >= 0 {
            proof {
                lemma_find_char_bounds(s, ']', ls);
                lemma_find_char_bounds(s, ')', close + 2);
            }
            s.subrange(i, close + 1) + seq!['(', ')'] + complete_links_from(s, cp + 1)
        } else {
            seq![s[i]] + complete_links_from(s, i + 1)
        }
    }
}

/// `]` position of the first unclosed link `!?[text](url...` at or after `i`, or -1.
pub open spec fn first_open_link(s: Seq<char>, i: int) -> int
    decreases s.len() - i,
{
    if i < 0 || i >= s.len() {
        -1
    } else {
        let is_image = s[i] == '!' && i + 1 < s.len() && s[i + 1] == '[';
        let ls = if s[i] == '!' {
            i + 1
        } else {
            i
        };
        let close = find_char(s, ']', ls);
        if (s[i] == '[' || is_image) && close >= 0 && close + 1 < s.len() && s[close + 1] == '('
            && find_char(s, ')', close + 2) < 0 && close + 2 < s.len() {
            close
        } else {
            first_open_link(s, i + 1)
        }
    }
}

/// An unclosed link at the end rewritten to `[text](`.
pub open spec fn open_link_suffix(s: Seq<char>) -> Seq<char> {
    let p = first_open_link(s, 0);
    if p >= 0 {
        s.take(p) + seq![']', '(']
    } else {
        s
    }
}

/// Code fences, HTML tags and link/image URL bodies removed.
pub open spec fn remove_urls(s: Seq<char>) -> Seq<char> {
    open_link_suffix(complete_links_from(strip_tags_from(strip_code(s), 0), 0))
}

fn strip_tags_in(s: &[char]) -> (out: Vec<char>)
    ensures
        out@ == strip_tags_from(s@, 0),
{
    let mut out: Vec<char> = Vec::new();
    let mut i: usize = 0;
    while i < s.len()
        invariant
            i <= s.len(),
            out@ + strip_tags_from(s@, i as int) == strip_tags_from(s@, 0),
        decreases s.len() - i,
    {
        if s[i] == '<' {
            match find_char_from(s, '>', i) {
                Some(j) => {
                    proof {
                        lemma_find_char_bounds(s@, '>', i as int);
                    }
                    out.push(' ');
                    i = j + 1;
                    continue;
                },
                None => {},
            }
        }
        out.push(s[i]);
        i += 1;
    }
    out
}

fn complete_links_in(s: &[char]) -> (out: Vec<char>)
    ensures
        out@ == complete_links_from(s@, 0),
{
    let mut out: Vec<char> = Vec::new();
    let mut i: usize = 0;
    while i < s.len()
        invariant
            i <= s.len(),
            out@ + complete_links_from(s@, i as int) == complete_links_from(s@, 0),
        decreases s.len() - i,
    {
        let is_image = s[i] == '!' && i + 1 < s.len() && s[i + 1] == '[';
        if s[i] == '[' || is_image {
            let ls = if is_image {
                i + 1
            } else {
                i
            };
            match find_char_from(s, ']', ls) {
                Some(close) => {
                    proof {
                        lemma_find_char_bounds(s@, ']', ls as int);
                    }
                    if close + 1 < s.len() && s[close + 1] == '(' {
                        match find_char_from(s, ')', close + 2) {
                            Some(cp) => {
                                proof {
                                    lemma_find_char_bounds(s@, ')', close + 2);
                                }
                                let ghost before = out@;
                                extend_range(&mut out, s, i, close + 1);
                                out.push('(');
                                out.push(')');
                                assert(out@ == before + (s@.subrange(i as int, close + 1) + seq![
                                    '(',
                                    ')',
                                ]));
                                i = cp + 1;
                                continue;
                            },
                            None => {},
                        }
                    }
                },
                None => {},
            }
        }
        out.push(s[i]);
        i += 1;
    }
    out
}

fn open_link_suffix_in(s: &[char]) -> (out: Vec<char>)
    ensures
        out@ == open_link_suffix(s@),
{
    let mut i: usize = 0;
    while i < s.len()
        invariant
            i <= s.len(),
            first_open_link(s@, i as int) == first_open_link(s@, 0),
        decreases s.len() - i,
    {
        let is_image = s[i] == '!' && i + 1 < s.len() && s[i + 1] == '[';
        if s[i] == '[' || is_image {
            let ls = if s[i] == '!' {
                i + 1
            } else {
                i
            };
            match find_char_from(s, ']', ls) {
                Some(close) => {
                    proof {
                        lemma_find_char_bounds(s@, ']', ls as int);
                    }
                    if close + 1 < s.len() && s[close + 1] == '(' && close + 2 < s.len() {
                        if find_char_from(s, ')', close + 2).is_none() {
                            let mut out = sub_vec(s, 0, close);
                            out.push(']');
                            out.push('(');
                            return out;
                        }
                    }
                },
                None => {},
            }
        }
        i += 1;
    }
    assert(first_open_link(s@, i as int) == -1);
    sub_vec(s, 0, s.len())
}

pub fn remove_urls_in(s: &[char]) -> (out: Vec<char>)
    ensures
        out@ == remove_urls(s@),
{
    let a = strip_code_in(s);
    let b = strip_tags_in(&a);
    let c = complete_links_in(&b);
    open_link_suffix_in(&c)
}

/// Remove code blocks, HTML tags, and link/image URL bodies from text,
/// so markdown markers inside URLs don't get counted.
pub fn remove_urls_from_text(text: &str) -> (r: String)
    ensures
        r@ == remove_urls(text@),
{
    let v = chars_of(text);
    let o = remove_urls_in(&v);
    string_of(&o)
}

/// First `j >= i` where `c` is doubled (`s[j] == s[j + 1] == c`), or -1.
pub open spec fn find_pair(s: Seq<char>, c: char, i: int) -> int
    decreases s.len() - i,
{
    if i < 0 || i + 1 >= s.len() {
        -1
    } else if s[i] == c && s[i + 1] == c {
        i
    } else {
        find_pair(s, c, i + 1)
    }
}

pub proof fn lemma_find_pair(s: Seq<char>, c: char, i: int)
    ensures
        find_pair(s, c, i) == -1 || (i <= find_pair(s, c, i) && find_pair(s, c, i) + 1 < s.len()
            && s[find_pair(s, c, i)] == c && s[find_pair(s, c, i) + 1] == c),
    decreases s.len() - i,
{
    if !(i < 0 || i + 1 >= s.len()) && !(s[i] == c && s[i + 1] == c) {
        lemma_find_pair(s, c, i + 1);
    }
}

pub fn find_pair_from(s: &[char], c: char, i: usize) -> (r: Option<usize>)
    ensures
        match r {
            Some(j) => j as int == find_pair(s@, c, i as int),
            None => find_pair(s@, c, i as int) == -1,
        },
{
    let mut j = i;
    while j < s.len() && s.len() - j >= 2
        invariant
            i <= j,
            find_pair(s@, c, i as int) == find_pair(s@, c, j as int),
        decreases s.len() - j,
    {
        if s[j] == c && s[j + 1] == c {
            return Some(j);
        }
        j += 1;
    }
    None
}

/// First `$` at or after `i` (with `i >= 1`) not preceded by a backslash, or -1.
pub open spec fn find_unescaped_dollar(s: Seq<char>, i: int) -> int
    decreases s.len() - i,
{
    if i < 1 || i >= s.len() {
        -1
    } else if s[i] == '$' && s[i - 1] != '\\' {
        i
    } else {
        find_unescaped_dollar(s, i + 1)
    }
}

pub proof fn lemma_find_unescaped_dollar(s: Seq<char>, i: int)
    ensures
        find_unescaped_dollar(s, i) == -1 || (i <= find_unescaped_dollar(s, i) < s.len()),
    decreases s.len() - i,
{
    if !(i < 1 || i >= s.len()) && !(s[i] == '$' && s[i - 1] != '\\') {
        lemma_find_unescaped_dollar(s, i + 1);
    }
}

/// `$$...$$` spans (and `$...$` spans when `single`) removed, from `i` on;
/// an unclosed span drops the rest of the text.
pub open spec fn rm_math_from(s: Seq<char>, i: int, single: bool) -> Seq<char>
    decreases s.len() - i,
{
    if i < 0 || i >= s.len() {
        Seq::empty()
    } else if s[i] == '\\' && i + 1 < s.len() && s[i + 1] == '$' {
        seq![s[i], s[i + 1]] + rm_math_from(s, i + 2, single)
    } else if s[i] == '$' && i + 1 < s.len() && s[i + 1] == '$' {
        let j = find_pair(s, '$', i + 2);
        if j < 0 {
            Seq::empty()
        } else {
            proof {
                lemma_find_pair(s, '$', i + 2);
            }
            rm_math_from(s, j + 2, single)
        }
    } else if single && s[i] == '$' {
        let j = find_unescaped_dollar(s, i + 1);
        if j < 0 {
            Seq::empty()
        } else {
            proof {
                lemma_find_unescaped_dollar(s, i + 1);
            }
            rm_math_from(s, j + 1, single)
        }
    } else {
        seq![s[i]] + rm_math_from(s, i + 1, single)
    }
}

/// `s` with its math spans removed.
pub open spec fn remove_math(s: Seq<char>, single: bool) -> Seq<char> {
    rm_math_from(s, 0, single)
}

pub fn remove_math_in(s: &[char], single: bool) -> (out: Vec<char>)
    ensures
        out@ == remove_math(s@, single),
{
    let mut out: Vec<char> = Vec::new();
    let mut i: usize = 0;
    while i < s.len()
        invariant
            i <= s.len(),
            out@ + rm_math_from(s@, i as int, single) == remove_math(s@, single),
        decreases s.len() - i,
    {
        if s[i] == '\\' && i + 1 < s.len() && s[i + 1] == '$' {
            out.push(s[i]);
            out.push(s[i + 1]);
            i += 2;
            continue;
        }
        if s[i] == '$' && i + 1 < s.len() && s[i + 1] == '$' {
            match find_pair_from(s, '$', i + 2) {
                Some(j) => {
                    proof {
                        lemma_find_pair(s@, '$', i + 2);
                    }
                    i = j + 2;
                    continue;
                },
                None => {
                    return out;
                },
            }
        }
        if single && s[i] == '$' {
            let mut j = i + 1;
            while j < s.len() && !(s[j] == '$' && s[j - 1] != '\\')
                invariant
                    i + 1 <= j <= s.len(),
                    find_unescaped_dollar(s@, j as int) == find_unescaped_dollar(s@, i + 1),
                decreases s.len() - j,
            {
                j += 1;
            }
            if j < s.len() {
                i = j + 1;
                continue;
            } else {
                assert(find_unescaped_dollar(s@, j as int) == -1);
                return out;
            }
        }
        out.push(s[i]);
        i += 1;
    }
    out
}

/// Remove `$$...$$` block math (and optionally `$...$` inline math) spans.
pub fn remove_math_blocks_from_text(text: &str, single_dollar_enabled: bool) -> (r: String)
    ensures
        r@ == remove_math(text@, single_dollar_enabled),
{
    let v = chars_of(text);
    let o = remove_math_in(&v, single_dollar_enabled);
    string_of(&o)
}

/// Scan toggling `$$` block state (and `$` inline state when `single`) up to `pos`.
pub open spec fn math_toggle(
    s: Seq<char>,
    i: int,
    pos: int,
    single: bool,
    in_block: bool,
    in_inline: bool,
) -> bool
    decreases s.len() - i,
{
    if i < 0 || i >= pos || i >= s.len() {
        in_block || in_inline
    } else if s[i] == '\\' && i + 1 < s.len() && s[i + 1] == '$' {
        math_toggle(s, i + 2, pos, single, in_block, in_inline)
    } else if s[i] == '$' && i + 1 < s.len() && s[i + 1] == '$' {
        math_toggle(s, i + 2, pos, single, !in_block, in_inline)
    } else if single && !in_block && s[i] == '$' {
        math_toggle(s, i + 1, pos, single, in_block, !in_inline)
    } else {
        math_toggle(s, i + 1, pos, single, in_block, in_inline)
    }
}

/// `pos` sits inside a `$$` span (or a `$` span when `single`).
pub open spec fn within_math(s: Seq<char>, pos: int, single: bool) -> bool {
    math_toggle(s, 0, pos, single, false, false)
}

pub fn within_math_in(s: &[char], position: usize, single: bool) -> (b: bool)
    ensures
        b == within_math(s@, position as int, single),
{
    let mut in_block = false;
    let mut in_inline = false;
    let mut i: usize = 0;
    while i < position && i < s.len()
        invariant
            math_toggle(s@, i as int, position as int, single, in_block, in_inline) == within_math(
                s@,
                position as int,
                single,
            ),
        decreases s.len() - i,
    {
        if s[i] == '\\' && i + 1 < s.len() && s[i + 1] == '$' {
            i += 2;
            continue;
        }
        if s[i] == '$' && i + 1 < s.len() && s[i + 1] == '$' {
            in_block = !in_block;
            i += 2;
            continue;
        }
        if single && !in_block && s[i] == '$' {
            in_inline = !in_inline;
        }
        i += 1;
    }
    in_block || in_inline
}

/// Whether byte offset `position` sits inside a `$$` math span (or `$` inline
/// math when enabled).
pub fn is_within_math_block(text: &str, position: usize, single_dollar_enabled: bool) -> (b: bool)
    ensures
        b == within_math(byte_view(text), position as int, single_dollar_enabled),
{
    let v = byte_chars(text);
    within_math_in(&v, position, single_dollar_enabled)
}

/// Backward scan from `i`: reaching `](` before `)`, `(` or a newline.
pub open spec fn url_scan(s: Seq<char>, i: int) -> bool
    decreases i,
{
    if i <= 0 || i > s.len() {
        false
    } else if s[i - 1] == ')' || s[i - 1] == '\n' {
        false
    } else if s[i - 1] == '(' {
        i - 1 > 0 && s[i - 2] == ']'
    } else {
        url_scan(s, i - 1)
    }
}

pub fn within_url_in(s: &[char], position: usize) -> (b: bool)
    requires
        position <= s.len(),
    ensures
        b == url_scan(s@, position as int),
{
    let mut i = position;
    while i > 0
        invariant
            i <= position <= s.len(),
            url_scan(s@, i as int) == url_scan(s@, position as int),
        decreases i,
    {
        let c = s[i - 1];
        if c == ')' || c == '\n' {
            return false;
        }
        if c == '(' {
            return i - 1 > 0 && s[i - 2] == ']';
        }
        i -= 1;
    }
    false
}

/// Whether byte offset `position` is inside `](...)` of a link/image.
pub fn is_within_link_or_image_url(text: &str, position: usize) -> (b: bool)
    requires
        position <= byte_view(text).len(),
    ensures
        b == url_scan(byte_view(text), position as int),
{
    let v = byte_chars(text);
    within_url_in(&v, position)
}

/// Forward scan toggling on unescaped `<` / `>` up to `pos`.
pub open spec fn tag_toggle(s: Seq<char>, i: int, pos: int, in_tag: bool) -> bool
    decreases s.len() - i,
{
    if i < 0 || i >= pos || i >= s.len() {
        in_tag
    } else if s[i] == '<' && (i == 0 || s[i - 1] != '\\') {
        tag_toggle(s, i + 1, pos, true)
    } else if s[i] == '>' && in_tag && (i == 0 || s[i - 1] != '\\') {
        tag_toggle(s, i + 1, pos, false)
    } else {
        tag_toggle(s, i + 1, pos, in_tag)
    }
}

pub fn within_tag_in(s: &[char], position: usize) -> (b: bool)
    ensures
        b == tag_toggle(s@, 0, position as int, false),
{
    let mut in_tag = false;
    let mut i: usize = 0;
    while i < position && i < s.len()
        invariant
            tag_toggle(s@, i as int, position as int, in_tag) == tag_toggle(
                s@,
                0,
                position as int,
                false,
            ),
        decreases s.len() - i,
    {
        if s[i] == '<' && (i == 0 || s[i - 1] != '\\') {
            in_tag = true;
        } else if s[i] == '>' && in_tag && (i == 0 || s[i - 1] != '\\') {
            in_tag = false;
        }
        i += 1;
    }
    in_tag
}

/// Whether byte offset `position` is inside an unclosed HTML tag (`<...>`).
pub fn is_within_html_tag(text: &str, position: usize) -> (b: bool)
    ensures
        b == tag_toggle(byte_view(text), 0, position as int, false),
{
    let v = byte_chars(text);
    within_tag_in(&v, position)
}

/// `suffix` inserted before the trailing ASCII whitespace of `s`.
pub open spec fn append_before_ws(s: Seq<char>, suffix: Seq<char>) -> Seq<char> {
    let n = trim_end_js(s).len();
    s.take(n as int) + suffix + s.skip(n as int)
}

pub fn append_before_ws_in(s: &[char], suffix: &[char]) -> (out: Vec<char>)
    ensures
        out@ == append_before_ws(s@, suffix@),
{
    let n = trim_end_js_len(s);
    let mut out = sub_vec(s, 0, n);
    extend_all(&mut out, suffix);
    extend_range(&mut out, s, n, s.len());
    assert(s@.subrange(n as int, s.len() as int) == s@.skip(n as int));
    out
}

/// Append `suffix` before trailing whitespace.
pub fn append_before_trailing_whitespace(content: &str, suffix: &str) -> (r: String)
    ensures
        r@ == append_before_ws(content@, suffix@),
{
    let v = chars_of(content);
    let w = chars_of(suffix);
    let o = append_before_ws_in(&v, &w);
    string_of(&o)
}

} // verus!
