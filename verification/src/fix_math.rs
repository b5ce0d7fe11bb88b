//! Math fixers: unclosed `$$` blocks and unclosed inline `$$...` spans.
use vstd::prelude::*;
use crate::fix::{strip_inline, strip_inline_in};
use crate::tui::math::join;
use crate::scan::{
    count_in, count_occ, inside_unclosed_code, last_para_range, last_para_range_in, line_ranges,
    line_ranges_in, lines_shape, lemma_lines_shape, part_of_triple, part_of_triple_in, strip_code, strip_code_in,
    triple_at, within_code_in,
};
use crate::text::{
    is_white, lemma_trim_end_white_prefix, lemma_trim_start_white_suffix, trim_end_white,
    trim_start_white, all_white, all_white_range, chars_of, extend_range, find_char, find_char_from, string_of,
    sub_vec, lemma_find_char_bounds, trim_end_js, trim_end_js_len, trim_white, trim_white_vec,
};

verus! {

/// The trimmed text of line `k`.
pub open spec fn tline(s: Seq<char>, l: Seq<(usize, usize)>, k: int) -> Seq<char> {
    trim_white(s.subrange(l[k].0 as int, l[k].1 as int))
}

/// A trimmed line opening or closing a code fence.
pub open spec fn starts_fence(t: Seq<char>) -> bool {
    t.len() >= 3 && t[0] == '`' && t[1] == '`' && t[2] == '`'
}

/// A trimmed line that is exactly `$$`.
pub open spec fn is_dd(t: Seq<char>) -> bool {
    t == seq!['$', '$']
}

/// Indices of the `$$` delimiter lines from line `k` on, outside fences.
pub open spec fn math_delims(s: Seq<char>, l: Seq<(usize, usize)>, k: int, in_code: bool) -> Seq<int>
    decreases l.len() - k,
{
    if k < 0 || k >= l.len() {
        Seq::empty()
    } else if starts_fence(tline(s, l, k)) {
        math_delims(s, l, k + 1, !in_code)
    } else if in_code {
        math_delims(s, l, k + 1, in_code)
    } else if is_dd(tline(s, l, k)) {
        seq![k] + math_delims(s, l, k + 1, in_code)
    } else {
        math_delims(s, l, k + 1, in_code)
    }
}

pub proof fn lemma_math_delims(s: Seq<char>, l: Seq<(usize, usize)>, k: int, in_code: bool)
    requires
        0 <= k,
    ensures
        forall|m: int|
            0 <= m < math_delims(s, l, k, in_code).len() ==> k <= #[trigger] math_delims(
                s,
                l,
                k,
                in_code,
            )[m] < l.len(),
        forall|m: int|
            0 <= m < math_delims(s, l, k, in_code).len() ==> is_dd(
                #[trigger] tline(s, l, math_delims(s, l, k, in_code)[m]),
            ),
    decreases l.len() - k,
{
    if k < l.len() {
        let t = tline(s, l, k);
        if starts_fence(t) {
            lemma_math_delims(s, l, k + 1, !in_code);
            assert(math_delims(s, l, k, in_code) == math_delims(s, l, k + 1, !in_code));
        } else if in_code {
            lemma_math_delims(s, l, k + 1, in_code);
            assert(math_delims(s, l, k, in_code) == math_delims(s, l, k + 1, in_code));
        } else if is_dd(t) {
            lemma_math_delims(s, l, k + 1, in_code);
            let rest = math_delims(s, l, k + 1, in_code);
            let all = math_delims(s, l, k, in_code);
            assert forall|m: int| 0 <= m < all.len() implies k <= #[trigger] all[m] < l.len() by {
                if m > 0 {
                    assert(all[m] == rest[m - 1]);
                }
            }
            assert forall|m: int| 0 <= m < all.len() implies is_dd(#[trigger] tline(s, l, all[m])) by {
                if m > 0 {
                    assert(all[m] == rest[m - 1]);
                }
            }
        } else {
            lemma_math_delims(s, l, k + 1, in_code);
            assert(math_delims(s, l, k, in_code) == math_delims(s, l, k + 1, in_code));
        }
    }
}

/// Some line after `k` (exclusive) up to the end has content other than `$$`.
pub open spec fn content_after(s: Seq<char>, l: Seq<(usize, usize)>, k: int) -> bool
    decreases l.len() - k,
{
    if k < 0 || k + 1 >= l.len() {
        false
    } else {
        let t = tline(s, l, k + 1);
        (t.len() > 0 && !is_dd(t)) || content_after(s, l, k + 1)
    }
}

/// The `fixMath` step: close or drop an unclosed `$$` block.
pub open spec fn fix_math_spec(s: Seq<char>) -> Seq<char> {
    let l = line_ranges(s);
    let d = math_delims(s, l, 0, false);
    let last = d.last();
    if inside_unclosed_code(s) || d.len() % 2 == 0 {
        s
    } else if content_after(s, l, last) {
        if s.len() > 0 && s.last() == '\n' {
            s + seq!['$', '$']
        } else {
            s + seq!['\n', '$', '$']
        }
    } else if last == 0 {
        Seq::empty()
    } else {
        s.take(l[last].0 - 1)
    }
}

fn tline_in(s: &[char], l: &Vec<(usize, usize)>, k: usize) -> (t: Vec<char>)
    requires
        k < l.len(),
        lines_shape(s@, l@, 0),
    ensures
        t@ == tline(s@, l@, k as int),
{
    let (a, b) = l[k];
    let line = sub_vec(s, a, b);
    trim_white_vec(&line)
}

fn math_delims_in(s: &[char], l: &Vec<(usize, usize)>) -> (d: Vec<usize>)
    requires
        lines_shape(s@, l@, 0),
    ensures
        d@.map_values(|x: usize| x as int) == math_delims(s@, l@, 0, false),
{
    let mut d: Vec<usize> = Vec::new();
    let mut in_code = false;
    let mut k: usize = 0;
    while k < l.len()
        invariant
            lines_shape(s@, l@, 0),
            k <= l.len(),
            d@.map_values(|x: usize| x as int) + math_delims(s@, l@, k as int, in_code)
                == math_delims(s@, l@, 0, false),
        decreases l.len() - k,
    {
        let t = tline_in(s, l, k);
        if t.len() >= 3 && t[0] == '`' && t[1] == '`' && t[2] == '`' {
            in_code = !in_code;
        } else if !in_code && t.len() == 2 && t[0] == '$' && t[1] == '$' {
            assert(t@ =~= seq!['$', '$']);
            let ghost old = d@;
            d.push(k);
            assert(d@.map_values(|x: usize| x as int) =~= old.map_values(|x: usize| x as int)
                + seq![k as int]);
        } else {
            assert(!is_dd(t@) || in_code) by {
                if is_dd(t@) {
                    assert(t@.len() == 2 && t@[0] == '$' && t@[1] == '$');
                }
            }
        }
        k += 1;
    }
    d
}

fn content_after_in(s: &[char], l: &Vec<(usize, usize)>, last: usize) -> (b: bool)
    requires
        lines_shape(s@, l@, 0),
        last < l.len(),
    ensures
        b == content_after(s@, l@, last as int),
{
    let mut m = last;
    while m + 1 < l.len()
        invariant
            lines_shape(s@, l@, 0),
            last <= m < l.len(),
            content_after(s@, l@, last as int) == content_after(s@, l@, m as int),
        decreases l.len() - m,
    {
        let t = tline_in(s, l, m + 1);
        let dd = t.len() == 2 && t[0] == '$' && t[1] == '$';
        assert(dd == is_dd(t@)) by {
            if dd {
                assert(t@ =~= seq!['$', '$']);
            }
            if is_dd(t@) {
                assert(t@.len() == 2 && t@[0] == '$' && t@[1] == '$');
            }
        }
        if t.len() > 0 && !dd {
            return true;
        }
        m += 1;
    }
    false
}

pub fn fix_math_in(s: &[char]) -> (out: Vec<char>)
    ensures
        out@ == fix_math_spec(s@),
{
    let n = s.len();
    if within_code_in(s, n) {
        return sub_vec(s, 0, n);
    }
    let l = line_ranges_in(s);
    let d = math_delims_in(s, &l);
    let ghost ds = math_delims(s@, l@, 0, false);
    assert(d@.len() == ds.len());
    if d.len() % 2 == 0 {
        return sub_vec(s, 0, n);
    }
    let last = d[d.len() - 1];
    assert(last as int == ds[ds.len() - 1]);
    proof {
        lemma_math_delims(s@, l@, 0, false);
    }
    close_math_in(s, &l, last)
}

/// The text with a closing `$$` line after it.
fn close_block(s: &[char]) -> (out: Vec<char>)
    ensures
        out@ == if s@.len() > 0 && s@.last() == '\n' {
            s@ + seq!['$', '$']
        } else {
            s@ + seq!['\n', '$', '$']
        },
{
    let n = s.len();
    let mut out = sub_vec(s, 0, n);
    assert(out@ == s@);
    if n > 0 && s[n - 1] == '\n' {
        out.push('$');
        out.push('$');
        assert(out@ == s@ + seq!['$', '$']);
    } else {
        out.push('\n');
        out.push('$');
        out.push('$');
        assert(out@ == s@ + seq!['\n', '$', '$']);
    }
    out
}

fn close_math_in(s: &[char], l: &Vec<(usize, usize)>, last: usize) -> (out: Vec<char>)
    requires
        lines_shape(s@, l@, 0),
        last < l.len(),
    ensures
        out@ == if content_after(s@, l@, last as int) {
            if s@.len() > 0 && s@.last() == '\n' {
                s@ + seq!['$', '$']
            } else {
                s@ + seq!['\n', '$', '$']
            }
        } else if last == 0 {
            Seq::empty()
        } else {
            s@.take(l@[last as int].0 - 1)
        },
{
    if content_after_in(s, l, last) {
        return close_block(s);
    }
    if last == 0 {
        return Vec::new();
    }
    assert(l@[last - 1].1 + 1 == l@[last as int].0);
    sub_vec(s, 0, l[last].0 - 1)
}

/// Close or drop an unclosed `$$` math block.
pub fn fix_math(content: &str) -> (r: String)
    ensures
        r@ == fix_math_spec(content@),
{
    let v = chars_of(content);
    let o = fix_math_in(&v);
    string_of(&o)
}

/// Scan for the last `$$` outside fences and inline code.
pub open spec fn last_dd_scan(t: Seq<char>, i: int, in_code: bool, in_inline: bool, last: int) -> int
    decreases t.len() - i,
{
    if i < 0 || i + 1 >= t.len() {
        last
    } else if triple_at(t, i) {
        last_dd_scan(t, i + 3, !in_code, false, last)
    } else if !in_code && t[i] == '`' {
        last_dd_scan(
            t,
            i + 1,
            in_code,
            if !part_of_triple(t, i) {
                !in_inline
            } else {
                in_inline
            },
            last,
        )
    } else if !in_code && !in_inline && t[i] == '$' && t[i + 1] == '$' {
        last_dd_scan(t, i + 2, in_code, in_inline, i)
    } else {
        last_dd_scan(t, i + 1, in_code, in_inline, last)
    }
}

pub proof fn lemma_last_dd_scan(t: Seq<char>, i: int, in_code: bool, in_inline: bool, last: int)
    requires
        0 <= i,
        -1 <= last,
        last + 1 < t.len() || last == -1,
    ensures
        -1 <= last_dd_scan(t, i, in_code, in_inline, last),
        last_dd_scan(t, i, in_code, in_inline, last) == -1 || last_dd_scan(
            t,
            i,
            in_code,
            in_inline,
            last,
        ) + 1 < t.len(),
    decreases t.len() - i,
{
    if i + 1 < t.len() {
        if triple_at(t, i) {
            lemma_last_dd_scan(t, i + 3, !in_code, false, last);
        } else if !in_code && t[i] == '`' {
            lemma_last_dd_scan(
                t,
                i + 1,
                in_code,
                if !part_of_triple(t, i) {
                    !in_inline
                } else {
                    in_inline
                },
                last,
            );
        } else if !in_code && !in_inline && t[i] == '$' && t[i + 1] == '$' {
            lemma_last_dd_scan(t, i + 2, in_code, in_inline, i);
        } else {
            lemma_last_dd_scan(t, i + 1, in_code, in_inline, last);
        }
    }
}

/// The last `$$` outside fences and inline code, or -1.
pub open spec fn last_dollar_pair(t: Seq<char>) -> int {
    last_dd_scan(t, 0, false, false, -1)
}

fn last_dollar_pair_in(t: &[char]) -> (r: Option<usize>)
    ensures
        match r {
            Some(x) => x as int == last_dollar_pair(t@) && x + 1 < t.len(),
            None => last_dollar_pair(t@) == -1,
        },
{
    proof {
        lemma_last_dd_scan(t@, 0, false, false, -1);
    }
    let mut in_code = false;
    let mut in_inline = false;
    let mut last: usize = 0;
    let mut found = false;
    let mut i: usize = 0;
    while i < t.len() && t.len() - i >= 2
        invariant
            found ==> last + 1 < t.len(),
            last_dd_scan(t@, i as int, in_code, in_inline, if found {
                last as int
            } else {
                -1
            }) == last_dollar_pair(t@),
        decreases t.len() - i,
    {
        if t.len() - i >= 3 && t[i] == '`' && t[i + 1] == '`' && t[i + 2] == '`' {
            in_code = !in_code;
            in_inline = false;
            i += 3;
            continue;
        }
        if !in_code && t[i] == '`' {
            if !part_of_triple_in(t, i) {
                in_inline = !in_inline;
            }
            i += 1;
            continue;
        }
        if !in_code && !in_inline && t[i] == '$' && t[i + 1] == '$' {
            last = i;
            found = true;
            i += 2;
            continue;
        }
        i += 1;
    }
    if found {
        Some(last)
    } else {
        None
    }
}

/// The `fixInlineMath` step: close or drop an unclosed inline `$$` span in
/// the last paragraph.
pub open spec fn fix_inline_math_spec(s: Seq<char>) -> Seq<char> {
    let off = last_para_range(s, false).1 as int;
    let p = s.skip(off);
    let count = count_occ(strip_inline(strip_code(p)), seq!['$', '$']);
    let ld = last_dollar_pair(p);
    let al = p.skip(ld + 2);
    let sr = al.len() > 0 && al.last() == '$' && !(al.len() >= 2 && al[al.len() - 2] == '$');
    let al2 = if sr {
        al.drop_last()
    } else {
        al
    };
    if s == seq!['$'] {
        Seq::empty()
    } else if inside_unclosed_code(s) || count % 2 == 0 || ld < 0 || find_char(al, '\n', 0) >= 0
        || trim_white(al) == seq!['$'] {
        s
    } else if !all_white(al2) {
        if sr {
            s.take(off + ld + 2) + p.subrange(ld + 2, p.len() - 1) + seq!['$', '$']
        } else {
            s + seq!['$', '$']
        }
    } else {
        trim_end_js(s.take(off + ld))
    }
}

#[verifier::rlimit(30)]
pub fn fix_inline_math_in(s: &[char]) -> (out: Vec<char>)
    ensures
        out@ == fix_inline_math_spec(s@),
{
    let n = s.len();
    if n == 1 && s[0] == '$' {
        assert(s@ == seq!['$']);
        return Vec::new();
    }
    assert(s@ != seq!['$']) by {
        if s@ == seq!['$'] {
            assert(s@.len() == 1 && s@[0] == '$');
        }
    }
    if within_code_in(s, n) {
        return sub_vec(s, 0, n);
    }
    let (_line, off) = last_para_range_in(s, false);
    let p = sub_vec(s, off, n);
    assert(p@ == s@.skip(off as int));
    let without_code = strip_code_in(&p);
    let without_inline = strip_inline_in(&without_code);
    let dd = vec!['$', '$'];
    assert(dd@ == seq!['$', '$']);
    let count = count_in(&without_inline, &dd);
    if count % 2 == 0 {
        return sub_vec(s, 0, n);
    }
    let ld = match last_dollar_pair_in(&p) {
        Some(x) => x,
        None => {
            return sub_vec(s, 0, n);
        },
    };
    let pl = p.len();
    let al = sub_vec(&p, ld + 2, pl);
    assert(al@ == p@.skip(ld + 2));
    if find_char_from(&al, '\n', 0).is_some() {
        return sub_vec(s, 0, n);
    }
    let t = trim_white_vec(&al);
    if t.len() == 1 && t[0] == '$' {
        assert(t@ == seq!['$']);
        return sub_vec(s, 0, n);
    }
    assert(t@ != seq!['$']) by {
        if t@ == seq!['$'] {
            assert(t@.len() == 1 && t@[0] == '$');
        }
    }
    let am = al.len();
    let sr = am > 0 && al[am - 1] == '$' && !(am >= 2 && al[am - 2] == '$');
    let al2_len = if sr {
        am - 1
    } else {
        am
    };
    assert(al@.subrange(0, al2_len as int) == if sr {
        al@.drop_last()
    } else {
        al@
    });
    if !all_white_range(&al, 0, al2_len) {
        if sr {
            let mut out = sub_vec(s, 0, off + ld + 2);
            extend_range(&mut out, &p, ld + 2, pl - 1);
            out.push('$');
            out.push('$');
            return out;
        }
        let mut out = sub_vec(s, 0, n);
        out.push('$');
        out.push('$');
        assert(out@ == s@ + seq!['$', '$']);
        return out;
    }
    let head = sub_vec(s, 0, off + ld);
    let k = trim_end_js_len(&head);
    sub_vec(&head, 0, k)
}

/// Close or drop an unclosed inline `$$` span.
pub fn fix_inline_math(content: &str) -> (r: String)
    ensures
        r@ == fix_inline_math_spec(content@),
{
    let v = chars_of(content);
    let o = fix_inline_math_in(&v);
    string_of(&o)
}

/// Characters past the trimmed part of `x` are whitespace.
proof fn lemma_trim_white_outside(x: Seq<char>) -> (j: int)
    ensures
        0 <= j,
        j + trim_white(x).len() <= x.len(),
        trim_white(x) == x.subrange(j, j + trim_white(x).len()),
        forall|i: int| 0 <= i < j ==> is_white(#[trigger] x[i]),
        forall|i: int| j + trim_white(x).len() <= i < x.len() ==> is_white(#[trigger] x[i]),
{
    lemma_trim_end_white_tail(x);
    lemma_trim_end_white_prefix(x);
    let e = trim_end_white(x);
    lemma_trim_start_white_head(e);
    lemma_trim_start_white_suffix(e);
    let t = trim_white(x);
    let j = e.len() - t.len();
    assert(t == x.subrange(j, j + t.len()));
    assert forall|i: int| 0 <= i < j implies is_white(#[trigger] x[i]) by {
        assert(x[i] == e[i]);
    }
    j
}

proof fn lemma_trim_end_white_tail(s: Seq<char>)
    ensures
        forall|i: int| trim_end_white(s).len() <= i < s.len() ==> is_white(#[trigger] s[i]),
    decreases s.len(),
{
    if s.len() > 0 && is_white(s.last()) {
        lemma_trim_end_white_tail(s.drop_last());
        assert forall|i: int| trim_end_white(s).len() <= i < s.len() implies is_white(
            #[trigger] s[i],
        ) by {
            if i < s.len() - 1 {
                assert(s[i] == s.drop_last()[i]);
            }
        }
    }
}

proof fn lemma_trim_start_white_head(s: Seq<char>)
    ensures
        forall|i: int| 0 <= i < s.len() - trim_start_white(s).len() ==> is_white(#[trigger] s[i]),
    decreases s.len(),
{
    if s.len() > 0 && is_white(s[0]) {
        lemma_trim_start_white_head(s.drop_first());
        assert forall|i: int| 0 <= i < s.len() - trim_start_white(s).len() implies is_white(
            #[trigger] s[i],
        ) by {
            if i > 0 {
                assert(s[i] == s.drop_first()[i - 1]);
            }
        }
    }
}

/// With no content after line `k`, every later line is blank or `$$`.
proof fn lemma_no_content_after(s: Seq<char>, l: Seq<(usize, usize)>, k: int, m: int)
    requires
        0 <= k < m < l.len(),
        !content_after(s, l, k),
    ensures
        tline(s, l, m).len() == 0 || is_dd(tline(s, l, m)),
    decreases m - k,
{
    if m > k + 1 {
        lemma_no_content_after(s, l, k + 1, m);
    }
}

/// A position at or after the start of line `m` lies on some line `k >= m`,
/// or on the newline that ends it.
proof fn lemma_pos_on_line(s: Seq<char>, l: Seq<(usize, usize)>, m: int, i: int) -> (k: int)
    requires
        lines_shape(s, l, 0),
        0 <= m < l.len(),
        l[m].0 <= i < s.len(),
    ensures
        m <= k < l.len(),
        l[k].0 <= i <= l[k].1,
    decreases l.len() - m,
{
    if i <= l[m].1 {
        m
    } else {
        lemma_pos_on_line(s, l, m + 1, i)
    }
}

/// From the start of line `last` (or the newline before it) to the end, a
/// `$$` line followed by lines that are blank or `$$` holds only whitespace
/// and `$`.
proof fn lemma_tail_white_or_dollar(s: Seq<char>, l: Seq<(usize, usize)>, last: int)
    requires
        lines_shape(s, l, 0),
        0 <= last < l.len(),
        is_dd(tline(s, l, last)),
        !content_after(s, l, last),
    ensures
        forall|i: int|
            (if last == 0 { 0 } else { l[last].0 - 1 }) <= i < s.len() ==> is_white(#[trigger] s[i])
                || s[i] == '$',
{
    assert forall|k: int| last <= k < l.len() implies #[trigger] tline(s, l, k).len() == 0 || is_dd(
        tline(s, l, k),
    ) by {
        if k > last {
            lemma_no_content_after(s, l, last, k);
        }
    }
    assert forall|i: int|
        (if last == 0 { 0 } else { l[last].0 - 1 }) <= i < s.len() implies is_white(
        #[trigger] s[i],
    ) || s[i] == '$' by {
        lemma_tail_char(s, l, last, i);
    }
}

proof fn lemma_tail_char(s: Seq<char>, l: Seq<(usize, usize)>, last: int, i: int)
    requires
        lines_shape(s, l, 0),
        0 <= last < l.len(),
        forall|k: int| last <= k < l.len() ==> #[trigger] tline(s, l, k).len() == 0 || is_dd(
            tline(s, l, k),
        ),
        (if last == 0 { 0 } else { l[last].0 - 1 }) <= i < s.len(),
    ensures
        is_white(s[i]) || s[i] == '$',
{
    if i < l[last].0 {
        assert(l[last - 1].1 + 1 == l[last].0);
    } else {
        let k = lemma_pos_on_line(s, l, last, i);
        if i == l[k].1 {
            assert(k < l.len() - 1);
        } else {
            assert(tline(s, l, k).len() == 0 || is_dd(tline(s, l, k)));
            lemma_line_char(s, l[k].0 as int, l[k].1 as int, i);
        }
    }
}

/// A character of a line whose trimmed text is empty or `$$` is whitespace or `$`.
proof fn lemma_line_char(s: Seq<char>, a: int, b: int, i: int)
    requires
        0 <= a <= i < b <= s.len(),
        trim_white(s.subrange(a, b)).len() == 0 || is_dd(trim_white(s.subrange(a, b))),
    ensures
        is_white(s[i]) || s[i] == '$',
{
    let x = s.subrange(a, b);
    let j = lemma_trim_white_outside(x);
    assert(s[i] == x[i - a]);
    let t = trim_white(x);
    if j <= i - a < j + t.len() {
        assert(x[i - a] == t[i - a - j]);
    }
}

/// `r` is `s` cut just before a line that reads `$$`, or before the newline
/// that precedes that line, and the cut-off part of `s` holds nothing
/// but whitespace and `$`.
#[verifier::opaque]
pub open spec fn cut_before_dd_line(s: Seq<char>, r: Seq<char>) -> bool {
    let p: int = if r.len() < s.len() && s[r.len() as int] == '\n' {
        r.len() + 1int
    } else {
        r.len() as int
    };
    &&& r.len() < s.len()
    &&& r == s.take(r.len() as int)
    &&& forall|i: int| r.len() <= i < s.len() ==> is_white(#[trigger] s[i]) || s[i] == '$'
    &&& r.len() == 0 || s[r.len() as int] == '\n'
    &&& ({
        let e = find_char(s, '\n', p);
        let q = if e < 0 { s.len() as int } else { e };
        trim_white(s.subrange(p, q)) == seq!['$', '$']
    })
}

proof fn lemma_cut_before(s: Seq<char>, l: Seq<(usize, usize)>, last: int)
    requires
        lines_shape(s, l, 0),
        0 <= last < l.len(),
        is_dd(tline(s, l, last)),
        !content_after(s, l, last),
    ensures
        cut_before_dd_line(s, if last == 0 { Seq::empty() } else { s.take(l[last].0 - 1) }),
{
    let a = l[last].0 as int;
    let q = l[last].1 as int;
    let start = if last == 0 { 0 } else { a - 1 };
    assert(a <= q <= s.len());
    if last > 0 {
        assert(l[last - 1].1 + 1 == a);
        assert(l[last - 1].1 < s.len() && s[l[last - 1].1 as int] == '\n');
    }
    if last < l.len() - 1 {
        assert(q < s.len() && s[q] == '\n');
    }
    assert forall|j: int| a <= j < q implies #[trigger] s[j] != '\n' by {
        assert(l[last].0 <= j < l[last].1);
    }
    lemma_tail_white_or_dollar(s, l, last);
    lemma_cut_at(s, a, q);
    assert(s.take(start) == if last == 0 { Seq::empty() } else { s.take(l[last].0 - 1) });
}

proof fn lemma_cut_at(s: Seq<char>, a: int, q: int)
    requires
        0 <= a <= q <= s.len(),
        a > 0 ==> s[a - 1] == '\n',
        q == s.len() || s[q] == '\n',
        forall|j: int| a <= j < q ==> #[trigger] s[j] != '\n',
        forall|i: int|
            (if a == 0 { 0 } else { a - 1 }) <= i < s.len() ==> is_white(#[trigger] s[i]) || s[i]
                == '$',
        trim_white(s.subrange(a, q)) == seq!['$', '$'],
    ensures
        cut_before_dd_line(s, s.take(if a == 0 { 0 } else { a - 1 })),
{
    reveal(cut_before_dd_line);
    let r = s.take(if a == 0 { 0 } else { a - 1 });
    let x = s.subrange(a, q);
    lemma_trim_white_outside(x);
    assert(r.len() < s.len());
    if a == 0 {
        assert(x.len() >= 2);
        assert(s[0] == x[0]);
    }
    let p: int = if r.len() < s.len() && s[r.len() as int] == '\n' {
        r.len() + 1int
    } else {
        r.len() as int
    };
    assert(p == a);
    assert(s.subrange(p, q) == x);
    assert(r == s.take(r.len() as int));
    assert(r.len() == 0 || s[r.len() as int] == '\n');
    assert(forall|i: int| r.len() <= i < s.len() ==> is_white(#[trigger] s[i]) || s[i] == '$');
    lemma_find_char_bounds(s, '\n', p);
    let e = find_char(s, '\n', p);
    if e >= 0 {
        if e < q {
            assert(s[e] != '\n');
        }
        if e > q {
            assert(s[q] != '\n');
        }
    } else if q < s.len() {
        assert(s[q] != '\n');
    }
}

/// When `fix_math` shortens its input, it keeps the input up to the newline
/// before a line that reads `$$` (nothing when that line is the first), and
/// what it drops is whitespace and `$` alone. Otherwise it returns the input,
/// or the input with a closing `$$` line after it.
pub proof fn lemma_fix_math_keeps_text(s: Seq<char>)
    requires
        s.len() <= usize::MAX,
    ensures
        ({
            let r = fix_math_spec(s);
            ||| r == s
            ||| (s.len() > 0 && s.last() == '\n' && r == s + seq!['$', '$'])
            ||| r == s + seq!['\n', '$', '$']
            ||| cut_before_dd_line(s, r)
        }),
{
    let l = line_ranges(s);
    lemma_lines_shape(s, 0);
    let d = math_delims(s, l, 0, false);
    let r = fix_math_spec(s);
    if inside_unclosed_code(s) || d.len() % 2 == 0 {
        assert(r == s);
    } else if content_after(s, l, d.last()) {
        assert(r == if s.len() > 0 && s.last() == '\n' {
            s + seq!['$', '$']
        } else {
            s + seq!['\n', '$', '$']
        });
    } else {
        lemma_math_delims(s, l, 0, false);
        let last = d.last();
        assert(d[d.len() - 1] == last);
        assert(is_dd(tline(s, l, last)));
        lemma_cut_before(s, l, last);
        assert(r == if last == 0 {
            Seq::empty()
        } else {
            s.take(l[last].0 - 1)
        });
    }
}

/// The lines of `s`, without their newlines.
pub open spec fn line_texts(s: Seq<char>) -> Seq<Seq<char>> {
    line_ranges(s).map_values(|r: (usize, usize)| s.subrange(r.0 as int, r.1 as int))
}

/// The first `k` lines joined by newlines run up to the end of line `k - 1`.
proof fn lemma_join_lines(s: Seq<char>, k: int)
    requires
        s.len() <= usize::MAX,
        1 <= k <= line_ranges(s).len(),
    ensures
        join(line_texts(s).take(k), seq!['\n']) == s.take(line_ranges(s)[k - 1].1 as int),
    decreases k,
{
    let l = line_ranges(s);
    lemma_lines_shape(s, 0);
    let parts = line_texts(s).take(k);
    if k == 1 {
        assert(parts[0] == s.subrange(l[0].0 as int, l[0].1 as int));
        assert(s.subrange(0, l[0].1 as int) == s.take(l[0].1 as int));
    } else {
        lemma_join_lines(s, k - 1);
        assert(parts.drop_last() == line_texts(s).take(k - 1));
        assert(parts.last() == s.subrange(l[k - 1].0 as int, l[k - 1].1 as int));
        assert(l[k - 1].0 == l[k - 2].1 + 1);
        assert(s[l[k - 2].1 as int] == '\n');
        assert(s.take(l[k - 2].1 as int) + seq!['\n'] + s.subrange(
            l[k - 1].0 as int,
            l[k - 1].1 as int,
        ) =~= s.take(l[k - 1].1 as int));
    }
}

/// Lines after `k` that are all blank or `$$` leave no content after `k`.
proof fn lemma_blank_after(s: Seq<char>, l: Seq<(usize, usize)>, k: int)
    requires
        0 <= k,
        forall|m: int| k < m < l.len() ==> #[trigger] tline(s, l, m).len() == 0 || is_dd(
            tline(s, l, m),
        ),
    ensures
        !content_after(s, l, k),
    decreases l.len() - k,
{
    if k + 1 < l.len() {
        lemma_blank_after(s, l, k + 1);
    }
}

/// With a line of content after `k`, there is content after `k`.
proof fn lemma_some_after(s: Seq<char>, l: Seq<(usize, usize)>, k: int, m: int)
    requires
        0 <= k < m < l.len(),
        tline(s, l, m).len() > 0,
        !is_dd(tline(s, l, m)),
    ensures
        content_after(s, l, k),
    decreases m - k,
{
    if m > k + 1 {
        lemma_some_after(s, l, k + 1, m);
    }
}

/// An unclosed `$$` block (outside code, an odd number of `$$` lines) whose
/// last `$$` line has only blank and `$$` lines after it is dropped:
/// `fix_math` returns the lines before that `$$` line, joined by newlines.
pub proof fn lemma_fix_math_drops_empty_block(s: Seq<char>)
    requires
        s.len() <= usize::MAX,
        !inside_unclosed_code(s),
        math_delims(s, line_ranges(s), 0, false).len() % 2 == 1,
        forall|m: int|
            math_delims(s, line_ranges(s), 0, false).last() < m < line_ranges(s).len()
                ==> #[trigger] tline(s, line_ranges(s), m).len() == 0 || is_dd(
                tline(s, line_ranges(s), m),
            ),
    ensures
        fix_math_spec(s) == join(
            line_texts(s).take(math_delims(s, line_ranges(s), 0, false).last()),
            seq!['\n'],
        ),
{
    let l = line_ranges(s);
    lemma_lines_shape(s, 0);
    let d = math_delims(s, l, 0, false);
    lemma_math_delims(s, l, 0, false);
    let last = d.last();
    assert(d[d.len() - 1] == last);
    lemma_blank_after(s, l, last);
    if last == 0 {
        assert(line_texts(s).take(0) =~= Seq::<Seq<char>>::empty());
    } else {
        lemma_join_lines(s, last);
        assert(l[last - 1].1 + 1 == l[last].0);
    }
}

/// An unclosed `$$` block (outside code, an odd number of `$$` lines) with a
/// line of other content after its last `$$` line is closed: `fix_math`
/// returns the text with a `$$` line after it.
pub proof fn lemma_fix_math_closes_block(s: Seq<char>, m: int)
    requires
        s.len() <= usize::MAX,
        !inside_unclosed_code(s),
        math_delims(s, line_ranges(s), 0, false).len() % 2 == 1,
        math_delims(s, line_ranges(s), 0, false).last() < m < line_ranges(s).len(),
        tline(s, line_ranges(s), m).len() > 0,
        !is_dd(tline(s, line_ranges(s), m)),
    ensures
        fix_math_spec(s) == if s.len() > 0 && s.last() == '\n' {
            s + seq!['$', '$']
        } else {
            s + seq!['\n', '$', '$']
        },
{
    let l = line_ranges(s);
    let d = math_delims(s, l, 0, false);
    lemma_math_delims(s, l, 0, false);
    assert(d[d.len() - 1] == d.last());
    lemma_some_after(s, l, d.last(), m);
}

} // verus!
