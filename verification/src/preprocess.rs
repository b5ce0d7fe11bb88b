//! `normalize` (line endings, trailing whitespace, LaTeX delimiters) and the
//! ordered `preprocess` pipeline of fixers.
use vstd::prelude::*;
use crate::emphasis::{
    fix_delete_in, fix_delete_spec, fix_emphasis_in, fix_emphasis_spec, fix_strong_in,
    fix_strong_spec,
};
use crate::fix::{
    fix_code_in, fix_code_spec, fix_footnote_in, fix_footnote_spec, fix_html_in, fix_html_spec,
    fix_link_in, fix_link_spec, fix_task_list_in, fix_task_list_spec,
};
use crate::fix_math::{fix_inline_math_in, fix_inline_math_spec, fix_math_in, fix_math_spec};
use crate::fix_table::{fix_table_in, fix_table_spec};
use crate::scan::{closed_code_ranges, code_ranges_in, lemma_code_ranges_wf, ranges_well_formed};
use crate::text::{
    chars_of, extend_all, extend_range, find_char, find_char_from, find_seq, find_seq_from,
    lemma_find_char_bounds, lemma_find_seq_bounds, matches_at, string_of, sub_vec, trim_end_white,
    trim_end_white_len,
};

verus! {

/// Options of the preprocess pipeline.
#[derive(Debug, Clone, Copy)]
pub struct PreprocessOptions {
    /// Treat single `$...$` as inline math (default: false, only `$$` counts).
    pub single_dollar_text_math: bool,
}

impl Default for PreprocessOptions {
    fn default() -> (r: Self)
        ensures
            !r.single_dollar_text_math,
    {
        PreprocessOptions { single_dollar_text_math: false }
    }
}

// ---------------------------------------------------------------------------
// line endings
// ---------------------------------------------------------------------------

/// `\r\n` and lone `\r` turned into `\n`, from `i` on.
pub open spec fn crlf_from(s: Seq<char>, i: int) -> Seq<char>
    decreases s.len() - i,
{
    if i < 0 || i >= s.len() {
        Seq::empty()
    } else if s[i] == '\r' && i + 1 < s.len() && s[i + 1] == '\n' {
        seq!['\n'] + crlf_from(s, i + 2)
    } else if s[i] == '\r' {
        seq!['\n'] + crlf_from(s, i + 1)
    } else {
        seq![s[i]] + crlf_from(s, i + 1)
    }
}

/// CRLF -> LF, trailing whitespace trimmed.
pub open spec fn clean_content(s: Seq<char>) -> Seq<char> {
    trim_end_white(crlf_from(s, 0))
}

fn clean_content_in(s: &[char]) -> (out: Vec<char>)
    ensures
        out@ == clean_content(s@),
{
    let mut v: Vec<char> = Vec::new();
    let mut i: usize = 0;
    while i < s.len()
        invariant
            i <= s.len(),
            v@ + crlf_from(s@, i as int) == crlf_from(s@, 0),
        decreases s.len() - i,
    {
        if s[i] == '\r' && i + 1 < s.len() && s[i + 1] == '\n' {
            v.push('\n');
            i += 2;
        } else if s[i] == '\r' {
            v.push('\n');
            i += 1;
        } else {
            v.push(s[i]);
            i += 1;
        }
    }
    let k = trim_end_white_len(&v);
    sub_vec(&v, 0, k)
}

// ---------------------------------------------------------------------------
// LaTeX delimiters
// ---------------------------------------------------------------------------

/// `\<o> ... \<cl>` spans rewritten to `$$...$$` from `i` on; without
/// `multiline`, spans containing a newline stay.
pub open spec fn delim_math_from(s: Seq<char>, o: char, cl: char, multiline: bool, i: int) -> Seq<
    char,
>
    decreases s.len() - i,
{
    if i < 0 || i >= s.len() {
        Seq::empty()
    } else {
        let j = find_seq(s, seq!['\\', cl], i + 2);
        if s[i] == '\\' && i + 1 < s.len() && s[i + 1] == o && j >= 0 && (multiline || find_char(
            s.subrange(i + 2, j),
            '\n',
            0,
        ) < 0) {
            proof {
                lemma_find_seq_bounds(s, seq!['\\', cl], i + 2);
            }
            seq!['$', '$'] + s.subrange(i + 2, j) + seq!['$', '$'] + delim_math_from(
                s,
                o,
                cl,
                multiline,
                j + 2,
            )
        } else {
            seq![s[i]] + delim_math_from(s, o, cl, multiline, i + 1)
        }
    }
}

fn delim_math_in(s: &[char], o: char, cl: char, multiline: bool) -> (out: Vec<char>)
    ensures
        out@ == delim_math_from(s@, o, cl, multiline, 0),
{
    let close = vec!['\\', cl];
    assert(close@ == seq!['\\', cl]);
    let mut out: Vec<char> = Vec::new();
    let mut i: usize = 0;
    while i < s.len()
        invariant
            i <= s.len(),
            close@ == seq!['\\', cl],
            out@ + delim_math_from(s@, o, cl, multiline, i as int) == delim_math_from(
                s@,
                o,
                cl,
                multiline,
                0,
            ),
        decreases s.len() - i,
    {
        if s[i] == '\\' && i + 1 < s.len() && s[i + 1] == o {
            match find_seq_from(s, &close, i + 2) {
                Some(j) => {
                    proof {
                        lemma_find_seq_bounds(s@, close@, i + 2);
                    }
                    let eq = sub_vec(s, i + 2, j);
                    if multiline || find_char_from(&eq, '\n', 0).is_none() {
                        let ghost before = out@;
                        out.push('$');
                        out.push('$');
                        extend_all(&mut out, &eq);
                        out.push('$');
                        out.push('$');
                        assert(out@ == before + (seq!['$', '$'] + s@.subrange(i + 2, j as int)
                            + seq!['$', '$']));
                        i = j + 2;
                        continue;
                    }
                },
                None => {},
            }
        }
        out.push(s[i]);
        i += 1;
    }
    out
}

/// `/(^|[^\\])\$(.+?)\$/g -> $1$$$2$`, leaving `$` that belong to a `$$` pair alone.
pub open spec fn dollar_math_from(s: Seq<char>, i: int) -> Seq<char>
    decreases s.len() - i,
{
    if i < 0 || i >= s.len() {
        Seq::empty()
    } else {
        let prefix_ok = i == 0 || s[i - 1] != '\\';
        let part_of_double = (i + 1 < s.len() && s[i + 1] == '$') || (i > 0 && s[i - 1] == '$');
        let j = find_char(s, '$', i + 1);
        if s[i] == '$' && prefix_ok && !part_of_double && j >= 0 {
            proof {
                lemma_find_char_bounds(s, '$', i + 1);
            }
            let eq = s.subrange(i + 1, j);
            if eq.len() == 0 || find_char(eq, '\n', 0) >= 0 {
                seq!['$'] + dollar_math_from(s, i + 1)
            } else {
                seq!['$', '$'] + eq + seq!['$'] + dollar_math_from(s, j + 1)
            }
        } else {
            seq![s[i]] + dollar_math_from(s, i + 1)
        }
    }
}

fn dollar_math_in(s: &[char]) -> (out: Vec<char>)
    ensures
        out@ == dollar_math_from(s@, 0),
{
    let mut out: Vec<char> = Vec::new();
    let mut i: usize = 0;
    while i < s.len()
        invariant
            i <= s.len(),
            out@ + dollar_math_from(s@, i as int) == dollar_math_from(s@, 0),
        decreases s.len() - i,
    {
        let prefix_ok = i == 0 || s[i - 1] != '\\';
        let part_of_double = (i + 1 < s.len() && s[i + 1] == '$') || (i > 0 && s[i - 1] == '$');
        if s[i] == '$' && prefix_ok && !part_of_double {
            match find_char_from(s, '$', i + 1) {
                Some(j) => {
                    proof {
                        lemma_find_char_bounds(s@, '$', i + 1);
                    }
                    let eq = sub_vec(s, i + 1, j);
                    if eq.len() == 0 || find_char_from(&eq, '\n', 0).is_some() {
                        out.push('$');
                        i += 1;
                        continue;
                    }
                    let ghost before = out@;
                    out.push('$');
                    out.push('$');
                    extend_all(&mut out, &eq);
                    out.push('$');
                    assert(out@ == before + (seq!['$', '$'] + s@.subrange(i + 1, j as int) + seq![
                        '$',
                    ]));
                    i = j + 1;
                    continue;
                },
                None => {},
            }
        }
        out.push(s[i]);
        i += 1;
    }
    out
}

/// The four delimiter rewrites, in order: single-line `\[..\]`, multi-line
/// `\[..\]`, `\(..\)`, single `$..$`.
pub open spec fn rewrite_math(s: Seq<char>) -> Seq<char> {
    let a = delim_math_from(s, '[', ']', false, 0);
    let b = delim_math_from(a, '[', ']', true, 0);
    let c = delim_math_from(b, '(', ')', false, 0);
    dollar_math_from(c, 0)
}

/// The math rewrites of one stretch of text.
fn rewrite_math_in(s: &[char]) -> (out: Vec<char>)
    ensures
        out@ == rewrite_math(s@),
{
    let a = delim_math_in(s, '[', ']', false);
    let b = delim_math_in(&a, '[', ']', true);
    let c = delim_math_in(&b, '(', ')', false);
    dollar_math_in(&c)
}

/// The text from `cursor` on, with the stretches between the code fences
/// `r[k..]` rewritten and every fence kept as it is, where it is.
pub open spec fn latex_from(s: Seq<char>, r: Seq<(usize, usize)>, k: int, cursor: int) -> Seq<char>
    decreases r.len() - k,
{
    if k < 0 || k >= r.len() {
        rewrite_math(s.subrange(cursor, s.len() as int))
    } else {
        rewrite_math(s.subrange(cursor, r[k].0 as int)) + s.subrange(r[k].0 as int, r[k].1 as int)
            + latex_from(s, r, k + 1, r[k].1 as int)
    }
}

/// `\(x\)`, `\[x\]` and `$x$` math delimiters rewritten to the `$$` forms
/// between the closed code fences, which stay untouched in place.
pub open spec fn latex_spec(s: Seq<char>) -> Seq<char> {
    latex_from(s, closed_code_ranges(s), 0, 0)
}

pub fn latex_in(s: &[char]) -> (out: Vec<char>)
    ensures
        out@ == latex_spec(s@),
{
    let r = code_ranges_in(s);
    proof {
        assert(s@.len() == s.len());
        lemma_code_ranges_wf(s@, 0);
    }
    let mut out: Vec<char> = Vec::new();
    let mut cursor: usize = 0;
    let mut k: usize = 0;
    while k < r.len()
        invariant
            r@ == closed_code_ranges(s@),
            ranges_well_formed(r@, s@.len() as int),
            k <= r.len(),
            cursor <= s.len(),
            k < r.len() ==> cursor <= r@[k as int].0,
            out@ + latex_from(s@, r@, k as int, cursor as int) == latex_spec(s@),
        decreases r.len() - k,
    {
        let (a, b) = r[k];
        let gap = sub_vec(s, cursor, a);
        let g = rewrite_math_in(&gap);
        let ghost before = out@;
        extend_all(&mut out, &g);
        extend_range(&mut out, s, a, b);
        assert(out@ == before + rewrite_math(s@.subrange(cursor as int, a as int)) + s@.subrange(
            a as int,
            b as int,
        ));
        cursor = b;
        k += 1;
        if k < r.len() {
            assert(r@[k - 1].1 <= r@[k as int].0);
        }
    }
    let gap = sub_vec(s, cursor, s.len());
    let g = rewrite_math_in(&gap);
    extend_all(&mut out, &g);
    out
}

/// `/\\\[(.*?)\\\]/` -> `$$...$$` (single-line, then block bracket math),
/// `/\\\((.*?)\\\)/` -> `$$...$$`, `/(^|[^\\])\$(.+?)\$/` -> `$1$$$2$`.
pub fn preprocess_latex(content: &str) -> (r: String)
    ensures
        r@ == latex_spec(content@),
{
    let v = chars_of(content);
    let o = latex_in(&v);
    string_of(&o)
}

/// CRLF -> LF, trailing whitespace trimmed, LaTeX delimiters rewritten.
pub open spec fn normalize_spec(s: Seq<char>) -> Seq<char> {
    latex_spec(clean_content(s))
}

pub fn normalize_in(s: &[char]) -> (out: Vec<char>)
    ensures
        out@ == normalize_spec(s@),
{
    let c = clean_content_in(s);
    latex_in(&c)
}

pub fn normalize(content: &str) -> (r: String)
    ensures
        r@ == normalize_spec(content@),
{
    let v = chars_of(content);
    let o = normalize_in(&v);
    string_of(&o)
}

/// The ordered preprocess steps: code, html, footnote, strong, emphasis,
/// delete, task list, link, table, inline math, math.
pub open spec fn preprocess_spec(s: Seq<char>, single: bool) -> Seq<char> {
    let a = fix_code_spec(s);
    let b = fix_html_spec(a);
    let c = fix_footnote_spec(b);
    let d = fix_strong_spec(c, single);
    let e = fix_emphasis_spec(d);
    let f = fix_delete_spec(e);
    let g = fix_task_list_spec(f);
    let h = fix_link_spec(g);
    let i = fix_table_spec(h);
    let j = fix_inline_math_spec(i);
    fix_math_spec(j)
}

pub fn preprocess_in(s: &[char], single: bool) -> (out: Vec<char>)
    ensures
        out@ == preprocess_spec(s@, single),
{
    let a = fix_code_in(s);
    let b = fix_html_in(&a);
    let c = fix_footnote_in(&b);
    let d = fix_strong_in(&c, single);
    let e = fix_emphasis_in(&d);
    let f = fix_delete_in(&e);
    let g = fix_task_list_in(&f);
    let h = fix_link_in(&g);
    let i = fix_table_in(&h);
    let j = fix_inline_math_in(&i);
    fix_math_in(&j)
}

/// Ordered preprocess steps — order matters.
pub fn preprocess(content: &str, options: &PreprocessOptions) -> (r: String)
    ensures
        r@ == preprocess_spec(content@, options.single_dollar_text_math),
{
    let v = chars_of(content);
    let o = preprocess_in(&v, options.single_dollar_text_math);
    string_of(&o)
}

/// Line-ending normalization leaves no carriage return.
pub proof fn lemma_crlf_has_no_cr(s: Seq<char>, i: int)
    ensures
        forall|k: int| 0 <= k < crlf_from(s, i).len() ==> crlf_from(s, i)[k] != '\r',
    decreases s.len() - i,
{
    if !(i < 0 || i >= s.len()) {
        let j = if s[i] == '\r' && i + 1 < s.len() && s[i + 1] == '\n' {
            i + 2
        } else {
            i + 1
        };
        lemma_crlf_has_no_cr(s, j);
        let head = if s[i] == '\r' {
            '\n'
        } else {
            s[i]
        };
        assert(crlf_from(s, i) == seq![head] + crlf_from(s, j));
        assert forall|k: int| 0 <= k < crlf_from(s, i).len() implies crlf_from(s, i)[k] != '\r' by {
            if k > 0 {
                assert(crlf_from(s, i)[k] == crlf_from(s, j)[k - 1]);
            }
        }
    }
}

proof fn lemma_trim_end_prefix(s: Seq<char>)
    ensures
        trim_end_white(s).len() <= s.len(),
        trim_end_white(s) == s.take(trim_end_white(s).len() as int),
        trim_end_white(s).len() > 0 ==> !crate::text::is_white(trim_end_white(s).last()),
    decreases s.len(),
{
    if s.len() > 0 && crate::text::is_white(s.last()) {
        lemma_trim_end_prefix(s.drop_last());
        assert(s.drop_last().take(trim_end_white(s).len() as int) == s.take(
            trim_end_white(s).len() as int,
        ));
    } else {
        assert(s.take(s.len() as int) == s);
    }
}

/// The cleaned content (line endings normalized, trailing whitespace
/// trimmed) holds no carriage return and does not end in whitespace.
pub proof fn lemma_clean_content(s: Seq<char>)
    ensures
        forall|k: int| 0 <= k < clean_content(s).len() ==> clean_content(s)[k] != '\r',
        clean_content(s).len() > 0 ==> !crate::text::is_white(clean_content(s).last()),
{
    lemma_crlf_has_no_cr(s, 0);
    lemma_trim_end_prefix(crlf_from(s, 0));
    let c = crlf_from(s, 0);
    let t = clean_content(s);
    assert forall|k: int| 0 <= k < t.len() implies t[k] != '\r' by {
        assert(t[k] == c.take(t.len() as int)[k]);
    }
}

// ---------------------------------------------------------------------------
// text without math delimiters
// ---------------------------------------------------------------------------

/// `c` occurs nowhere in `s`.
pub open spec fn lacks_char(s: Seq<char>, c: char) -> bool {
    forall|k: int| 0 <= k < s.len() ==> s[k] != c
}

proof fn lemma_crlf_identity(s: Seq<char>, i: int)
    requires
        0 <= i <= s.len(),
        lacks_char(s, '\r'),
    ensures
        crlf_from(s, i) == s.subrange(i, s.len() as int),
    decreases s.len() - i,
{
    if i < s.len() {
        lemma_crlf_identity(s, i + 1);
        assert(seq![s[i]] + s.subrange(i + 1, s.len() as int) =~= s.subrange(i, s.len() as int));
    } else {
        assert(s.subrange(i, s.len() as int) =~= Seq::<char>::empty());
    }
}

proof fn lemma_delim_identity(x: Seq<char>, o: char, cl: char, m: bool, i: int)
    requires
        0 <= i <= x.len(),
        lacks_char(x, '\\'),
    ensures
        delim_math_from(x, o, cl, m, i) == x.subrange(i, x.len() as int),
    decreases x.len() - i,
{
    if i < x.len() {
        lemma_delim_identity(x, o, cl, m, i + 1);
        assert(seq![x[i]] + x.subrange(i + 1, x.len() as int) =~= x.subrange(i, x.len() as int));
    } else {
        assert(x.subrange(i, x.len() as int) =~= Seq::<char>::empty());
    }
}

proof fn lemma_dollar_identity(x: Seq<char>, i: int)
    requires
        0 <= i <= x.len(),
        lacks_char(x, '$'),
    ensures
        dollar_math_from(x, i) == x.subrange(i, x.len() as int),
    decreases x.len() - i,
{
    if i < x.len() {
        lemma_dollar_identity(x, i + 1);
        assert(seq![x[i]] + x.subrange(i + 1, x.len() as int) =~= x.subrange(i, x.len() as int));
    } else {
        assert(x.subrange(i, x.len() as int) =~= Seq::<char>::empty());
    }
}

/// The rewrites leave text without `$` and `\` as it is.
proof fn lemma_rewrite_identity(x: Seq<char>)
    requires
        lacks_char(x, '$'),
        lacks_char(x, '\\'),
    ensures
        rewrite_math(x) == x,
{
    assert(x.subrange(0, x.len() as int) =~= x);
    lemma_delim_identity(x, '[', ']', false, 0);
    lemma_delim_identity(x, '[', ']', true, 0);
    lemma_delim_identity(x, '(', ')', false, 0);
    lemma_dollar_identity(x, 0);
}

/// A stretch of text without `c` has no `c`.
proof fn lemma_sub_lacks(s: Seq<char>, a: int, b: int, c: char)
    requires
        0 <= a <= b <= s.len(),
        lacks_char(s, c),
    ensures
        lacks_char(s.subrange(a, b), c),
{
    assert forall|m: int| 0 <= m < b - a implies s.subrange(a, b)[m] != c by {
        assert(s.subrange(a, b)[m] == s[a + m]);
    }
}

proof fn lemma_latex_identity(s: Seq<char>, r: Seq<(usize, usize)>, k: int, cursor: int)
    requires
        ranges_well_formed(r, s.len() as int),
        lacks_char(s, '$'),
        lacks_char(s, '\\'),
        0 <= k,
        0 <= cursor <= s.len(),
        k < r.len() ==> cursor <= r[k].0,
    ensures
        latex_from(s, r, k, cursor) == s.subrange(cursor, s.len() as int),
    decreases r.len() - k,
{
    if k < r.len() {
        let a = r[k].0 as int;
        let b = r[k].1 as int;
        assert(a <= b <= s.len());
        if k + 1 < r.len() {
            assert(r[k].1 <= r[k + 1].0);
        }
        lemma_latex_identity(s, r, k + 1, b);
        lemma_sub_lacks(s, cursor, a, '$');
        lemma_sub_lacks(s, cursor, a, '\\');
        lemma_rewrite_identity(s.subrange(cursor, a));
        assert(s.subrange(cursor, a) + s.subrange(a, b) + s.subrange(b, s.len() as int)
            =~= s.subrange(cursor, s.len() as int));
    } else {
        lemma_sub_lacks(s, cursor, s.len() as int, '$');
        lemma_sub_lacks(s, cursor, s.len() as int, '\\');
        lemma_rewrite_identity(s.subrange(cursor, s.len() as int));
    }
}

/// Text without `$`, `\` and carriage returns is only trimmed at its end by
/// `normalize`.
pub proof fn lemma_plain_text_normalizes_to_itself(s: Seq<char>)
    requires
        s.len() <= usize::MAX,
        lacks_char(s, '$'),
        lacks_char(s, '\\'),
        lacks_char(s, '\r'),
    ensures
        normalize_spec(s) == trim_end_white(s),
{
    lemma_crlf_identity(s, 0);
    assert(s.subrange(0, s.len() as int) =~= s);
    lemma_trim_end_prefix(s);
    let t = trim_end_white(s);
    assert(t == clean_content(s));
    // `t` is a prefix of `s`: it keeps every absence
    assert forall|k: int| 0 <= k < t.len() implies t[k] == s[k] by {
        assert(t[k] == s.take(t.len() as int)[k]);
    }
    let r = closed_code_ranges(t);
    lemma_code_ranges_wf(t, 0);
    lemma_latex_identity(t, r, 0, 0);
    assert(t.subrange(0, t.len() as int) =~= t);
}

// ---------------------------------------------------------------------------
// a visible character survives normalization
// ---------------------------------------------------------------------------

/// `t` has a character that is not whitespace.
pub open spec fn has_visible(t: Seq<char>) -> bool {
    exists|k: int| 0 <= k < t.len() && !crate::text::is_white(#[trigger] t[k])
}

proof fn lemma_visible_concat(a: Seq<char>, b: Seq<char>)
    ensures
        has_visible(a) || has_visible(b) <==> has_visible(a + b),
{
    if has_visible(a) {
        let k = choose|k: int| 0 <= k < a.len() && !crate::text::is_white(#[trigger] a[k]);
        assert((a + b)[k] == a[k]);
    }
    if has_visible(b) {
        let k = choose|k: int| 0 <= k < b.len() && !crate::text::is_white(#[trigger] b[k]);
        assert((a + b)[a.len() + k] == b[k]);
    }
    if has_visible(a + b) {
        let k = choose|k: int| 0 <= k < (a + b).len() && !crate::text::is_white(#[trigger] (a + b)[k]);
        if k < a.len() {
            assert(a[k] == (a + b)[k]);
        } else {
            assert(b[k - a.len()] == (a + b)[k]);
        }
    }
}

proof fn lemma_dollar_visible(d: Seq<char>)
    requires
        d.len() > 0,
        d[0] == '$',
    ensures
        has_visible(d),
{
    assert(!crate::text::is_white(d[0]));
}

proof fn lemma_delim_visible(s: Seq<char>, o: char, cl: char, m: bool, i: int, j: int)
    requires
        0 <= i <= j < s.len(),
        !crate::text::is_white(s[j]),
    ensures
        has_visible(delim_math_from(s, o, cl, m, i)),
    decreases s.len() - i,
{
    let out = delim_math_from(s, o, cl, m, i);
    let jj = find_seq(s, seq!['\\', cl], i + 2);
    if s[i] == '\\' && i + 1 < s.len() && s[i + 1] == o && jj >= 0 && (m || find_char(
        s.subrange(i + 2, jj),
        '\n',
        0,
    ) < 0) {
        assert(out[0] == '$');
        lemma_dollar_visible(out);
    } else {
        assert(out == seq![s[i]] + delim_math_from(s, o, cl, m, i + 1));
        if i == j {
            assert(out[0] == s[j]);
        } else {
            lemma_delim_visible(s, o, cl, m, i + 1, j);
            lemma_visible_concat(seq![s[i]], delim_math_from(s, o, cl, m, i + 1));
        }
    }
}

proof fn lemma_dollar_math_visible(s: Seq<char>, i: int, j: int)
    requires
        0 <= i <= j < s.len(),
        !crate::text::is_white(s[j]),
    ensures
        has_visible(dollar_math_from(s, i)),
    decreases s.len() - i,
{
    let out = dollar_math_from(s, i);
    let prefix_ok = i == 0 || s[i - 1] != '\\';
    let part_of_double = (i + 1 < s.len() && s[i + 1] == '$') || (i > 0 && s[i - 1] == '$');
    let jj = find_char(s, '$', i + 1);
    if s[i] == '$' && prefix_ok && !part_of_double && jj >= 0 {
        assert(out[0] == '$');
        lemma_dollar_visible(out);
    } else {
        assert(out == seq![s[i]] + dollar_math_from(s, i + 1));
        if i == j {
            assert(out[0] == s[j]);
        } else {
            lemma_dollar_math_visible(s, i + 1, j);
            lemma_visible_concat(seq![s[i]], dollar_math_from(s, i + 1));
        }
    }
}

proof fn lemma_rewrite_visible(t: Seq<char>)
    requires
        has_visible(t),
    ensures
        has_visible(rewrite_math(t)),
{
    let j = choose|k: int| 0 <= k < t.len() && !crate::text::is_white(#[trigger] t[k]);
    lemma_delim_visible(t, '[', ']', false, 0, j);
    let a = delim_math_from(t, '[', ']', false, 0);
    let j1 = choose|k: int| 0 <= k < a.len() && !crate::text::is_white(#[trigger] a[k]);
    lemma_delim_visible(a, '[', ']', true, 0, j1);
    let b = delim_math_from(a, '[', ']', true, 0);
    let j2 = choose|k: int| 0 <= k < b.len() && !crate::text::is_white(#[trigger] b[k]);
    lemma_delim_visible(b, '(', ')', false, 0, j2);
    let c = delim_math_from(b, '(', ')', false, 0);
    let j3 = choose|k: int| 0 <= k < c.len() && !crate::text::is_white(#[trigger] c[k]);
    lemma_dollar_math_visible(c, 0, j3);
}

proof fn lemma_latex_visible(s: Seq<char>, r: Seq<(usize, usize)>, k: int, cursor: int)
    requires
        ranges_well_formed(r, s.len() as int),
        0 <= k,
        0 <= cursor <= s.len(),
        k < r.len() ==> cursor <= r[k].0,
        has_visible(s.subrange(cursor, s.len() as int)),
    ensures
        has_visible(latex_from(s, r, k, cursor)),
    decreases r.len() - k,
{
    if k < r.len() {
        let a = r[k].0 as int;
        let b = r[k].1 as int;
        assert(a <= b <= s.len());
        if k + 1 < r.len() {
            assert(r[k].1 <= r[k + 1].0);
        }
        let x = s.subrange(cursor, a);
        let y = s.subrange(a, b);
        let z = s.subrange(b, s.len() as int);
        assert(x + y + z =~= s.subrange(cursor, s.len() as int));
        lemma_visible_concat(x + y, z);
        lemma_visible_concat(x, y);
        let g = rewrite_math(x);
        let rest = latex_from(s, r, k + 1, b);
        if has_visible(x) {
            lemma_rewrite_visible(x);
        }
        if has_visible(z) {
            lemma_latex_visible(s, r, k + 1, b);
        }
        lemma_visible_concat(g, y);
        lemma_visible_concat(g + y, rest);
    } else {
        lemma_rewrite_visible(s.subrange(cursor, s.len() as int));
    }
}

/// A text that normalizes to something holds, once normalized, a character
/// that is not whitespace.
pub proof fn lemma_normalized_visible(s: Seq<char>)
    requires
        normalize_spec(s).len() > 0,
        clean_content(s).len() <= usize::MAX,
    ensures
        has_visible(normalize_spec(s)),
{
    let t = clean_content(s);
    lemma_clean_content(s);
    let r = closed_code_ranges(t);
    lemma_code_ranges_wf(t, 0);
    if t.len() == 0 {
        assert(r.len() == 0) by {
            assert(crate::scan::find_triple(t, 0) == -1);
        }
        assert(t.subrange(0, 0) =~= Seq::<char>::empty());
        assert(normalize_spec(s) == rewrite_math(Seq::<char>::empty()));
        assert(delim_math_from(Seq::<char>::empty(), '[', ']', false, 0) =~= Seq::<char>::empty());
        assert(delim_math_from(Seq::<char>::empty(), '[', ']', true, 0) =~= Seq::<char>::empty());
        assert(delim_math_from(Seq::<char>::empty(), '(', ')', false, 0) =~= Seq::<char>::empty());
        assert(dollar_math_from(Seq::<char>::empty(), 0) =~= Seq::<char>::empty());
    } else {
        assert(!crate::text::is_white(t[t.len() - 1]));
        assert(t.subrange(0, t.len() as int) =~= t);
        lemma_latex_visible(t, r, 0, 0);
    }
}

} // verus!
