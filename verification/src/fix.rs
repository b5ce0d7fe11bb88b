//! Streaming fixers for code spans and fences, HTML fragments, footnotes,
//! task lists, links, tables and math. Each one makes incomplete markdown
//! syntax parseable as it streams.
use vstd::prelude::*;
use crate::bytes::{byte_chars, byte_view};
pub use crate::emphasis::{fix_delete, fix_emphasis, fix_strong};
pub use crate::fix_math::{fix_inline_math, fix_math};
pub use crate::fix_table::fix_table;
use crate::scan::{line_blank, line_ranges, line_ranges_in, lines_shape, overlaps_any, is_range_overlapping_ranges, closed_code_ranges, code_ranges_in, count_in, count_occ, find_triple, find_triple_from, in_ranges, inline_code_ranges, inline_code_ranges_in, inside_unclosed_code, is_position_in_ranges, last_para, last_para_range, last_para_range_in, lemma_find_triple, lemma_inline_ranges_wf, part_of_triple, part_of_triple_in, strip_code, strip_code_in, strip_ranges, strip_ranges_in, triple_at, within_code, within_code_in};
use crate::pattern::{
    dash_with_space, dash_with_space_in, incomplete_task_list, incomplete_task_list_in,
    quote_incomplete_task_list, quote_incomplete_task_list_in, quote_standalone_dash,
    quote_standalone_dash_in, quote_task_list, quote_task_list_in, standalone_dash,
    standalone_dash_in, task_list, task_list_in,
};
use crate::text::{chars_eq, all_white, all_white_range, chars_of, extend_range, find_char, find_char_from, lemma_find_char_bounds, lemma_rfind_char_bounds, rfind_char, rfind_char_before, rfind_last, rfind_seq_last, string_of, sub_vec, trim_end_blank, trim_end_blank_len, trim_end_js, trim_end_js_len, trim_white, trim_white_vec};

verus! {

// ---------------------------------------------------------------------------
// code spans and fences
// ---------------------------------------------------------------------------

/// Start of the backtick run that ends at `end`.
pub open spec fn tick_run_start(s: Seq<char>, end: int) -> int
    decreases end,
{
    if end > 0 && end <= s.len() && s[end - 1] == '`' {
        tick_run_start(s, end - 1)
    } else {
        end
    }
}

/// The trailing backtick run (before trailing whitespace), as `(start, len)`.
pub open spec fn trailing_tick_run(s: Seq<char>) -> Option<(int, int)> {
    let end = trim_end_js(s).len() as int;
    let start = tick_run_start(s, end);
    if end > start {
        Some((start, end - start))
    } else {
        None
    }
}

/// `(content, was_cleaned)` after dropping an incomplete trailing backtick run.
pub open spec fn drop_trailing_ticks(s: Seq<char>) -> (Seq<char>, bool) {
    match trailing_tick_run(s) {
        None => (s, false),
        Some((start, len)) => {
            let before = s.take(start);
            let after = s.skip(start + len);
            let cleaned = trim_end_js(before) + after;
            let in_code = within_code(before, before.len() as int);
            if len == 1 {
                let count = count_occ(strip_code(last_para(before, false)), seq!['`']);
                if count % 2 == 1 && !in_code {
                    (s, false)
                } else {
                    (cleaned, true)
                }
            } else if len == 3 && in_code {
                (s, false)
            } else {
                (cleaned, true)
            }
        },
    }
}

fn drop_trailing_ticks_in(s: &[char]) -> (r: (Vec<char>, bool))
    ensures
        r.0@ == drop_trailing_ticks(s@).0,
        r.1 == drop_trailing_ticks(s@).1,
{
    let end = trim_end_js_len(s);
    let mut start = end;
    while start > 0 && s[start - 1] == '`'
        invariant
            start <= end <= s.len(),
            tick_run_start(s@, start as int) == tick_run_start(s@, end as int),
        decreases start,
    {
        start -= 1;
    }
    if end <= start {
        return (sub_vec(s, 0, s.len()), false);
    }
    let len = end - start;
    let before = sub_vec(s, 0, start);
    assert(before@ == s@.take(start as int));
    let keep = trim_end_js_len(&before);
    let mut cleaned = sub_vec(&before, 0, keep);
    extend_range(&mut cleaned, s, end, s.len());
    assert(s@.subrange(end as int, s.len() as int) == s@.skip(start + len));
    let in_code = within_code_in(&before, before.len());
    if len == 1 {
        let (_line, off) = last_para_range_in(&before, false);
        let n = before.len();
        let para = sub_vec(&before, off, n);
        assert(para@ == last_para(before@, false));
        let no_code = strip_code_in(&para);
        let tick = vec!['`'];
        assert(tick@ == seq!['`']);
        assert(before@ == s@.take(start as int));
        let count = count_in(&no_code, &tick);
        if count % 2 == 1 && !in_code {
            return (sub_vec(s, 0, s.len()), false);
        }
        (cleaned, true)
    } else if len == 3 && in_code {
        (sub_vec(s, 0, s.len()), false)
    } else {
        (cleaned, true)
    }
}

/// Closing an unclosed fence: append ` ``` ` on its own line when the fence
/// has a language or a body.
pub open spec fn close_fence(s: Seq<char>) -> Seq<char> {
    let rel = rfind_last(s, seq!['`', '`', '`']);
    let nl = find_char(s, '\n', rel + 3);
    let first_line = s.subrange(rel + 3, if nl >= 0 {
        nl
    } else {
        s.len() as int
    });
    let has_language = !all_white(first_line);
    if inside_unclosed_code(s) && rel >= 0 && (has_language || nl >= 0) {
        if s.len() > 0 && s.last() == '\n' {
            s + seq!['`', '`', '`']
        } else {
            s + seq!['\n', '`', '`', '`']
        }
    } else {
        s
    }
}

fn close_fence_in(s: &[char]) -> (out: Vec<char>)
    ensures
        out@ == close_fence(s@),
{
    if within_code_in(s, s.len()) {
        let fence = vec!['`', '`', '`'];
        assert(fence@ == seq!['`', '`', '`']);
        match rfind_seq_last(s, &fence) {
            Some(rel) => {
                proof {
                    crate::text::lemma_rfind_seq_bounds(
                        s@,
                        fence@,
                        s@.len() - fence@.len(),
                    );
                }
                let nl = find_char_from(s, '\n', rel + 3);
                proof {
                    lemma_find_char_bounds(s@, '\n', rel + 3);
                }
                let line_end = match nl {
                    Some(e) => e,
                    None => s.len(),
                };
                let has_language = !all_white_range(s, rel + 3, line_end);
                if has_language || nl.is_some() {
                    let mut out = sub_vec(s, 0, s.len());
                    assert(out@ == s@);
                    if s.len() > 0 && s[s.len() - 1] == '\n' {
                        out.push('`');
                        out.push('`');
                        out.push('`');
                        assert(out@ == s@ + seq!['`', '`', '`']);
                    } else {
                        out.push('\n');
                        out.push('`');
                        out.push('`');
                        out.push('`');
                        assert(out@ == s@ + seq!['\n', '`', '`', '`']);
                    }
                    return out;
                }
            },
            None => {},
        }
    }
    sub_vec(s, 0, s.len())
}

/// Scan of a paragraph for the last standalone backtick, skipping closed
/// fences; `last` is the best position so far.
pub open spec fn last_tick_scan(p: Seq<char>, i: int, last: int) -> int
    decreases p.len() - i,
{
    if i < 0 || i >= p.len() {
        last
    } else if p[i] != '`' {
        last_tick_scan(p, i + 1, last)
    } else if triple_at(p, i) && find_triple(p, i + 3) >= 0 {
        proof {
            lemma_find_triple(p, i + 3);
        }
        last_tick_scan(p, find_triple(p, i + 3) + 2, last)
    } else if !part_of_triple(p, i) {
        last_tick_scan(p, i + 1, i)
    } else {
        last_tick_scan(p, i + 1, last)
    }
}

/// Closing unbalanced inline code in the last paragraph.
pub open spec fn close_inline_code(s: Seq<char>) -> Seq<char> {
    let off = last_para_range(s, false).1 as int;
    let p = s.skip(off);
    let count = count_occ(strip_code(p), seq!['`']);
    let last = last_tick_scan(p, 0, -1);
    if count % 2 == 1 && last >= 0 && !all_white(s.skip(off + last + 1)) {
        s + seq!['`']
    } else {
        s
    }
}

fn close_inline_code_in(s: &[char]) -> (out: Vec<char>)
    ensures
        out@ == close_inline_code(s@),
{
    let (_line, off) = last_para_range_in(s, false);
    let n = s.len();
    let p = sub_vec(s, off, n);
    assert(p@ == s@.skip(off as int));
    let no_code = strip_code_in(&p);
    let tick = vec!['`'];
    assert(tick@ == seq!['`']);
    let count = count_in(&no_code, &tick);
    if count % 2 == 1 {
        let mut last: usize = 0;
        let mut found = false;
        let mut i: usize = 0;
        while i < p.len()
            invariant
                i <= p.len(),
                found ==> last < p.len(),
                last_tick_scan(p@, i as int, if found {
                    last as int
                } else {
                    -1
                }) == last_tick_scan(p@, 0, -1),
            decreases p.len() - i,
        {
            if p[i] != '`' {
                i += 1;
                continue;
            }
            if p.len() - i >= 3 && p[i + 1] == '`' && p[i + 2] == '`' {
                match find_triple_from(&p, i + 3) {
                    Some(close) => {
                        proof {
                            lemma_find_triple(p@, i + 3);
                        }
                        i = close + 2;
                        continue;
                    },
                    None => {},
                }
            }
            if !part_of_triple_in(&p, i) {
                last = i;
                found = true;
            }
            i += 1;
        }
        if found {
            let actual = off + last;
            if !all_white_range(s, actual + 1, n) {
                assert(s@.subrange(actual + 1, n as int) == s@.skip(actual + 1));
                let mut out = sub_vec(s, 0, n);
                out.push('`');
                assert(out@ == s@ + seq!['`']);
                return out;
            }
            assert(s@.subrange(actual + 1, n as int) == s@.skip(actual + 1));
        }
    }
    sub_vec(s, 0, n)
}

/// The `fixCode` step: drop an incomplete trailing backtick run, close an
/// unclosed fence, close unbalanced inline code.
pub open spec fn fix_code_spec(s: Seq<char>) -> Seq<char> {
    let (cleaned, was) = drop_trailing_ticks(s);
    if inside_unclosed_code(s) && was {
        close_fence(cleaned)
    } else if !was {
        close_inline_code(close_fence(cleaned))
    } else {
        cleaned
    }
}

pub fn fix_code_in(s: &[char]) -> (out: Vec<char>)
    ensures
        out@ == fix_code_spec(s@),
{
    let is_inside = within_code_in(s, s.len());
    let (cleaned, was) = drop_trailing_ticks_in(s);
    if is_inside && was {
        close_fence_in(&cleaned)
    } else if !was {
        let after_block = close_fence_in(&cleaned);
        close_inline_code_in(&after_block)
    } else {
        cleaned
    }
}

/// Complete unclosed code: trailing partial fences, open fences, open inline code.
pub fn fix_code(content: &str) -> (r: String)
    ensures
        r@ == fix_code_spec(content@),
{
    let v = chars_of(content);
    let o = fix_code_in(&v);
    string_of(&o)
}

/// `/```[\s\S]*?```/g` — remove closed code blocks from text.
pub fn strip_closed_code_blocks(text: &str) -> (r: String)
    ensures
        r@ == strip_code(text@),
{
    let v = chars_of(text);
    let o = strip_code_in(&v);
    string_of(&o)
}

/// `s` with its inline code spans removed.
pub open spec fn strip_inline(s: Seq<char>) -> Seq<char> {
    strip_ranges(s, inline_code_ranges(s, closed_code_ranges(s)))
}

pub fn strip_inline_in(s: &[char]) -> (out: Vec<char>)
    ensures
        out@ == strip_inline(s@),
{
    let code = code_ranges_in(s);
    let inline = inline_code_ranges_in(s, &code);
    proof {
        assert(s@.len() == s.len());
        lemma_inline_ranges_wf(s@, code@);
    }
    strip_ranges_in(s, &inline)
}

/// /`[^`\n]+`/g — remove inline code spans.
pub fn strip_inline_code(text: &str) -> (r: String)
    ensures
        r@ == strip_inline(text@),
{
    let v = chars_of(text);
    let o = strip_inline_in(&v);
    string_of(&o)
}

// ---------------------------------------------------------------------------
// HTML fragments
// ---------------------------------------------------------------------------

pub open spec fn is_ascii_alpha(c: char) -> bool {
    ('a' <= c && c <= 'z') || ('A' <= c && c <= 'Z')
}

/// A tag-name character: ASCII letter, digit, `-` or `_`.
pub open spec fn is_name_char(c: char) -> bool {
    is_ascii_alpha(c) || ('0' <= c && c <= '9') || c == '-' || c == '_'
}

/// `s` without leading `/` and ASCII whitespace.
pub open spec fn trim_start_slash(s: Seq<char>) -> Seq<char>
    decreases s.len(),
{
    if s.len() > 0 && (s[0] == '/' || crate::text::is_js_ws(s[0])) {
        trim_start_slash(s.drop_first())
    } else {
        s
    }
}

/// Length of the leading run of tag-name characters.
pub open spec fn name_len(s: Seq<char>) -> int
    decreases s.len(),
{
    if s.len() > 0 && is_name_char(s[0]) {
        1 + name_len(s.drop_first())
    } else {
        0
    }
}

/// A trailing `<...` fragment that is the start of an HTML tag, comment or
/// declaration that has not been closed yet.
pub open spec fn unclosed_fragment(f: Seq<char>) -> bool {
    let rest = f.skip(1);
    if !(f.len() > 0 && f[0] == '<') || find_char(f, '>', 0) >= 0 {
        false
    } else if f.len() == 1 {
        true
    } else if rest[0] == '<' && ((rest.len() >= 4 && rest[1] == '!' && rest[2] == '-' && rest[3]
        == '-') || (rest.len() >= 2 && rest[1] == '?')) {
        true
    } else if rest[0] == '!' {
        let a = crate::text::trim_start_js(rest.skip(1));
        a.len() > 0 && is_ascii_alpha(a[0])
    } else {
        let closing = rest[0] == '/';
        let a = trim_start_slash(rest);
        let tail = a.skip(1);
        let aw = tail.skip(name_len(tail));
        let tr = crate::text::trim_start_js(aw);
        if a.len() == 0 || !is_ascii_alpha(a[0]) {
            false
        } else if closing {
            crate::text::all_js_ws(aw)
        } else {
            tr.len() == 0 || (tr[0] != '<' && tr[0] != '>')
        }
    }
}

#[verifier::loop_isolation(false)]
#[verifier::rlimit(50)]
fn unclosed_fragment_in(f: &[char]) -> (b: bool)
    ensures
        b == unclosed_fragment(f@),
{
    if f.len() == 0 || f[0] != '<' {
        return false;
    }
    if find_char_from(f, '>', 0).is_some() {
        return false;
    }
    if f.len() == 1 {
        return true;
    }
    let n = f.len();
    let rest = sub_vec(f, 1, n);
    assert(rest@ == f@.skip(1));
    if rest[0] == '<' && ((rest.len() >= 4 && rest[1] == '!' && rest[2] == '-' && rest[3] == '-')
        || (rest.len() >= 2 && rest[1] == '?')) {
        return true;
    }
    if rest[0] == '!' {
        let m = rest.len();
        let r1 = sub_vec(&rest, 1, m);
        assert(r1@ == rest@.skip(1));
        let k = crate::text::trim_start_js_len(&r1);
        return k < r1.len() && (('a' <= r1[k] && r1[k] <= 'z') || ('A' <= r1[k] && r1[k] <= 'Z'));
    }
    let closing = rest[0] == '/';
    let mut a0: usize = 0;
    assert(rest@.skip(0) == rest@);
    while a0 < rest.len() && (rest[a0] == '/' || crate::text::is_js_ws_char(rest[a0]))
        invariant
            a0 <= rest.len(),
            trim_start_slash(rest@.skip(a0 as int)) == trim_start_slash(rest@),
        decreases rest.len() - a0,
    {
        assert(rest@.skip(a0 as int).drop_first() == rest@.skip(a0 + 1));
        a0 += 1;
    }
    let m = rest.len();
    let a = sub_vec(&rest, a0, m);
    assert(a@ == rest@.skip(a0 as int));
    if a.len() == 0 || !(('a' <= a[0] && a[0] <= 'z') || ('A' <= a[0] && a[0] <= 'Z')) {
        return false;
    }
    let al = a.len();
    let tail = sub_vec(&a, 1, al);
    assert(tail@ == a@.skip(1));
    let mut w: usize = 0;
    assert(tail@.skip(0) == tail@);
    while w < tail.len() && (('a' <= tail[w] && tail[w] <= 'z') || ('A' <= tail[w] && tail[w]
        <= 'Z') || ('0' <= tail[w] && tail[w] <= '9') || tail[w] == '-' || tail[w] == '_')
        invariant
            w <= tail.len(),
            w + name_len(tail@.skip(w as int)) == name_len(tail@),
        decreases tail.len() - w,
    {
        assert(tail@.skip(w as int).drop_first() == tail@.skip(w + 1));
        w += 1;
    }
    let tl = tail.len();
    let aw = sub_vec(&tail, w, tl);
    assert(aw@ == tail@.skip(w as int));
    if closing {
        let mut k: usize = 0;
        while k < aw.len()
            invariant
                k <= aw.len(),
                forall|j: int| 0 <= j < k ==> crate::text::is_js_ws(#[trigger] aw@[j]),
            decreases aw.len() - k,
        {
            if !crate::text::is_js_ws_char(aw[k]) {
                assert(!crate::text::is_js_ws(aw@[k as int]));
                return false;
            }
            k += 1;
        }
        true
    } else {
        let k = crate::text::trim_start_js_len(&aw);
        k >= aw.len() || (aw[k] != '<' && aw[k] != '>')
    }
}

/// The `fixHtml` step: drop a trailing unclosed HTML fragment.
pub open spec fn fix_html_spec(s: Seq<char>) -> Seq<char> {
    let ws = trim_end_js(s).len() as int;
    let fs = rfind_char(s, '<', ws);
    let code = closed_code_ranges(s);
    if s.len() == 0 || inside_unclosed_code(s) || ws == 0 || fs < 0 || (fs > 0 && s[fs - 1]
        == '\\') || !unclosed_fragment(s.subrange(fs, ws)) || in_ranges(fs, code) || in_ranges(
        fs,
        inline_code_ranges(s, code),
    ) {
        s
    } else {
        trim_end_blank(s.take(fs)) + s.skip(ws)
    }
}

pub fn fix_html_in(s: &[char]) -> (out: Vec<char>)
    ensures
        out@ == fix_html_spec(s@),
{
    let n = s.len();
    if n == 0 || within_code_in(s, n) {
        return sub_vec(s, 0, n);
    }
    let ws = trim_end_js_len(s);
    if ws == 0 {
        return sub_vec(s, 0, n);
    }
    let fs = match rfind_char_before(s, '<', ws) {
        Some(p) => p,
        None => {
            return sub_vec(s, 0, n);
        },
    };
    proof {
        lemma_rfind_char_bounds(s@, '<', ws as int);
    }
    if fs > 0 && s[fs - 1] == '\\' {
        return sub_vec(s, 0, n);
    }
    let fragment = sub_vec(s, fs, ws);
    if !unclosed_fragment_in(&fragment) {
        return sub_vec(s, 0, n);
    }
    let code = code_ranges_in(s);
    if is_position_in_ranges(fs, &code) {
        return sub_vec(s, 0, n);
    }
    let inline = inline_code_ranges_in(s, &code);
    if is_position_in_ranges(fs, &inline) {
        return sub_vec(s, 0, n);
    }
    let head = sub_vec(s, 0, fs);
    let k = trim_end_blank_len(&head);
    let mut out = sub_vec(&head, 0, k);
    extend_range(&mut out, s, ws, n);
    assert(s@.subrange(ws as int, n as int) == s@.skip(ws as int));
    out
}

/// Drop a trailing unclosed HTML tag fragment.
pub fn fix_html(content: &str) -> (r: String)
    ensures
        r@ == fix_html_spec(content@),
{
    let v = chars_of(content);
    let o = fix_html_in(&v);
    string_of(&o)
}

// ---------------------------------------------------------------------------
// footnotes
// ---------------------------------------------------------------------------

/// Scan of a footnote label from `j` with `n` characters read: stops at `]`,
/// at the end, after 200 characters, or marks whitespace with length 201.
pub open spec fn label_scan(s: Seq<char>, j: int, n: int) -> (int, int)
    decreases s.len() - j,
{
    if j < 0 || j >= s.len() || n >= 200 {
        (j, n)
    } else if s[j] == ']' {
        (j, n)
    } else if crate::text::is_js_ws(s[j]) {
        (j, 201)
    } else {
        label_scan(s, j + 1, n + 1)
    }
}

pub proof fn lemma_label_scan(s: Seq<char>, j: int, n: int)
    requires
        0 <= j <= s.len(),
        0 <= n <= 200,
    ensures
        j <= label_scan(s, j, n).0,
        label_scan(s, j, n).1 <= 200 ==> label_scan(s, j, n).0 == j + label_scan(s, j, n).1 - n,
        label_scan(s, j, n).1 >= n,
        label_scan(s, j, n).1 <= 200 ==> label_scan(s, j, n).0 <= s.len(),
    decreases s.len() - j,
{
    if !(j >= s.len() || n >= 200) && s[j] != ']' && !crate::text::is_js_ws(s[j]) {
        lemma_label_scan(s, j + 1, n + 1);
    }
}

/// `[^label]` starts at `i` and its label is well formed; yields the `]` position.
pub open spec fn fn_label_end(s: Seq<char>, i: int) -> int {
    let (j, n) = label_scan(s, i + 2, 0);
    if 0 <= i && i + 1 < s.len() && s[i] == '[' && s[i + 1] == '^' && 1 <= n <= 200 && j < s.len()
        && s[j] == ']' {
        j
    } else {
        -1
    }
}

pub proof fn lemma_fn_label_end(s: Seq<char>, i: int)
    requires
        0 <= i,
    ensures
        fn_label_end(s, i) == -1 || (i + 3 <= fn_label_end(s, i) < s.len() && s[fn_label_end(
            s,
            i,
        )] == ']'),
{
    if i + 2 <= s.len() {
        lemma_label_scan(s, i + 2, 0);
    }
}

/// Footnote definitions `[^label]:` from `i` on, as `[start, end)` ranges.
pub open spec fn defs_from(s: Seq<char>, i: int) -> Seq<(usize, usize)>
    decreases s.len() - i,
{
    if i < 0 || i >= s.len() {
        Seq::empty()
    } else {
        let j = fn_label_end(s, i);
        if j >= 0 && j + 1 < s.len() && s[j + 1] == ':' {
            proof {
                lemma_fn_label_end(s, i);
            }
            seq![(i as usize, (j + 2) as usize)] + defs_from(s, j + 2)
        } else {
            defs_from(s, i + 1)
        }
    }
}

/// Footnote references `[^label]` not followed by `:`, from `i` on, as
/// `[start, end)` ranges.
pub open spec fn refs_from(s: Seq<char>, i: int) -> Seq<(usize, usize)>
    decreases s.len() - i,
{
    if i < 0 || i >= s.len() {
        Seq::empty()
    } else {
        let j = fn_label_end(s, i);
        if j >= 0 {
            proof {
                lemma_fn_label_end(s, i);
            }
            if !(j + 1 < s.len() && s[j + 1] == ':') {
                seq![(i as usize, (j + 1) as usize)] + refs_from(s, j + 1)
            } else {
                refs_from(s, j + 1)
            }
        } else {
            refs_from(s, i + 1)
        }
    }
}

pub proof fn lemma_refs_bounds(s: Seq<char>, i: int)
    requires
        0 <= i,
        s.len() <= usize::MAX,
    ensures
        forall|k: int|
            0 <= k < refs_from(s, i).len() ==> i <= (#[trigger] refs_from(s, i)[k]).0 && refs_from(
                s,
                i,
            )[k].0 + 3 <= refs_from(s, i)[k].1 <= s.len(),
    decreases s.len() - i,
{
    if i < s.len() {
        let j = fn_label_end(s, i);
        lemma_fn_label_end(s, i);
        if j >= 0 {
            lemma_refs_bounds(s, j + 1);
            let rest = refs_from(s, j + 1);
            let all = refs_from(s, i);
            if !(j + 1 < s.len() && s[j + 1] == ':') {
                assert(all == seq![(i as usize, (j + 1) as usize)] + rest);
                assert forall|k: int| 0 <= k < all.len() implies i <= (#[trigger] all[k]).0
                    && all[k].0 + 3 <= all[k].1 <= s.len() by {
                    if k > 0 {
                        assert(all[k] == rest[k - 1]);
                    }
                }
            } else {
                assert(all == rest);
            }
        } else {
            lemma_refs_bounds(s, i + 1);
            assert(refs_from(s, i) == refs_from(s, i + 1));
        }
    }
}

proof fn lemma_label_chars(s: Seq<char>, j: int, n: int)
    requires
        0 <= j <= s.len(),
        0 <= n <= 200,
    ensures
        label_scan(s, j, n).1 <= 200 ==> forall|m: int|
            j <= m < label_scan(s, j, n).0 ==> s[m] != ']' && !crate::text::is_js_ws(s[m]),
    decreases s.len() - j,
{
    if !(j >= s.len() || n >= 200) && s[j] != ']' && !crate::text::is_js_ws(s[j]) {
        lemma_label_chars(s, j + 1, n + 1);
    }
}

/// `[a, e)` holds a footnote reference: `[^`, a label of one to 200
/// characters that are neither `]` nor whitespace, and `]`, not followed by
/// `:`.
pub open spec fn ref_shaped(s: Seq<char>, a: int, e: int) -> bool {
    &&& 0 <= a
    &&& a + 3 <= e <= s.len()
    &&& s[a] == '['
    &&& s[a + 1] == '^'
    &&& s[e - 1] == ']'
    &&& e - 1 - (a + 2) <= 200
    &&& forall|m: int| a + 2 <= m < e - 1 ==> s[m] != ']' && !crate::text::is_js_ws(#[trigger] s[m])
    &&& !(e < s.len() && s[e] == ':')
}

/// Every footnote reference found from `i` on has the reference shape, and
/// they come in order without overlapping, from `i` on.
pub proof fn lemma_refs_shape(s: Seq<char>, i: int)
    requires
        0 <= i,
        s.len() <= usize::MAX,
    ensures
        forall|k: int|
            0 <= k < refs_from(s, i).len() ==> i <= (#[trigger] refs_from(s, i)[k]).0 && ref_shaped(
                s,
                refs_from(s, i)[k].0 as int,
                refs_from(s, i)[k].1 as int,
            ),
        forall|k: int|
            0 <= k < refs_from(s, i).len() - 1 ==> (#[trigger] refs_from(s, i)[k]).1 <= refs_from(
                s,
                i,
            )[k + 1].0,
    decreases s.len() - i,
{
    if i < s.len() {
        let j = fn_label_end(s, i);
        lemma_fn_label_end(s, i);
        if j >= 0 {
            lemma_refs_shape(s, j + 1);
            lemma_label_scan(s, i + 2, 0);
            lemma_label_chars(s, i + 2, 0);
            let rest = refs_from(s, j + 1);
            let all = refs_from(s, i);
            if !(j + 1 < s.len() && s[j + 1] == ':') {
                assert(all == seq![(i as usize, (j + 1) as usize)] + rest);
                assert(ref_shaped(s, i, j + 1));
                assert forall|k: int| 0 <= k < all.len() implies i <= (#[trigger] all[k]).0
                    && ref_shaped(s, all[k].0 as int, all[k].1 as int) by {
                    if k > 0 {
                        assert(all[k] == rest[k - 1]);
                    }
                }
                assert forall|k: int| 0 <= k < all.len() - 1 implies (#[trigger] all[k]).1
                    <= all[k + 1].0 by {
                    assert(all[k + 1] == rest[k]);
                    if k > 0 {
                        assert(all[k] == rest[k - 1]);
                    }
                }
            } else {
                assert(all == rest);
            }
        } else {
            lemma_refs_shape(s, i + 1);
            assert(refs_from(s, i) == refs_from(s, i + 1));
        }
    }
}

pub proof fn lemma_defs_bounds(s: Seq<char>, i: int)
    requires
        0 <= i,
        s.len() <= usize::MAX,
    ensures
        ranges_well_formed_from(defs_from(s, i), i, s.len() as int),
        forall|k: int|
            0 <= k < defs_from(s, i).len() ==> (#[trigger] defs_from(s, i)[k]).0 + 5 <= defs_from(
                s,
                i,
            )[k].1,
    decreases s.len() - i,
{
    if i < s.len() {
        let j = fn_label_end(s, i);
        lemma_fn_label_end(s, i);
        if j >= 0 && j + 1 < s.len() && s[j + 1] == ':' {
            lemma_defs_bounds(s, j + 2);
            let rest = defs_from(s, j + 2);
            let all = defs_from(s, i);
            assert(all == seq![(i as usize, (j + 2) as usize)] + rest);
            assert forall|k: int| 0 <= k < all.len() implies i <= (#[trigger] all[k]).0 && all[k].0
                <= all[k].1 <= s.len() && all[k].0 + 5 <= all[k].1 by {
                if k > 0 {
                    assert(all[k] == rest[k - 1]);
                }
            }
            assert forall|k: int, m: int| 0 <= k < m < all.len() implies (#[trigger] all[k]).1
                <= (#[trigger] all[m]).0 by {
                assert(all[m] == rest[m - 1]);
                if k > 0 {
                    assert(all[k] == rest[k - 1]);
                }
            }
        } else {
            lemma_defs_bounds(s, i + 1);
        }
    }
}

/// Ordered, disjoint ranges inside `[lo, len]`.
pub open spec fn ranges_well_formed_from(r: Seq<(usize, usize)>, lo: int, len: int) -> bool {
    &&& forall|k: int| 0 <= k < r.len() ==> lo <= (#[trigger] r[k]).0 && r[k].0 <= r[k].1 <= len
    &&& forall|k: int, m: int| 0 <= k < m < r.len() ==> (#[trigger] r[k]).1 <= (#[trigger] r[m]).0
}

fn label_scan_in(s: &[char], start: usize) -> (r: (usize, usize))
    ensures
        r.0 as int == label_scan(s@, start as int, 0).0,
        r.1 as int == label_scan(s@, start as int, 0).1,
{
    let mut j = start;
    let mut n: usize = 0;
    while j < s.len() && n < 200
        invariant
            n <= 200,
            start <= j,
            label_scan(s@, j as int, n as int) == label_scan(s@, start as int, 0),
        decreases s.len() - j,
    {
        if s[j] == ']' {
            return (j, n);
        }
        if crate::text::is_js_ws_char(s[j]) {
            return (j, 201);
        }
        j += 1;
        n += 1;
    }
    (j, n)
}

fn fn_label_end_in(s: &[char], i: usize) -> (r: Option<usize>)
    ensures
        match r {
            Some(j) => j as int == fn_label_end(s@, i as int),
            None => fn_label_end(s@, i as int) == -1,
        },
{
    if i >= s.len() || s.len() - i < 2 || s[i] != '[' || s[i + 1] != '^' {
        return None;
    }
    let (j, n) = label_scan_in(s, i + 2);
    if 1 <= n && n <= 200 && j < s.len() && s[j] == ']' {
        Some(j)
    } else {
        None
    }
}

pub fn defs_in(s: &[char]) -> (r: Vec<(usize, usize)>)
    ensures
        r@ == defs_from(s@, 0),
{
    let mut out: Vec<(usize, usize)> = Vec::new();
    let mut i: usize = 0;
    while i < s.len()
        invariant
            i <= s.len(),
            out@ + defs_from(s@, i as int) == defs_from(s@, 0),
        decreases s.len() - i,
    {
        match fn_label_end_in(s, i) {
            Some(j) => {
                proof {
                    lemma_fn_label_end(s@, i as int);
                }
                if j + 1 < s.len() && s[j + 1] == ':' {
                    let ghost old = out@;
                    out.push((i, j + 2));
                    assert(old + defs_from(s@, i as int) == out@ + defs_from(s@, j + 2));
                    i = j + 2;
                    continue;
                }
            },
            None => {},
        }
        i += 1;
    }
    out
}

pub fn refs_in(s: &[char]) -> (r: Vec<(usize, usize)>)
    ensures
        r@ == refs_from(s@, 0),
{
    let mut out: Vec<(usize, usize)> = Vec::new();
    let mut i: usize = 0;
    while i < s.len()
        invariant
            i <= s.len(),
            out@ + refs_from(s@, i as int) == refs_from(s@, 0),
        decreases s.len() - i,
    {
        match fn_label_end_in(s, i) {
            Some(j) => {
                proof {
                    lemma_fn_label_end(s@, i as int);
                }
                if !(j + 1 < s.len() && s[j + 1] == ':') {
                    let ghost old = out@;
                    out.push((i, j + 1));
                    assert(old + refs_from(s@, i as int) == out@ + refs_from(s@, j + 1));
                }
                i = j + 1;
            },
            None => {
                i += 1;
            },
        }
    }
    out
}

/// `/\[\^[^\]\s]{1,200}\]/` reference (not a definition).
pub fn has_footnote_reference(content: &str) -> (b: bool)
    ensures
        b == (refs_from(content@, 0).len() > 0),
{
    let v = chars_of(content);
    refs_in(&v).len() > 0
}

pub fn has_footnote_definition(content: &str) -> (b: bool)
    ensures
        b == (defs_from(content@, 0).len() > 0),
{
    let v = chars_of(content);
    defs_in(&v).len() > 0
}

/// `/\[\^[^\]\s]{1,200}\](?!:)/` — footnote references not followed by `:`,
/// as `(start, end, label)` in byte offsets; the label is read byte by byte.
pub fn find_footnote_refs(content: &str) -> (r: Vec<(usize, usize, String)>)
    ensures
        r@.len() == refs_from(byte_view(content), 0).len(),
        forall|k: int|
            0 <= k < r@.len() ==> (#[trigger] r@[k]).0 == refs_from(byte_view(content), 0)[k].0 && r@[k].1
                == refs_from(byte_view(content), 0)[k].1 && r@[k].2@ == byte_view(content).subrange(
                r@[k].0 + 2,
                r@[k].1 - 1,
            ),
{
    let v = byte_chars(content);
    let refs = refs_in(&v);
    proof {
        assert(v@.len() == v.len());
        lemma_refs_bounds(v@, 0);
    }
    let mut out: Vec<(usize, usize, String)> = Vec::new();
    let mut k: usize = 0;
    while k < refs.len()
        invariant
            refs@ == refs_from(v@, 0),
            v@ == byte_view(content),
            k <= refs.len(),
            out@.len() == k,
            forall|m: int|
                0 <= m < refs@.len() ==> (#[trigger] refs@[m]).0 + 3 <= refs@[m].1 <= v@.len(),
            forall|m: int|
                0 <= m < k ==> (#[trigger] out@[m]).0 == refs@[m].0 && out@[m].1 == refs@[m].1
                    && out@[m].2@ == byte_view(content).subrange(out@[m].0 + 2, out@[m].1 - 1),
        decreases refs.len() - k,
    {
        let (a, b) = refs[k];
        let label = sub_vec(&v, a + 2, b - 1);
        out.push((a, b, string_of(&label)));
        k += 1;
    }
    out
}

/// Labels of the footnote definitions outside code fences.
pub open spec fn defined_labels(s: Seq<char>) -> Seq<Seq<char>> {
    let w = strip_code(s);
    defs_from(w, 0).map_values(|d: (usize, usize)| w.subrange(d.0 + 2, d.1 - 2))
}

fn defined_labels_in(s: &[char]) -> (r: Vec<Vec<char>>)
    ensures
        r@.len() == defined_labels(s@).len(),
        forall|k: int| 0 <= k < r@.len() ==> (#[trigger] r@[k])@ == defined_labels(s@)[k],
{
    let w = strip_code_in(s);
    let defs = defs_in(&w);
    proof {
        assert(w@.len() == w.len());
        lemma_defs_bounds(w@, 0);
    }
    let mut out: Vec<Vec<char>> = Vec::new();
    let mut k: usize = 0;
    while k < defs.len()
        invariant
            w@ == strip_code(s@),
            defs@ == defs_from(w@, 0),
            ranges_well_formed_from(defs@, 0, w@.len() as int),
            forall|m: int| 0 <= m < defs@.len() ==> (#[trigger] defs@[m]).0 + 5 <= defs@[m].1,
            k <= defs.len(),
            out@.len() == k,
            forall|m: int| 0 <= m < k ==> (#[trigger] out@[m])@ == defined_labels(s@)[m],
        decreases defs.len() - k,
    {
        let (a, b) = defs[k];
        out.push(sub_vec(&w, a + 2, b - 2));
        k += 1;
    }
    out
}

fn labels_contain(labels: &Vec<Vec<char>>, l: &[char]) -> (r: bool)
    ensures
        r == exists|k: int| 0 <= k < labels@.len() && (#[trigger] labels@[k])@ == l@,
{
    let mut k: usize = 0;
    while k < labels.len()
        invariant
            k <= labels.len(),
            forall|m: int| 0 <= m < k ==> (#[trigger] labels@[m])@ != l@,
        decreases labels.len() - k,
    {
        if chars_eq(&labels[k], l) {
            return true;
        }
        k += 1;
    }
    false
}

/// Last `[^` in `p` before `e` that has no `]` after it, or -1.
pub open spec fn last_open_ref(p: Seq<char>, e: int) -> int
    decreases e,
{
    if e <= 0 || e > p.len() {
        -1
    } else if e - 1 + 1 < p.len() && p[e - 1] == '[' && p[e] == '^' && find_char(p, ']', e + 1)
        < 0 {
        e - 1
    } else {
        last_open_ref(p, e - 1)
    }
}

pub proof fn lemma_last_open_ref(p: Seq<char>, e: int)
    ensures
        last_open_ref(p, e) == -1 || (0 <= last_open_ref(p, e) && last_open_ref(p, e) + 1
            < p.len() && p[last_open_ref(p, e)] == '[' && p[last_open_ref(p, e) + 1] == '^'),
    decreases e,
{
    if !(e <= 0 || e > p.len()) && !(e < p.len() && p[e - 1] == '[' && p[e] == '^' && find_char(
        p,
        ']',
        e + 1,
    ) < 0) {
        lemma_last_open_ref(p, e - 1);
    }
}

/// The last paragraph's unclosed `[^...` reference removed (to the end of its line).
pub open spec fn drop_open_ref(s: Seq<char>) -> Seq<char> {
    let off = last_para_range(s, false).1 as int;
    let p = s.skip(off);
    let pos = last_open_ref(p, p.len() as int);
    let code = closed_code_ranges(s);
    let le = find_char(p, '\n', pos);
    let line_end = if le >= 0 {
        le
    } else {
        p.len() as int
    };
    let rs = if pos > 0 && p[pos - 1] == ' ' {
        pos - 1
    } else {
        pos
    };
    if pos < 0 || in_ranges(off + pos, code) || in_ranges(off + pos, inline_code_ranges(s, code)) {
        s
    } else {
        s.take(off + rs) + s.skip(off + line_end)
    }
}

fn last_open_ref_in(p: &[char]) -> (r: Option<usize>)
    ensures
        match r {
            Some(x) => x as int == last_open_ref(p@, p@.len() as int),
            None => last_open_ref(p@, p@.len() as int) == -1,
        },
{
    let mut e = p.len();
    while e > 0
        invariant
            e <= p.len(),
            last_open_ref(p@, e as int) == last_open_ref(p@, p@.len() as int),
        decreases e,
    {
        if e < p.len() && p[e - 1] == '[' && p[e] == '^' && find_char_from(p, ']', e + 1).is_none() {
            return Some(e - 1);
        }
        e -= 1;
    }
    None
}

fn drop_open_ref_in(s: &[char]) -> (out: Vec<char>)
    ensures
        out@ == drop_open_ref(s@),
{
    let n = s.len();
    let (_line, off) = last_para_range_in(s, false);
    let p = sub_vec(s, off, n);
    assert(p@ == s@.skip(off as int));
    let pos = match last_open_ref_in(&p) {
        Some(x) => x,
        None => {
            return sub_vec(s, 0, n);
        },
    };
    proof {
        lemma_last_open_ref(p@, p@.len() as int);
    }
    let code = code_ranges_in(s);
    let inline = inline_code_ranges_in(s, &code);
    if is_position_in_ranges(off + pos, &code) || is_position_in_ranges(off + pos, &inline) {
        return sub_vec(s, 0, n);
    }
    let line_end = match find_char_from(&p, '\n', pos) {
        Some(le) => le,
        None => p.len(),
    };
    proof {
        lemma_find_char_bounds(p@, '\n', pos as int);
    }
    let mut ref_start = pos;
    if ref_start > 0 && p[ref_start - 1] == ' ' {
        ref_start -= 1;
    }
    let mut out = sub_vec(s, 0, off + ref_start);
    extend_range(&mut out, s, off + line_end, n);
    assert(s@.subrange(off + line_end, n as int) == s@.skip(off + line_end));
    out
}

/// References outside code, inline code and definitions, among `refs[..k]`.
pub open spec fn live_refs(s: Seq<char>, refs: Seq<(usize, usize)>, k: int) -> Seq<(usize, usize)>
    decreases k,
{
    let code = closed_code_ranges(s);
    if k <= 0 || k > refs.len() {
        Seq::empty()
    } else if !in_ranges(refs[k - 1].0 as int, code) && !in_ranges(
        refs[k - 1].0 as int,
        inline_code_ranges(s, code),
    ) && !in_ranges(refs[k - 1].0 as int, defs_from(s, 0)) {
        live_refs(s, refs, k - 1).push(refs[k - 1])
    } else {
        live_refs(s, refs, k - 1)
    }
}

/// Removal of `refs[..k]` whose label is not defined, last first; a space
/// right before a removed reference goes with it.
pub open spec fn drop_refs(
    t: Seq<char>,
    r0: Seq<char>,
    refs: Seq<(usize, usize)>,
    k: int,
    defined: Seq<Seq<char>>,
) -> Seq<char>
    decreases k,
{
    if k <= 0 || k > refs.len() {
        t
    } else {
        let st = refs[k - 1].0 as int;
        let en = refs[k - 1].1 as int;
        let label = r0.subrange(st + 2, en - 1);
        let rs = if st > 0 && t[st - 1] == ' ' {
            st - 1
        } else {
            st
        };
        let t2 = if defined.contains(label) || !(st + 3 <= en && en <= t.len() && en - 1
            <= r0.len()) {
            t
        } else {
            t.take(rs) + t.skip(en)
        };
        drop_refs(t2, r0, refs, k - 1, defined)
    }
}

/// The `fixFootnote` step: drop an incomplete reference, then references
/// whose label has no definition.
pub open spec fn fix_footnote_spec(s: Seq<char>) -> Seq<char> {
    let r0 = drop_open_ref(s);
    let refs = live_refs(r0, refs_from(r0, 0), refs_from(r0, 0).len() as int);
    if inside_unclosed_code(s) {
        s
    } else {
        drop_refs(r0, r0, refs, refs.len() as int, defined_labels(s))
    }
}

pub fn fix_footnote_in(s: &[char]) -> (out: Vec<char>)
    ensures
        out@ == fix_footnote_spec(s@),
{
    let n = s.len();
    if within_code_in(s, n) {
        return sub_vec(s, 0, n);
    }
    let defined = defined_labels_in(s);
    let r0 = drop_open_ref_in(s);
    let code = code_ranges_in(&r0);
    let inline = inline_code_ranges_in(&r0, &code);
    let defs = defs_in(&r0);
    let all = refs_in(&r0);
    let mut live: Vec<(usize, usize)> = Vec::new();
    let mut k: usize = 0;
    while k < all.len()
        invariant
            k <= all.len(),
            all@ == refs_from(r0@, 0),
            code@ == closed_code_ranges(r0@),
            inline@ == inline_code_ranges(r0@, code@),
            defs@ == defs_from(r0@, 0),
            live@ == live_refs(r0@, all@, k as int),
        decreases all.len() - k,
    {
        let (a, _b) = all[k];
        if !is_position_in_ranges(a, &code) && !is_position_in_ranges(a, &inline)
            && !is_position_in_ranges(a, &defs) {
            live.push(all[k]);
        }
        k += 1;
    }
    let ghost dl = defined_labels(s@);
    assert(defined@.len() == dl.len());
    let mut t = sub_vec(&r0, 0, r0.len());
    assert(t@ == r0@);
    let mut k = live.len();
    while k > 0
        invariant
            k <= live.len(),
            defined@.len() == dl.len(),
            forall|m: int| 0 <= m < defined@.len() ==> (#[trigger] defined@[m])@ == dl[m],
            drop_refs(t@, r0@, live@, k as int, dl) == drop_refs(
                r0@,
                r0@,
                live@,
                live@.len() as int,
                dl,
            ),
        decreases k,
    {
        let (st, en) = live[k - 1];
        if en <= t.len() && en >= 3 && st <= en - 3 && en - 1 <= r0.len() {
            let label = sub_vec(&r0, st + 2, en - 1);
            let is_defined = labels_contain(&defined, &label);
            assert(is_defined == dl.contains(label@)) by {
                if is_defined {
                    let w = choose|w: int| 0 <= w < defined@.len() && (#[trigger] defined@[w])@
                        == label@;
                    assert(dl[w] == label@);
                }
                if dl.contains(label@) {
                    let w = choose|w: int| 0 <= w < dl.len() && dl[w] == label@;
                    assert(defined@[w]@ == label@);
                }
            }
            if !is_defined {
                let mut rs = st;
                if rs > 0 && t[rs - 1] == ' ' {
                    rs -= 1;
                }
                let tl = t.len();
                let mut t2 = sub_vec(&t, 0, rs);
                extend_range(&mut t2, &t, en, tl);
                assert(t@.subrange(en as int, tl as int) == t@.skip(en as int));
                t = t2;
            }
        }
        k -= 1;
    }
    t
}

/// Drop incomplete footnote references and references without a definition.
pub fn fix_footnote(content: &str) -> (r: String)
    ensures
        r@ == fix_footnote_spec(content@),
{
    let v = chars_of(content);
    let o = fix_footnote_in(&v);
    string_of(&o)
}

// ---------------------------------------------------------------------------
// task lists
// ---------------------------------------------------------------------------

/// The last line is a dangling list/task marker that should not render yet.
pub open spec fn dangling_marker(ll: Seq<char>) -> bool {
    quote_incomplete_task_list(ll) || (quote_standalone_dash(ll) && !quote_task_list(ll))
        || incomplete_task_list(ll) || (standalone_dash(ll) && !task_list(ll)) || (
    dash_with_space(ll) && !task_list(ll))
}

/// The `fixTaskList` step: drop a dangling `-` / `- [` last line.
pub open spec fn fix_task_list_spec(s: Seq<char>) -> Seq<char> {
    let l = line_ranges(s);
    let ls = l[l.len() - 1].0 as int;
    let le = l[l.len() - 1].1 as int;
    if inside_unclosed_code(s) || overlaps_any(ls, le, closed_code_ranges(s)) || !dangling_marker(
        s.subrange(ls, le),
    ) {
        s
    } else if l.len() == 1 {
        Seq::empty()
    } else {
        s.take(ls - 1)
    }
}

pub fn fix_task_list_in(s: &[char]) -> (out: Vec<char>)
    ensures
        out@ == fix_task_list_spec(s@),
{
    let n = s.len();
    if within_code_in(s, n) {
        return sub_vec(s, 0, n);
    }
    let code = code_ranges_in(s);
    let l = line_ranges_in(s);
    let (ls, le) = l[l.len() - 1];
    if is_range_overlapping_ranges(ls, le, &code) {
        return sub_vec(s, 0, n);
    }
    let ll = sub_vec(s, ls, le);
    let drop = quote_incomplete_task_list_in(&ll) || (quote_standalone_dash_in(&ll)
        && !quote_task_list_in(&ll)) || incomplete_task_list_in(&ll) || (standalone_dash_in(&ll)
        && !task_list_in(&ll)) || (dash_with_space_in(&ll) && !task_list_in(&ll));
    if !drop {
        return sub_vec(s, 0, n);
    }
    if l.len() == 1 {
        Vec::new()
    } else {
        assert(l@[l@.len() - 2].1 + 1 == ls);
        sub_vec(s, 0, ls - 1)
    }
}

/// Drop a dangling `-` / `- [` list marker on the last line.
pub fn fix_task_list(content: &str) -> (r: String)
    ensures
        r@ == fix_task_list_spec(content@),
{
    let v = chars_of(content);
    let o = fix_task_list_in(&v);
    string_of(&o)
}

// ---------------------------------------------------------------------------
// links
// ---------------------------------------------------------------------------

/// Index of the last non-blank line at or before line `i`, or -1.
pub open spec fn last_nonblank_line(s: Seq<char>, l: Seq<(usize, usize)>, i: int) -> int
    decreases i + 1,
{
    if i < 0 {
        -1
    } else if !line_blank(s, l, i) {
        i
    } else {
        last_nonblank_line(s, l, i - 1)
    }
}

/// `/!?\[[^\]]*$/` — a `[` with no `]` after it.
pub open spec fn open_bracket(t: Seq<char>) -> bool {
    let p = rfind_char(t, '[', t.len() as int);
    p >= 0 && find_char(t, ']', p + 1) < 0
}

/// `/!?\[[^\]]*\]\s*$/` — ends with `[text]`.
pub open spec fn ends_with_link_text(x: Seq<char>) -> bool {
    let t = trim_white(x);
    let p = rfind_char(t, '[', t.len() as int);
    t.len() > 0 && t.last() == ']' && p >= 0 && find_char(t.take(t.len() - 1), ']', p + 1) < 0
}

/// A link/image with an unclosed URL `[text](...` starts at `i`.
pub open spec fn open_url_at(t: Seq<char>, i: int) -> bool {
    let is_link = t[i] == '[' || (t[i] == '!' && i + 1 < t.len() && t[i + 1] == '[');
    let ls = if t[i] == '!' {
        i + 1
    } else {
        i
    };
    let close = find_char(t, ']', ls);
    is_link && close >= 0 && close + 1 < t.len() && t[close + 1] == '(' && find_char(
        t,
        ')',
        close + 2,
    ) < 0
}

/// Some position at or after `i` starts a link with an unclosed URL.
pub open spec fn any_open_url(t: Seq<char>, i: int) -> bool
    decreases t.len() - i,
{
    if i < 0 || i >= t.len() {
        false
    } else {
        open_url_at(t, i) || any_open_url(t, i + 1)
    }
}

/// Replacement of line `k` by `before`, dropping the (blank) line after it.
pub open spec fn replace_line(s: Seq<char>, l: Seq<(usize, usize)>, k: int, before: Seq<char>) -> Seq<
    char,
> {
    s.take(l[k].0 as int) + before + if k + 2 < l.len() {
        seq!['\n'] + s.skip(l[k + 2].0 as int)
    } else {
        Seq::empty()
    }
}

/// The `fixLink` step.
pub open spec fn fix_link_spec(s: Seq<char>) -> Seq<char> {
    let l = line_ranges(s);
    let k = last_nonblank_line(s, l, l.len() - 1);
    let line = s.subrange(l[k].0 as int, l[k].1 as int);
    let t = trim_white(line);
    let pos = rfind_char(line, '[', line.len() as int);
    if inside_unclosed_code(s) {
        s
    } else if k >= 0 && t.len() > 0 && t.last() == '[' {
        replace_line(s, l, k, trim_end_js(line.take(pos)))
    } else {
        close_link(s)
    }
}

/// Completion of the last paragraph's unclosed link text or URL.
pub open spec fn close_link(s: Seq<char>) -> Seq<char> {
    let w = strip_code(last_para(s, false));
    if open_bracket(w) {
        s + seq![']', '(', ')']
    } else if ends_with_link_text(w) {
        s + seq!['(', ')']
    } else if any_open_url(w, 0) {
        s + seq![')']
    } else {
        s
    }
}

fn close_link_in(s: &[char]) -> (out: Vec<char>)
    ensures
        out@ == close_link(s@),
{
    let n = s.len();
    let (_line, off) = last_para_range_in(s, false);
    let p = sub_vec(s, off, n);
    assert(p@ == last_para(s@, false));
    let w = strip_code_in(&p);
    let mut out = sub_vec(s, 0, n);
    assert(out@ == s@);
    if open_bracket_in(&w) {
        out.push(']');
        out.push('(');
        out.push(')');
        assert(out@ == s@ + seq![']', '(', ')']);
    } else if ends_with_link_text_in(&w) {
        out.push('(');
        out.push(')');
        assert(out@ == s@ + seq!['(', ')']);
    } else if any_open_url_in(&w) {
        out.push(')');
        assert(out@ == s@ + seq![')']);
    }
    out
}

fn open_bracket_in(t: &[char]) -> (b: bool)
    ensures
        b == open_bracket(t@),
{
    match rfind_char_before(t, '[', t.len()) {
        Some(p) => {
            proof {
                lemma_rfind_char_bounds(t@, '[', t@.len() as int);
            }
            find_char_from(t, ']', p + 1).is_none()
        },
        None => false,
    }
}

fn ends_with_link_text_in(x: &[char]) -> (b: bool)
    ensures
        b == ends_with_link_text(x@),
{
    let t = trim_white_vec(x);
    if t.len() == 0 || t[t.len() - 1] != ']' {
        return false;
    }
    match rfind_char_before(&t, '[', t.len()) {
        Some(p) => {
            proof {
                lemma_rfind_char_bounds(t@, '[', t@.len() as int);
            }
            let head = sub_vec(&t, 0, t.len() - 1);
            assert(head@ == t@.take(t@.len() - 1));
            find_char_from(&head, ']', p + 1).is_none()
        },
        None => false,
    }
}

fn any_open_url_in(t: &[char]) -> (b: bool)
    ensures
        b == any_open_url(t@, 0),
{
    let mut i: usize = 0;
    while i < t.len()
        invariant
            i <= t.len(),
            any_open_url(t@, i as int) == any_open_url(t@, 0),
        decreases t.len() - i,
    {
        let is_link = t[i] == '[' || (t[i] == '!' && i + 1 < t.len() && t[i + 1] == '[');
        if is_link {
            let ls = if t[i] == '!' {
                i + 1
            } else {
                i
            };
            match find_char_from(t, ']', ls) {
                Some(close) => {
                    proof {
                        lemma_find_char_bounds(t@, ']', ls as int);
                    }
                    if close + 1 < t.len() && t[close + 1] == '(' && find_char_from(
                        t,
                        ')',
                        close + 2,
                    ).is_none() {
                        return true;
                    }
                },
                None => {},
            }
        }
        i += 1;
    }
    false
}

fn last_nonblank_line_in(s: &[char], l: &Vec<(usize, usize)>) -> (r: Option<usize>)
    requires
        lines_shape(s@, l@, 0),
    ensures
        match r {
            Some(k) => k < l.len() && k as int == last_nonblank_line(s@, l@, l@.len() - 1),
            None => last_nonblank_line(s@, l@, l@.len() - 1) == -1,
        },
{
    let mut i = l.len();
    while i > 0
        invariant
            i <= l.len(),
            lines_shape(s@, l@, 0),
            last_nonblank_line(s@, l@, i - 1) == last_nonblank_line(s@, l@, l@.len() - 1),
        decreases i,
    {
        let (a, b) = l[i - 1];
        if !all_white_range(s, a, b) {
            return Some(i - 1);
        }
        i -= 1;
    }
    None
}

/// The last non-blank line ends with `[`: that bracket and what follows it go.
fn drop_line_bracket_in(s: &[char], l: &Vec<(usize, usize)>, k: usize) -> (r: Option<Vec<char>>)
    requires
        k < l.len(),
        l@[k as int].0 <= l@[k as int].1 <= s.len(),
        k + 2 < l.len() ==> l@[k + 2].0 <= s.len(),
    ensures
        ({
            let line = s@.subrange(l@[k as int].0 as int, l@[k as int].1 as int);
            let t = trim_white(line);
            let pos = rfind_char(line, '[', line.len() as int);
            match r {
                Some(v) => t.len() > 0 && t.last() == '[' && v@ == replace_line(
                    s@,
                    l@,
                    k as int,
                    trim_end_js(line.take(pos)),
                ),
                None => !(t.len() > 0 && t.last() == '['),
            }
        }),
{
    let n = s.len();
    let (a, b) = l[k];
    let line = sub_vec(s, a, b);
    let t = trim_white_vec(&line);
    if !(t.len() > 0 && t[t.len() - 1] == '[') {
        return None;
    }
    let pos = match rfind_char_before(&line, '[', line.len()) {
        Some(p) => p,
        None => 0,
    };
    proof {
        lemma_rfind_char_bounds(line@, '[', line@.len() as int);
    }
    let ghost pos_spec = rfind_char(line@, '[', line@.len() as int);
    assert(pos_spec >= 0) by {
        if pos_spec < 0 {
            let tt = trim_white(line@);
            let j = crate::text::lemma_trim_white_sub(line@);
            assert(line@[j + tt.len() - 1] == tt.last());
        }
    }
    let head = sub_vec(&line, 0, pos);
    let hk = trim_end_js_len(&head);
    let mut out = sub_vec(s, 0, a);
    extend_range(&mut out, &head, 0, hk);
    assert(head@.subrange(0, hk as int) == trim_end_js(line@.take(pos as int)));
    if l.len() - k > 2 {
        out.push('\n');
        let c = l[k + 2].0;
        extend_range(&mut out, s, c, n);
        assert(s@.subrange(c as int, n as int) == s@.skip(c as int));
    }
    Some(out)
}

pub fn fix_link_in(s: &[char]) -> (out: Vec<char>)
    ensures
        out@ == fix_link_spec(s@),
{
    let n = s.len();
    if within_code_in(s, n) {
        return sub_vec(s, 0, n);
    }
    let l = line_ranges_in(s);
    match last_nonblank_line_in(s, &l) {
        Some(k) => {
            assert(l@[k as int].0 <= l@[k as int].1 <= s.len());
            assert(k + 2 < l.len() ==> l@[k + 2].0 <= s.len());
            match drop_line_bracket_in(s, &l, k) {
                Some(v) => {
                    return v;
                },
                None => {},
            }
        },
        None => {},
    }
    close_link_in(s)
}

/// Complete a trailing unclosed link or image.
pub fn fix_link(content: &str) -> (r: String)
    ensures
        r@ == fix_link_spec(content@),
{
    let v = chars_of(content);
    let o = fix_link_in(&v);
    string_of(&o)
}

} // verus!
