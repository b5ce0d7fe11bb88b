//! The table fixer: completes a streaming table header with its separator row.
use vstd::prelude::*;
use crate::pattern::{table_row, table_row_in, table_separator, table_separator_in};
use crate::scan::{
    closed_code_ranges, code_ranges_in, inside_unclosed_code, is_range_overlapping_ranges,
    last_para, last_para_range_in, line_blank, line_ranges, line_ranges_in, lines_shape,
    overlaps_any, within_code_in,
};
use crate::text::{all_white_range, chars_of, count_char, count_char_in, extend_all, extend_range, rfind_last, rfind_seq_last, string_of, sub_vec, trim_white, trim_white_vec};

verus! {

/// Non-blank lines among the first `k` lines `l` of `s`.
pub open spec fn nonblank_lines(s: Seq<char>, l: Seq<(usize, usize)>, k: int) -> Seq<(usize, usize)>
    decreases k,
{
    if k <= 0 || k > l.len() {
        Seq::empty()
    } else if !line_blank(s, l, k - 1) {
        nonblank_lines(s, l, k - 1).push(l[k - 1])
    } else {
        nonblank_lines(s, l, k - 1)
    }
}

/// A trimmed line that can serve as a table header row.
pub open spec fn header_candidate(t: Seq<char>) -> bool {
    table_row(t) || (t.len() > 1 && t[0] == '|')
}

/// The trimmed text of paragraph line `k`.
pub open spec fn pline(p: Seq<char>, pl: Seq<(usize, usize)>, k: int) -> Seq<char> {
    trim_white(p.subrange(pl[k].0 as int, pl[k].1 as int))
}

/// Index of the first header candidate among `pl[k..]`, or -1.
pub open spec fn header_index(p: Seq<char>, pl: Seq<(usize, usize)>, k: int) -> int
    decreases pl.len() - k,
{
    if k < 0 || k >= pl.len() {
        -1
    } else if header_candidate(pline(p, pl, k)) {
        k
    } else {
        header_index(p, pl, k + 1)
    }
}

/// `"|" + " --- |" * columns`.
pub open spec fn separator_row(columns: nat) -> Seq<char>
    decreases columns,
{
    if columns == 0 {
        seq!['|']
    } else {
        separator_row((columns - 1) as nat) + seq![' ', '-', '-', '-', ' ', '|']
    }
}

/// Number of columns of a row: pipes minus one (saturating).
pub open spec fn column_count(row: Seq<char>) -> nat {
    if count_char(row, '|') >= 1 {
        (count_char(row, '|') - 1) as nat
    } else {
        0
    }
}

/// `nc` followed by the separator row on a line of its own.
pub open spec fn append_sep(nc: Seq<char>, sep: Seq<char>) -> Seq<char> {
    if nc.len() > 0 && nc.last() == '\n' {
        nc + sep
    } else {
        nc + seq!['\n'] + sep
    }
}

/// The header `ch` followed by the separator row, replacing the text's
/// `[pos, end)`; the line after the header goes when it looks like a broken
/// separator (`|` with a `-`).
pub open spec fn table_insert(s: Seq<char>, pos: int, end: int, ch: Seq<char>, sep: Seq<char>) -> Seq<
    char,
> {
    let after = s.skip(end);
    let al = line_ranges(after);
    let nl = if al.len() > 1 {
        after.subrange(al[1].0 as int, al[1].1 as int)
    } else {
        Seq::empty()
    };
    let k: int = if nl.len() > 0 && nl[0] == '|' && crate::text::find_char(nl, '-', 0) >= 0 {
        2
    } else {
        1
    };
    let rest = if k < al.len() {
        seq!['\n'] + after.skip(al[k].0 as int)
    } else {
        Seq::empty()
    };
    s.take(pos) + ch + seq!['\n'] + sep + rest
}

/// The table step once the header row `hr` (trimmed) at line `hi` of the
/// paragraph's non-blank lines `pl` has been found.
pub open spec fn complete_table(
    s: Seq<char>,
    p: Seq<char>,
    pl: Seq<(usize, usize)>,
    hi: int,
    hr: Seq<char>,
) -> Seq<char> {
    let r = rfind_last(s, hr);
    let pos = if r >= 0 {
        r
    } else {
        0
    };
    let complete = hr.len() > 0 && hr.last() == '|';
    let ch = if complete {
        hr
    } else {
        hr + seq![' ', '|']
    };
    let cols = column_count(ch);
    let sep = separator_row(cols);
    let joined = s.take(pos) + ch + s.skip(pos + hr.len());
    let next = if hi + 1 < pl.len() {
        pline(p, pl, hi + 1)
    } else {
        Seq::empty()
    };
    if pos + hr.len() > s.len() || overlaps_any(pos, pos + hr.len(), closed_code_ranges(s)) {
        s
    } else if hi == pl.len() - 1 {
        append_sep(if complete { s } else { joined }, sep)
    } else if table_separator(next) && column_count(next) == cols {
        if complete {
            s
        } else {
            joined
        }
    } else {
        table_insert(s, pos, pos + hr.len(), ch, sep)
    }
}

/// The `fixTable` step: give a streaming table header its separator row.
pub open spec fn fix_table_spec(s: Seq<char>) -> Seq<char> {
    let p = last_para(s, true);
    let l = line_ranges(p);
    let pl = nonblank_lines(p, l, l.len() as int);
    let hi = header_index(p, pl, 0);
    if inside_unclosed_code(s) || pl.len() == 0 || hi < 0 {
        s
    } else {
        complete_table(s, p, pl, hi, pline(p, pl, hi))
    }
}

fn separator_row_in(columns: usize) -> (r: Vec<char>)
    ensures
        r@ == separator_row(columns as nat),
{
    let mut out: Vec<char> = vec!['|'];
    let mut c: usize = 0;
    assert(out@ == separator_row(0));
    while c < columns
        invariant
            c <= columns,
            out@ == separator_row(c as nat),
        decreases columns - c,
    {
        out.push(' ');
        out.push('-');
        out.push('-');
        out.push('-');
        out.push(' ');
        out.push('|');
        c += 1;
        assert(out@ == separator_row(c as nat));
    }
    out
}

fn column_count_in(row: &[char]) -> (n: usize)
    ensures
        n == column_count(row@),
{
    let c = count_char_in(row, '|');
    if c >= 1 {
        c - 1
    } else {
        0
    }
}

fn nonblank_lines_in(p: &[char], l: &Vec<(usize, usize)>) -> (pl: Vec<(usize, usize)>)
    requires
        lines_shape(p@, l@, 0),
    ensures
        pl@ == nonblank_lines(p@, l@, l@.len() as int),
        forall|k: int| 0 <= k < pl@.len() ==> (#[trigger] pl@[k]).0 <= pl@[k].1 <= p@.len(),
{
    let mut out: Vec<(usize, usize)> = Vec::new();
    let mut k: usize = 0;
    while k < l.len()
        invariant
            lines_shape(p@, l@, 0),
            k <= l.len(),
            out@ == nonblank_lines(p@, l@, k as int),
            forall|m: int| 0 <= m < out@.len() ==> (#[trigger] out@[m]).0 <= out@[m].1 <= p@.len(),
        decreases l.len() - k,
    {
        let (a, b) = l[k];
        if !all_white_range(p, a, b) {
            out.push((a, b));
        }
        k += 1;
    }
    out
}

fn header_index_in(p: &[char], pl: &Vec<(usize, usize)>) -> (r: Option<usize>)
    requires
        forall|k: int| 0 <= k < pl@.len() ==> (#[trigger] pl@[k]).0 <= pl@[k].1 <= p@.len(),
    ensures
        match r {
            Some(k) => k < pl.len() && k as int == header_index(p@, pl@, 0),
            None => header_index(p@, pl@, 0) == -1,
        },
{
    let mut k: usize = 0;
    while k < pl.len()
        invariant
            k <= pl.len(),
            forall|m: int| 0 <= m < pl@.len() ==> (#[trigger] pl@[m]).0 <= pl@[m].1 <= p@.len(),
            header_index(p@, pl@, k as int) == header_index(p@, pl@, 0),
        decreases pl.len() - k,
    {
        let (a, b) = pl[k];
        let line = sub_vec(p, a, b);
        let t = trim_white_vec(&line);
        if table_row_in(&t) || (t.len() > 1 && t[0] == '|') {
            return Some(k);
        }
        k += 1;
    }
    None
}

fn table_insert_in(s: &[char], pos: usize, end: usize, ch: &[char], sep: &[char]) -> (out: Vec<
    char,
>)
    requires
        pos <= end <= s.len(),
    ensures
        out@ == table_insert(s@, pos as int, end as int, ch@, sep@),
{
    let n = s.len();
    let after = sub_vec(s, end, n);
    assert(after@ == s@.skip(end as int));
    let al = line_ranges_in(&after);
    let nl = if al.len() > 1 {
        let (x, y) = al[1];
        sub_vec(&after, x, y)
    } else {
        Vec::new()
    };
    let k: usize = if nl.len() > 0 && nl[0] == '|' && crate::text::find_char_from(&nl, '-', 0).is_some() {
        2
    } else {
        1
    };
    let mut out = sub_vec(s, 0, pos);
    extend_all(&mut out, ch);
    out.push('\n');
    extend_all(&mut out, sep);
    if k < al.len() {
        out.push('\n');
        let c = al[k].0;
        let m = after.len();
        extend_range(&mut out, &after, c, m);
        assert(after@.subrange(c as int, m as int) == after@.skip(c as int));
    }
    out
}

fn append_sep_in(nc: Vec<char>, sep: &[char]) -> (out: Vec<char>)
    ensures
        out@ == append_sep(nc@, sep@),
{
    let mut nc = nc;
    if !(nc.len() > 0 && nc[nc.len() - 1] == '\n') {
        nc.push('\n');
    }
    extend_all(&mut nc, sep);
    nc
}

fn complete_table_in(
    s: &[char],
    p: &[char],
    pl: &Vec<(usize, usize)>,
    hi: usize,
    hr: &[char],
) -> (out: Vec<char>)
    requires
        hi < pl.len(),
        forall|k: int| 0 <= k < pl@.len() ==> (#[trigger] pl@[k]).0 <= pl@[k].1 <= p@.len(),
    ensures
        out@ == complete_table(s@, p@, pl@, hi as int, hr@),
{
    let n = s.len();
    let pos = match rfind_seq_last(s, hr) {
        Some(r) => r,
        None => 0,
    };
    if hr.len() > n || pos > n - hr.len() {
        return sub_vec(s, 0, n);
    }
    let code = code_ranges_in(s);
    if is_range_overlapping_ranges(pos, pos + hr.len(), &code) {
        return sub_vec(s, 0, n);
    }
    let complete = hr.len() > 0 && hr[hr.len() - 1] == '|';
    let mut ch = sub_vec(hr, 0, hr.len());
    assert(ch@ == hr@);
    if !complete {
        ch.push(' ');
        ch.push('|');
        assert(ch@ == hr@ + seq![' ', '|']);
    }
    let cols = column_count_in(&ch);
    let sep = separator_row_in(cols);
    let after_start = pos + hr.len();
    let mut joined = sub_vec(s, 0, pos);
    extend_all(&mut joined, &ch);
    extend_range(&mut joined, s, after_start, n);
    assert(s@.subrange(after_start as int, n as int) == s@.skip(after_start as int));
    if hi == pl.len() - 1 {
        let nc = if complete {
            sub_vec(s, 0, n)
        } else {
            joined
        };
        return append_sep_in(nc, &sep);
    }
    let (a, b) = pl[hi + 1];
    let nline = sub_vec(p, a, b);
    let next = trim_white_vec(&nline);
    if table_separator_in(&next) && column_count_in(&next) == cols {
        if complete {
            return sub_vec(s, 0, n);
        }
        return joined;
    }
    table_insert_in(s, pos, after_start, &ch, &sep)
}

pub fn fix_table_in(s: &[char]) -> (out: Vec<char>)
    ensures
        out@ == fix_table_spec(s@),
{
    let n = s.len();
    if within_code_in(s, n) {
        return sub_vec(s, 0, n);
    }
    let (_line, off) = last_para_range_in(s, true);
    let p = sub_vec(s, off, n);
    assert(p@ == last_para(s@, true));
    let l = line_ranges_in(&p);
    let pl = nonblank_lines_in(&p, &l);
    if pl.len() == 0 {
        return sub_vec(s, 0, n);
    }
    match header_index_in(&p, &pl) {
        None => sub_vec(s, 0, n),
        Some(hi) => {
            let (a, b) = pl[hi];
            let line = sub_vec(&p, a, b);
            let hr = trim_white_vec(&line);
            complete_table_in(s, &p, &pl, hi, &hr)
        },
    }
}

/// Complete a streaming table header with its separator row.
pub fn fix_table(content: &str) -> (r: String)
    ensures
        r@ == fix_table_spec(content@),
{
    let v = chars_of(content);
    let o = fix_table_in(&v);
    string_of(&o)
}

/// A table whose header row is complete (ends with `|`) and is followed, on
/// the next non-blank line of the last paragraph, by a separator row with the
/// same number of columns needs nothing: `fix_table` returns its input as it
/// is, the separator's alignment markers included.
pub proof fn lemma_fix_table_keeps_complete_table(s: Seq<char>)
    ensures
        ({
            let p = last_para(s, true);
            let l = line_ranges(p);
            let pl = nonblank_lines(p, l, l.len() as int);
            let hi = header_index(p, pl, 0);
            let header = pline(p, pl, hi);
            let next = pline(p, pl, hi + 1);
            0 <= hi && hi + 1 < pl.len() && header.len() > 0 && header.last() == '|'
                && table_separator(next) && column_count(next) == column_count(header)
        }) ==> fix_table_spec(s) == s,
{
}

/// A header row without its closing `|`, followed on the next non-blank line
/// of the last paragraph by a separator row with as many columns as the
/// closed header, is closed where it last occurs, and nothing else changes
/// (when the text does not end inside an open code fence and that place lies
/// in no closed code block).
pub proof fn lemma_fix_table_closes_header(s: Seq<char>)
    ensures
        ({
            let p = last_para(s, true);
            let l = line_ranges(p);
            let pl = nonblank_lines(p, l, l.len() as int);
            let hi = header_index(p, pl, 0);
            let header = pline(p, pl, hi);
            let next = pline(p, pl, hi + 1);
            let pos = rfind_last(s, header);
            &&& !inside_unclosed_code(s)
            &&& 0 <= hi && hi + 1 < pl.len()
            &&& !(header.len() > 0 && header.last() == '|')
            &&& table_separator(next)
            &&& column_count(next) == column_count(header + seq![' ', '|'])
            &&& pos >= 0
            &&& !overlaps_any(pos, pos + header.len(), closed_code_ranges(s))
        }) ==> ({
            let p = last_para(s, true);
            let l = line_ranges(p);
            let pl = nonblank_lines(p, l, l.len() as int);
            let header = pline(p, pl, header_index(p, pl, 0));
            let pos = rfind_last(s, header);
            fix_table_spec(s) == s.take(pos) + header + seq![' ', '|'] + s.skip(pos + header.len())
        }),
{
    let p = last_para(s, true);
    let l = line_ranges(p);
    let pl = nonblank_lines(p, l, l.len() as int);
    let hi = header_index(p, pl, 0);
    let header = pline(p, pl, hi);
    crate::text::lemma_rfind_seq_bounds(s, header, s.len() - header.len());
}

/// A header row that is the last non-blank line of the last paragraph gets a
/// separator row on a new line after the text: `|` and one ` --- |` per
/// column of the header, closed with `|` first when it lacks one (unless the
/// text ends inside an open code fence or the header's last occurrence lies
/// in a closed code block).
pub proof fn lemma_fix_table_appends_separator(s: Seq<char>)
    ensures
        ({
            let p = last_para(s, true);
            let l = line_ranges(p);
            let pl = nonblank_lines(p, l, l.len() as int);
            let hi = header_index(p, pl, 0);
            let header = pline(p, pl, hi);
            let pos = rfind_last(s, header);
            &&& !inside_unclosed_code(s)
            &&& 0 <= hi && hi + 1 == pl.len()
            &&& pos >= 0
            &&& !overlaps_any(pos, pos + header.len(), closed_code_ranges(s))
        }) ==> ({
            let p = last_para(s, true);
            let l = line_ranges(p);
            let pl = nonblank_lines(p, l, l.len() as int);
            let header = pline(p, pl, header_index(p, pl, 0));
            let pos = rfind_last(s, header);
            let complete = header.len() > 0 && header.last() == '|';
            let closed = if complete { header } else { header + seq![' ', '|'] };
            let text = if complete {
                s
            } else {
                s.take(pos) + closed + s.skip(pos + header.len())
            };
            let sep = separator_row(column_count(closed));
            fix_table_spec(s) == if text.len() > 0 && text.last() == '\n' {
                text + sep
            } else {
                text + seq!['\n'] + sep
            }
        }),
{
    let p = last_para(s, true);
    let l = line_ranges(p);
    let pl = nonblank_lines(p, l, l.len() as int);
    let hi = header_index(p, pl, 0);
    let header = pline(p, pl, hi);
    crate::text::lemma_rfind_seq_bounds(s, header, s.len() - header.len());
}

/// What follows the header `ch` in `table_insert`: nothing, or a newline and
/// the text from the start of a line after the header's line.
proof fn lemma_insert_tail(s: Seq<char>, pos: int, end: int, ch: Seq<char>, sep: Seq<char>)
    requires
        0 <= pos <= end <= s.len(),
        s.len() <= usize::MAX,
    ensures
        ({
            let head = s.take(pos) + ch + seq!['\n'] + sep;
            let r = table_insert(s, pos, end, ch, sep);
            r == head || exists|i: int|
                end < i <= s.len() && s[i - 1] == '\n' && r == head + seq!['\n'] + #[trigger] s.skip(i)
        }),
{
    let after = s.skip(end);
    let al = line_ranges(after);
    crate::scan::lemma_lines_shape(after, 0);
    let nl = if al.len() > 1 {
        after.subrange(al[1].0 as int, al[1].1 as int)
    } else {
        Seq::empty()
    };
    let k: int = if nl.len() > 0 && nl[0] == '|' && crate::text::find_char(nl, '-', 0) >= 0 {
        2
    } else {
        1
    };
    if k < al.len() {
        assert(al[k - 1].1 + 1 == al[k].0);
        assert(after[al[k - 1].1 as int] == '\n');
        let i = end + al[k].0;
        assert(s[i - 1] == after[al[k].0 - 1]);
        assert(s.skip(i) == after.skip(al[k].0 as int));
    }
}

/// A header row followed by a line that is not a separator row with as many
/// columns gets a fresh separator row: the text before the header is kept,
/// then the header (closed with `|` when it lacks one), a newline, `|` and one
/// ` --- |` per column; after that nothing, or a newline and the rest of the
/// text from the start of a line after the header's line (when the text does
/// not end inside an open code fence and the header's last occurrence lies
/// in no closed code block).
pub proof fn lemma_fix_table_inserts_separator(s: Seq<char>)
    requires
        s.len() <= usize::MAX,
    ensures
        ({
            let p = last_para(s, true);
            let l = line_ranges(p);
            let pl = nonblank_lines(p, l, l.len() as int);
            let hi = header_index(p, pl, 0);
            let header = pline(p, pl, hi);
            let next = pline(p, pl, hi + 1);
            let pos = rfind_last(s, header);
            let complete = header.len() > 0 && header.last() == '|';
            let closed = if complete { header } else { header + seq![' ', '|'] };
            &&& !inside_unclosed_code(s)
            &&& 0 <= hi && hi + 1 < pl.len()
            &&& !(table_separator(next) && column_count(next) == column_count(closed))
            &&& pos >= 0
            &&& !overlaps_any(pos, pos + header.len(), closed_code_ranges(s))
        }) ==> ({
            let p = last_para(s, true);
            let l = line_ranges(p);
            let pl = nonblank_lines(p, l, l.len() as int);
            let header = pline(p, pl, header_index(p, pl, 0));
            let pos = rfind_last(s, header);
            let complete = header.len() > 0 && header.last() == '|';
            let closed = if complete { header } else { header + seq![' ', '|'] };
            let head = s.take(pos) + closed + seq!['\n'] + separator_row(column_count(closed));
            let r = fix_table_spec(s);
            r == head || exists|i: int|
                pos + header.len() < i <= s.len() && s[i - 1] == '\n' && r == head + seq!['\n']
                    + #[trigger] s.skip(i)
        }),
{
    let p = last_para(s, true);
    let l = line_ranges(p);
    let pl = nonblank_lines(p, l, l.len() as int);
    let hi = header_index(p, pl, 0);
    let header = pline(p, pl, hi);
    crate::text::lemma_rfind_seq_bounds(s, header, s.len() - header.len());
    let pos = rfind_last(s, header);
    if pos >= 0 {
        let complete = header.len() > 0 && header.last() == '|';
        let closed = if complete { header } else { header + seq![' ', '|'] };
        lemma_insert_tail(s, pos, pos + header.len(), closed, separator_row(column_count(closed)));
    }
}

} // verus!
