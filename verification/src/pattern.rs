//! Line patterns used by the fixers: table rows and separators, task-list
//! items, dashes, quotes.
use vstd::prelude::*;

use crate::text::{
    all_js_ws, chars_of, count_char, count_char_in, find_char, lemma_find_char_bounds,
    find_char_from, is_js_ws_char, string_of, sub_vec, trim_c_vec, trim_end_blank,
    trim_end_blank_len, trim_end_c, trim_start_c, trim_start_js, trim_start_js_len, trim_white,
    trim_white_vec,
};

verus! {

/// `/^\|.*\|.*\|/` on the trimmed line: starts with `|`, at least three pipes.
pub open spec fn table_row(l: Seq<char>) -> bool {
    let t = trim_white(l);
    t.len() > 0 && t[0] == '|' && count_char(t, '|') >= 3
}

pub fn table_row_in(l: &[char]) -> (b: bool)
    ensures
        b == table_row(l@),
{
    let t = trim_white_vec(l);
    t.len() > 0 && t[0] == '|' && count_char_in(&t, '|') >= 3
}

/// `/^\|.*\|.*\|/` — line looks like a table row (>= 3 pipes).
pub fn is_table_row_line(line: &str) -> (b: bool)
    ensures
        b == table_row(line@),
{
    let v = chars_of(line);
    table_row_in(&v)
}

/// A separator cell: trimmed, colons stripped, at least three dashes and nothing else.
pub open spec fn separator_cell(cell: Seq<char>) -> bool {
    let t = trim_white(cell);
    let d = trim_start_c(trim_end_c(t, ':'), ':');
    t.len() > 0 && d.len() >= 3 && forall|k: int| 0 <= k < d.len() ==> #[trigger] d[k] == '-'
}

#[verifier::loop_isolation(false)]
fn separator_cell_in(cell: &[char]) -> (b: bool)
    ensures
        b == separator_cell(cell@),
{
    let t = trim_white_vec(cell);
    if t.len() == 0 {
        return false;
    }
    let d = trim_c_vec(&t, ':');
    if d.len() < 3 {
        return false;
    }
    let mut k: usize = 0;
    while k < d.len()
        invariant
            k <= d.len(),
            forall|m: int| 0 <= m < k ==> #[trigger] d@[m] == '-',
        decreases d.len() - k,
    {
        if d[k] != '-' {
            assert(d@[k as int] != '-');
            return false;
        }
        k += 1;
    }
    true
}

/// Pieces of `s` split on `c` from `start` on, as `[begin, end)` ranges.
pub open spec fn pieces_from(s: Seq<char>, c: char, start: int) -> Seq<(usize, usize)>
    decreases s.len() + 1 - start,
{
    if start < 0 || start > s.len() {
        Seq::empty()
    } else {
        let e = find_char(s, c, start);
        if e < 0 {
            seq![(start as usize, s.len() as usize)]
        } else {
            proof {
                lemma_find_char_bounds(s, c, start);
            }
            seq![(start as usize, e as usize)] + pieces_from(s, c, e + 1)
        }
    }
}

pub proof fn lemma_pieces_bounds(s: Seq<char>, c: char, start: int)
    requires
        0 <= start <= s.len(),
        s.len() <= usize::MAX,
    ensures
        forall|k: int|
            0 <= k < pieces_from(s, c, start).len() ==> (#[trigger] pieces_from(s, c, start)[k]).0
                <= pieces_from(s, c, start)[k].1 <= s.len(),
        pieces_from(s, c, start).len() >= 1,
    decreases s.len() + 1 - start,
{
    let e = find_char(s, c, start);
    lemma_find_char_bounds(s, c, start);
    if e >= 0 {
        lemma_pieces_bounds(s, c, e + 1);
        let rest = pieces_from(s, c, e + 1);
        let all = pieces_from(s, c, start);
        assert forall|k: int| 0 <= k < all.len() implies (#[trigger] all[k]).0 <= all[k].1
            <= s.len() by {
            if k > 0 {
                assert(all[k] == rest[k - 1]);
            }
        }
    }
}

pub fn pieces_in(s: &[char], c: char) -> (r: Vec<(usize, usize)>)
    ensures
        r@ == pieces_from(s@, c, 0),
{
    let mut out: Vec<(usize, usize)> = Vec::new();
    let mut start: usize = 0;
    loop
        invariant
            start <= s.len(),
            out@ + pieces_from(s@, c, start as int) == pieces_from(s@, c, 0),
        decreases s.len() - start,
    {
        match find_char_from(s, c, start) {
            None => {
                let ghost old_out = out@;
                out.push((start, s.len()));
                assert(out@ == old_out + pieces_from(s@, c, start as int));
                return out;
            },
            Some(e) => {
                proof {
                    lemma_find_char_bounds(s@, c, start as int);
                }
                let ghost old_out = out@;
                out.push((start, e));
                assert(old_out + pieces_from(s@, c, start as int) == out@ + pieces_from(
                    s@,
                    c,
                    e + 1,
                ));
                start = e + 1;
            },
        }
    }
}

/// Cells of a separator line after its leading `|`: pieces split on `|`,
/// without the empty piece a trailing `|` leaves.
pub open spec fn separator_cells(rest: Seq<char>) -> Seq<(usize, usize)> {
    let p = pieces_from(rest, '|', 0);
    if rest.len() > 0 && rest.last() == '|' {
        p.drop_last()
    } else {
        p
    }
}

/// `/^\|[\s:]*-{3,}[\s:]*(?:\|[\s:]*-{3,}[\s:]*)+\|?$/`, as the trimmed line split into cells.
pub open spec fn table_separator(l: Seq<char>) -> bool {
    let t = trim_white(l);
    let rest = t.skip(1);
    let cells = separator_cells(rest);
    t.len() > 0 && t[0] == '|' && cells.len() >= 2 && forall|k: int|
        0 <= k < cells.len() ==> separator_cell(
            rest.subrange((#[trigger] cells[k]).0 as int, cells[k].1 as int),
        )
}

#[verifier::loop_isolation(false)]
pub fn table_separator_in(l: &[char]) -> (b: bool)
    ensures
        b == table_separator(l@),
{
    let t = trim_white_vec(l);
    if t.len() == 0 || t[0] != '|' {
        return false;
    }
    let n = t.len();
    let rest = sub_vec(&t, 1, n);
    assert(rest@ == t@.skip(1));
    let mut cells = pieces_in(&rest, '|');
    proof {
        assert(rest@.len() == rest.len());
        lemma_pieces_bounds(rest@, '|', 0);
    }
    if rest.len() > 0 && rest[rest.len() - 1] == '|' {
        cells.pop();
    }
    assert(cells@ == separator_cells(rest@));
    if cells.len() < 2 {
        return false;
    }
    let mut k: usize = 0;
    while k < cells.len()
        invariant
            k <= cells.len(),
            cells@ == separator_cells(rest@),
            forall|m: int|
                0 <= m < cells@.len() ==> (#[trigger] cells@[m]).0 <= cells@[m].1 <= rest@.len(),
            forall|m: int|
                0 <= m < k ==> separator_cell(
                    rest@.subrange((#[trigger] cells@[m]).0 as int, cells@[m].1 as int),
                ),
        decreases cells.len() - k,
    {
        let (a, b) = cells[k];
        let cell = sub_vec(&rest, a, b);
        if !separator_cell_in(&cell) {
            assert(cells@[k as int] == (a, b));
            assert(!separator_cell(rest@.subrange(a as int, b as int)));
            return false;
        }
        k += 1;
    }
    true
}

/// `/^\|[\s:]*-{3,}[\s:]*(?:\|[\s:]*-{3,}[\s:]*)+\|?$/`
pub fn is_table_separator_line(line: &str) -> (b: bool)
    ensures
        b == table_separator(line@),
{
    let v = chars_of(line);
    table_separator_in(&v)
}

/// `/^\s*-$/`
pub open spec fn standalone_dash(l: Seq<char>) -> bool {
    trim_white(l) == seq!['-']
}

pub fn standalone_dash_in(l: &[char]) -> (b: bool)
    ensures
        b == standalone_dash(l@),
{
    let t = trim_white_vec(l);
    let r = t.len() == 1 && t[0] == '-';
    assert(r ==> t@ =~= seq!['-']);
    r
}

pub fn is_standalone_dash(line: &str) -> (b: bool)
    ensures
        b == standalone_dash(line@),
{
    let v = chars_of(line);
    standalone_dash_in(&v)
}

/// `/^\s*-\s+$/`: leading whitespace, a dash, then only whitespace, at
/// least one.
pub open spec fn dash_with_space(l: Seq<char>) -> bool {
    let t = trim_start_js(l);
    t.len() >= 2 && t[0] == '-' && all_js_ws(t.skip(1))
}

pub fn dash_with_space_in(l: &[char]) -> (b: bool)
    ensures
        b == dash_with_space(l@),
{
    let n = trim_start_js_len(l);
    let ghost t = l@.skip(n as int);
    if l.len() - n < 2 || l[n] != '-' {
        return false;
    }
    assert(t[0] == l@[n as int]);
    let mut k: usize = n + 1;
    while k < l.len()
        invariant
            n + 1 <= k <= l.len(),
            t == l@.skip(n as int),
            t == trim_start_js(l@),
            t.len() >= 2,
            t[0] == '-',
            forall|m: int| 1 <= m < k - n ==> crate::text::is_js_ws(#[trigger] t[m]),
        decreases l.len() - k,
    {
        if !is_js_ws_char(l[k]) {
            assert(t.skip(1)[k - n - 1] == l@[k as int]);
            assert(!crate::text::is_js_ws(t.skip(1)[k - n - 1]));
            return false;
        }
        assert(t[k - n] == l@[k as int]);
        k += 1;
    }
    assert forall|m: int| 0 <= m < t.skip(1).len() implies crate::text::is_js_ws(#[trigger] t.skip(1)[m]) by {
        assert(t.skip(1)[m] == t[m + 1]);
    }
    true
}

pub fn is_dash_with_space(line: &str) -> (b: bool)
    ensures
        b == dash_with_space(line@),
{
    let v = chars_of(line);
    dash_with_space_in(&v)
}

/// `/^\s*- \[[x ]\]/i` on the trimmed line.
pub open spec fn task_list(l: Seq<char>) -> bool {
    let t = trim_white(l);
    let first = if t.len() > 3 {
        t[3]
    } else {
        ' '
    };
    let second = if t.len() > 4 {
        t[4]
    } else {
        ' '
    };
    t.len() >= 3 && t[0] == '-' && t[1] == ' ' && t[2] == '[' && (first == 'x' || first == 'X'
        || first == ' ') && second == ']'
}

pub fn task_list_in(l: &[char]) -> (b: bool)
    ensures
        b == task_list(l@),
{
    let t = trim_white_vec(l);
    if t.len() < 3 || t[0] != '-' || t[1] != ' ' || t[2] != '[' {
        return false;
    }
    let first = if t.len() > 3 {
        t[3]
    } else {
        ' '
    };
    let second = if t.len() > 4 {
        t[4]
    } else {
        ' '
    };
    (first == 'x' || first == 'X' || first == ' ') && second == ']'
}

/// `/^\s*- \[[x ]\]/i`
pub fn is_task_list(line: &str) -> (b: bool)
    ensures
        b == task_list(line@),
{
    let v = chars_of(line);
    task_list_in(&v)
}

/// `/^\s*-\s*\[\s*$/` on the trimmed line.
pub open spec fn incomplete_task_list(l: Seq<char>) -> bool {
    let t = trim_white(l);
    let r = trim_start_js(t.skip(1));
    t.len() >= 1 && t[0] == '-' && r.len() >= 1 && r[0] == '[' && all_js_ws(r.skip(1))
}

#[verifier::loop_isolation(false)]
pub fn incomplete_task_list_in(l: &[char]) -> (b: bool)
    ensures
        b == incomplete_task_list(l@),
{
    let t = trim_white_vec(l);
    if t.len() < 1 || t[0] != '-' {
        return false;
    }
    let n = t.len();
    let after = sub_vec(&t, 1, n);
    assert(after@ == t@.skip(1));
    let a = trim_start_js_len(&after);
    let m = after.len();
    let r = sub_vec(&after, a, m);
    assert(r@ == after@.skip(a as int));
    if r.len() < 1 || r[0] != '[' {
        return false;
    }
    let mut k: usize = 1;
    while k < r.len()
        invariant
            1 <= k <= r.len(),
            forall|j: int| 1 <= j < k ==> crate::text::is_js_ws(#[trigger] r@[j]),
        decreases r.len() - k,
    {
        if !is_js_ws_char(r[k]) {
            assert(r@.skip(1)[k - 1] == r@[k as int]);
            assert(!crate::text::is_js_ws(r@.skip(1)[k - 1]));
            return false;
        }
        k += 1;
    }
    assert forall|j: int| 0 <= j < r@.skip(1).len() implies crate::text::is_js_ws(
        #[trigger] r@.skip(1)[j],
    ) by {
        assert(r@.skip(1)[j] == r@[j + 1]);
    }
    true
}

/// `/^\s*-\s*\[\s*$/`
pub fn is_incomplete_task_list(line: &str) -> (b: bool)
    ensures
        b == incomplete_task_list(line@),
{
    let v = chars_of(line);
    incomplete_task_list_in(&v)
}

/// The part of a quoted line after `>`, trimmed; `None` when the trimmed
/// line does not start with `>`.
pub open spec fn quote_body(l: Seq<char>) -> Option<Seq<char>> {
    let t = trim_white(l);
    if t.len() >= 1 && t[0] == '>' {
        Some(trim_white(t.skip(1)))
    } else {
        None
    }
}

fn quote_body_in(l: &[char]) -> (r: Option<Vec<char>>)
    ensures
        match r {
            Some(v) => quote_body(l@) == Some(v@),
            None => quote_body(l@) is None,
        },
{
    let t = trim_white_vec(l);
    if t.len() < 1 || t[0] != '>' {
        return None;
    }
    let n = t.len();
    let after = sub_vec(&t, 1, n);
    assert(after@ == t@.skip(1));
    Some(trim_white_vec(&after))
}

/// `/^>\s*-$/`
pub open spec fn quote_standalone_dash(l: Seq<char>) -> bool {
    match quote_body(l) {
        Some(b) => standalone_dash(b),
        None => false,
    }
}

pub fn quote_standalone_dash_in(l: &[char]) -> (b: bool)
    ensures
        b == quote_standalone_dash(l@),
{
    match quote_body_in(l) {
        Some(v) => standalone_dash_in(&v),
        None => false,
    }
}

pub fn is_quote_standalone_dash(line: &str) -> (b: bool)
    ensures
        b == quote_standalone_dash(line@),
{
    let v = chars_of(line);
    quote_standalone_dash_in(&v)
}

/// `/^>\s*- \[[x ]\]/i`
pub open spec fn quote_task_list(l: Seq<char>) -> bool {
    match quote_body(l) {
        Some(b) => task_list(b),
        None => false,
    }
}

pub fn quote_task_list_in(l: &[char]) -> (b: bool)
    ensures
        b == quote_task_list(l@),
{
    match quote_body_in(l) {
        Some(v) => task_list_in(&v),
        None => false,
    }
}

pub fn is_quote_task_list(line: &str) -> (b: bool)
    ensures
        b == quote_task_list(line@),
{
    let v = chars_of(line);
    quote_task_list_in(&v)
}

/// `/^>\s*-\s*\[\s*$/`
pub open spec fn quote_incomplete_task_list(l: Seq<char>) -> bool {
    match quote_body(l) {
        Some(b) => incomplete_task_list(b),
        None => false,
    }
}

pub fn quote_incomplete_task_list_in(l: &[char]) -> (b: bool)
    ensures
        b == quote_incomplete_task_list(l@),
{
    match quote_body_in(l) {
        Some(v) => incomplete_task_list_in(&v),
        None => false,
    }
}

pub fn is_quote_incomplete_task_list(line: &str) -> (b: bool)
    ensures
        b == quote_incomplete_task_list(line@),
{
    let v = chars_of(line);
    quote_incomplete_task_list_in(&v)
}

/// Removal of a trailing standalone `-` line (`/(\n\n?)-[ \t]*$/`), keeping one newline.
pub open spec fn drop_trailing_dash(s: Seq<char>) -> Seq<char> {
    let end = trim_end_blank(s).len() as int;
    let dash = end - 1;
    let nl = dash - 1;
    let keep = if nl > 0 && s[nl - 1] == '\n' {
        nl - 1
    } else {
        nl
    };
    if end == 0 || s[end - 1] != '-' || dash == 0 || s[dash - 1] != '\n' {
        s
    } else {
        s.take(keep + 1)
    }
}

pub fn drop_trailing_dash_in(s: &[char]) -> (out: Vec<char>)
    ensures
        out@ == drop_trailing_dash(s@),
{
    let end = trim_end_blank_len(s);
    if end == 0 || s[end - 1] != '-' {
        return sub_vec(s, 0, s.len());
    }
    let dash = end - 1;
    if dash == 0 || s[dash - 1] != '\n' {
        return sub_vec(s, 0, s.len());
    }
    let newline = dash - 1;
    let keep_start = if newline > 0 && s[newline - 1] == '\n' {
        newline - 1
    } else {
        newline
    };
    sub_vec(s, 0, keep_start + 1)
}

/// Remove a trailing standalone `-` line (pattern `/(\n\n?)-[ \t]*$/`):
/// returns content with that dash line removed, newlines preserved.
pub fn remove_trailing_standalone_dash(content: &str) -> (r: String)
    ensures
        r@ == drop_trailing_dash(content@),
{
    let v = chars_of(content);
    let o = drop_trailing_dash_in(&v);
    string_of(&o)
}

} // verus!
