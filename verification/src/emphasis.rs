//! Fixers for strong (`**` / `__`), emphasis (`*` / `_`) and strikethrough
//! (`~~`) markers left open at the end of a streaming paragraph.
use vstd::prelude::*;
use crate::pattern::{drop_trailing_dash, drop_trailing_dash_in};
use crate::preprocess::PreprocessOptions;
use crate::scan::{append_before_ws, append_before_ws_in, closed_code_ranges, code_ranges_in, count_in, count_occ, ignore_underscore, ignore_underscore_in, in_ranges, inline_code_ranges, inline_code_ranges_in, inside_unclosed_code, is_position_in_ranges, last_para, last_para_range, last_para_range_in, mask_markers, mask_markers_in, mask_underscores, mask_underscores_in, remove_math, remove_math_in, remove_urls, remove_urls_in, strip_code, strip_code_in, tag_toggle, triple_at, url_scan, within_code_in, within_math, within_math_in, within_tag_in, within_url_in};
use crate::text::{all_white, all_white_range, chars_of, extend_range, find_char, find_char_from, find_seq, find_seq_from, lemma_find_seq_bounds, lemma_rfind_seq_bounds, rfind_last, rfind_seq_last, string_of, sub_vec, trim_end_white, trim_end_white_len};

verus! {

/// `s` with every non-overlapping occurrence of `pat` (found left to right
/// from `i`) removed (`str::replace(pat, "")`).
pub open spec fn remove_all_from(s: Seq<char>, pat: Seq<char>, i: int) -> Seq<char>
    decreases s.len() + 1 - i,
{
    if pat.len() == 0 || i < 0 || i > s.len() {
        s.subrange(if 0 <= i <= s.len() {
            i
        } else {
            s.len() as int
        }, s.len() as int)
    } else {
        let j = find_seq(s, pat, i);
        if j < 0 {
            s.subrange(i, s.len() as int)
        } else {
            proof {
                lemma_find_seq_bounds(s, pat, i);
            }
            s.subrange(i, j) + remove_all_from(s, pat, j + pat.len())
        }
    }
}

/// `s` with every occurrence of `pat` removed.
pub open spec fn remove_all(s: Seq<char>, pat: Seq<char>) -> Seq<char> {
    remove_all_from(s, pat, 0)
}

fn remove_all_in(s: &[char], pat: &[char]) -> (out: Vec<char>)
    requires
        pat.len() > 0,
    ensures
        out@ == remove_all(s@, pat@),
{
    let mut out: Vec<char> = Vec::new();
    let mut i: usize = 0;
    loop
        invariant
            pat.len() > 0,
            i <= s.len(),
            out@ + remove_all_from(s@, pat@, i as int) == remove_all(s@, pat@),
        decreases s.len() + 1 - i,
    {
        match find_seq_from(s, pat, i) {
            None => {
                extend_range(&mut out, s, i, s.len());
                return out;
            },
            Some(j) => {
                proof {
                    lemma_find_seq_bounds(s@, pat@, i as int);
                }
                let ghost before = out@;
                extend_range(&mut out, s, i, j);
                assert(before + remove_all_from(s@, pat@, i as int) == out@ + remove_all_from(
                    s@,
                    pat@,
                    j + pat.len(),
                ));
                i = j + pat.len();
            },
        }
    }
}

/// Number of occurrences of `c` in `s`.
pub open spec fn count_c(s: Seq<char>, c: char) -> nat {
    count_occ(s, seq![c])
}

/// `s` ends with exactly one `c` (not two).
pub open spec fn ends_single(s: Seq<char>, c: char) -> bool {
    s.len() > 0 && s.last() == c && !(s.len() >= 2 && s[s.len() - 2] == c)
}

/// Scan for the last doubled marker `c` outside fences and the given inline
/// ranges; with `us`, escaped or intraword runs do not count.
pub open spec fn ldm_scan(
    p: Seq<char>,
    r: Seq<(usize, usize)>,
    c: char,
    us: bool,
    i: int,
    in_code: bool,
    last: int,
) -> int
    decreases p.len() - i,
{
    if i < 0 || i + 1 >= p.len() {
        last
    } else if triple_at(p, i) {
        ldm_scan(p, r, c, us, i + 3, !in_code, last)
    } else if in_ranges(i, r) || in_code {
        ldm_scan(p, r, c, us, i + 1, in_code, last)
    } else if p[i] == c && p[i + 1] == c {
        if us && ignore_underscore(p, i, 2) {
            ldm_scan(p, r, c, us, i + 2, in_code, last)
        } else {
            ldm_scan(p, r, c, us, i + 2, in_code, i)
        }
    } else {
        ldm_scan(p, r, c, us, i + 1, in_code, last)
    }
}

pub proof fn lemma_ldm_scan(
    p: Seq<char>,
    r: Seq<(usize, usize)>,
    c: char,
    us: bool,
    i: int,
    in_code: bool,
    last: int,
)
    requires
        0 <= i,
        last == -1 || 0 <= last < p.len(),
    ensures
        ldm_scan(p, r, c, us, i, in_code, last) == -1 || 0 <= ldm_scan(p, r, c, us, i, in_code, last)
            < p.len(),
    decreases p.len() - i,
{
    if i + 1 < p.len() {
        if triple_at(p, i) {
            lemma_ldm_scan(p, r, c, us, i + 3, !in_code, last);
        } else if in_ranges(i, r) || in_code {
            lemma_ldm_scan(p, r, c, us, i + 1, in_code, last);
        } else if p[i] == c && p[i + 1] == c {
            if us && ignore_underscore(p, i, 2) {
                lemma_ldm_scan(p, r, c, us, i + 2, in_code, last);
            } else {
                lemma_ldm_scan(p, r, c, us, i + 2, in_code, i);
            }
        } else {
            lemma_ldm_scan(p, r, c, us, i + 1, in_code, last);
        }
    }
}

/// The last doubled marker `c` of the paragraph `p`, or -1.
pub open spec fn last_double(p: Seq<char>, r: Seq<(usize, usize)>, c: char, us: bool) -> int {
    ldm_scan(p, r, c, us, 0, false, -1)
}

fn last_double_in(p: &[char], r: &[(usize, usize)], c: char, us: bool) -> (out: Option<usize>)
    ensures
        match out {
            Some(x) => x as int == last_double(p@, r@, c, us) && x < p.len(),
            None => last_double(p@, r@, c, us) == -1,
        },
{
    proof {
        lemma_ldm_scan(p@, r@, c, us, 0, false, -1);
    }
    let mut in_code = false;
    let mut last: usize = 0;
    let mut found = false;
    let mut i: usize = 0;
    while i < p.len() && p.len() - i >= 2
        invariant
            found ==> last < p.len(),
            ldm_scan(p@, r@, c, us, i as int, in_code, if found {
                last as int
            } else {
                -1
            }) == last_double(p@, r@, c, us),
        decreases p.len() - i,
    {
        if p.len() - i >= 3 && p[i] == '`' && p[i + 1] == '`' && p[i + 2] == '`' {
            in_code = !in_code;
            i += 3;
            continue;
        }
        if is_position_in_ranges(i, r) || in_code {
            i += 1;
            continue;
        }
        if p[i] == c && p[i + 1] == c {
            if us && ignore_underscore_in(p, i, 2) {
                i += 2;
                continue;
            }
            last = i;
            found = true;
            i += 2;
            continue;
        }
        i += 1;
    }
    if found {
        Some(last)
    } else {
        None
    }
}

/// `(no_math, marker_counted)`: the last paragraph (blank final line skipped)
/// sanitized for counting strong markers.
pub open spec fn strong_texts(c: Seq<char>, single: bool) -> (Seq<char>, Seq<char>) {
    let p = last_para(c, true);
    let inline = inline_code_ranges(p, closed_code_ranges(p));
    let no_math = remove_math(remove_urls(strip_code(mask_markers(p, inline))), single);
    (no_math, mask_underscores(no_math))
}

fn strong_texts_in(c: &[char], single: bool) -> (r: (Vec<char>, Vec<char>))
    ensures
        r.0@ == strong_texts(c@, single).0,
        r.1@ == strong_texts(c@, single).1,
{
    let n = c.len();
    let (_line, off) = last_para_range_in(c, true);
    let p = sub_vec(c, off, n);
    assert(p@ == last_para(c@, true));
    let code = code_ranges_in(&p);
    let inline = inline_code_ranges_in(&p, &code);
    let masked = mask_markers_in(&p, &inline);
    let no_code = strip_code_in(&masked);
    let no_urls = remove_urls_in(&no_code);
    let no_math = remove_math_in(&no_urls, single);
    let counted = mask_underscores_in(&no_math);
    (no_math, counted)
}

/// `(complete, remove)` for an odd marker `pat`: complete when non-blank text
/// follows its last occurrence, remove otherwise.
pub open spec fn marker_need(t: Seq<char>, pat: Seq<char>) -> (bool, bool) {
    let r = rfind_last(t, pat);
    let pos = if r >= 0 {
        r
    } else {
        0
    };
    if pos + 2 <= t.len() && !all_white(t.skip(pos + 2)) {
        (true, false)
    } else {
        (false, true)
    }
}

fn marker_need_in(t: &[char], pat: &[char]) -> (r: (bool, bool))
    requires
        pat.len() == 2,
    ensures
        r == marker_need(t@, pat@),
{
    let pos = match rfind_seq_last(t, pat) {
        Some(x) => x,
        None => 0,
    };
    proof {
        lemma_rfind_seq_bounds(t@, pat@, t@.len() - 2);
    }
    let n = t.len();
    if pos + 2 > n {
        return (false, true);
    }
    assert(t@.subrange(pos + 2, n as int) == t@.skip(pos + 2));
    if !all_white_range(t, pos + 2, n) {
        (true, false)
    } else {
        (false, true)
    }
}

/// A position of `c` that sits in math, a link URL or an HTML tag.
pub open spec fn inside_span(c: Seq<char>, abs: int, single: bool) -> bool {
    within_math(c, abs, single) || url_scan(c, abs) || tag_toggle(c, 0, abs, false)
}

fn inside_span_in(c: &[char], abs: usize, single: bool) -> (b: bool)
    requires
        abs <= c.len(),
    ensures
        b == inside_span(c@, abs as int, single),
{
    within_math_in(c, abs, single) || within_url_in(c, abs) || within_tag_in(c, abs)
}

/// Analysis of open strong markers: `None` when a marker sits in math, a URL
/// or a tag (content stays); otherwise `(complete_star, remove_star,
/// complete_us, remove_us)`.
pub open spec fn strong_plan(c: Seq<char>, single: bool) -> Option<(bool, bool, bool, bool)> {
    let off = last_para_range(c, true).1 as int;
    let p = c.skip(off);
    let inline = inline_code_ranges(p, closed_code_ranges(p));
    let (nm, mc) = strong_texts(c, single);
    let star_odd = count_occ(nm, seq!['*', '*']) % 2 == 1;
    let us_odd = count_occ(mc, seq!['_', '_']) % 2 == 1;
    let ls = last_double(p, inline, '*', false);
    let lu = last_double(p, inline, '_', true);
    let star = star_odd && ls >= 0;
    let us = us_odd && lu >= 0;
    let (sc, sr) = if star {
        marker_need(nm, seq!['*', '*'])
    } else {
        (false, false)
    };
    let (uc, ur) = if us {
        marker_need(mc, seq!['_', '_'])
    } else {
        (false, false)
    };
    if (star && inside_span(c, off + ls, single)) || (us && inside_span(c, off + lu, single)) {
        None
    } else {
        Some((sc, sr, uc, ur))
    }
}

#[verifier::rlimit(40)]
fn strong_plan_in(c: &[char], single: bool) -> (r: Option<(bool, bool, bool, bool)>)
    ensures
        r == strong_plan(c@, single),
{
    let n = c.len();
    let (_line, off) = last_para_range_in(c, true);
    let p = sub_vec(c, off, n);
    assert(p@ == c@.skip(off as int));
    let code = code_ranges_in(&p);
    let inline = inline_code_ranges_in(&p, &code);
    let (nm, mc) = strong_texts_in(c, single);
    let stars = vec!['*', '*'];
    let unders = vec!['_', '_'];
    assert(stars@ == seq!['*', '*']);
    assert(unders@ == seq!['_', '_']);
    let star_odd = count_in(&nm, &stars) % 2 == 1;
    let us_odd = count_in(&mc, &unders) % 2 == 1;
    let ls = last_double_in(&p, &inline, '*', false);
    let lu = last_double_in(&p, &inline, '_', true);
    let star = star_odd && ls.is_some();
    let us = us_odd && lu.is_some();
    if star {
        let x = match ls {
            Some(x) => x,
            None => 0,
        };
        if inside_span_in(c, off + x, single) {
            return None;
        }
    }
    if us {
        let x = match lu {
            Some(x) => x,
            None => 0,
        };
        if inside_span_in(c, off + x, single) {
            return None;
        }
    }
    let (sc, sr) = if star {
        marker_need_in(&nm, &stars)
    } else {
        (false, false)
    };
    let (uc, ur) = if us {
        marker_need_in(&mc, &unders)
    } else {
        (false, false)
    };
    Some((sc, sr, uc, ur))
}

/// Dropping a trailing single marker that a strong marker absorbed, and
/// re-deciding completion versus removal on the shortened text.
pub open spec fn strong_adjust(c: Seq<char>, single: bool, plan: (bool, bool, bool, bool)) -> (
    Seq<char>,
    bool,
    (bool, bool, bool, bool),
) {
    let (sc, sr, uc, ur) = plan;
    let star_cut = ends_single(c, '*') && (sc || sr);
    let c1 = if star_cut {
        c.drop_last()
    } else {
        c
    };
    let nm2 = strong_texts(c1, single).0;
    let (sc1, sr1) = if star_cut && count_occ(nm2, seq!['*', '*']) % 2 == 1 {
        marker_need(nm2, seq!['*', '*'])
    } else {
        (sc, sr)
    };
    let us_cut = ends_single(c, '_') && (uc || ur);
    let c2 = if us_cut {
        c1.drop_last()
    } else {
        c1
    };
    let mc2 = strong_texts(c2, single).1;
    let (uc1, ur1) = if us_cut && count_occ(mc2, seq!['_', '_']) % 2 == 1 {
        marker_need(mc2, seq!['_', '_'])
    } else {
        (uc, ur)
    };
    (c2, star_cut || us_cut, (sc1, sr1, uc1, ur1))
}

/// The result once the plan is settled.
pub open spec fn strong_finish(
    c: Seq<char>,
    orig: Seq<char>,
    single: bool,
    removed: bool,
    plan: (bool, bool, bool, bool),
) -> Seq<char> {
    let (sc, sr, uc, ur) = plan;
    let (nm, mc) = strong_texts(orig, single);
    let off2 = last_para_range(c, false).1 as int;
    let np = c.skip(off2);
    let pu = rfind_last(np, seq!['_', '_']);
    let abs = off2 + if pu >= 0 {
        pu
    } else {
        0
    };
    let fs = find_seq(nm, seq!['*', '*'], 0);
    let fu = find_seq(mc, seq!['_', '_'], 0);
    let (nm2, mc2) = strong_texts(c, single);
    if sr {
        drop_trailing_dash(trim_end_white(c.take(if c.len() >= 2 {
            c.len() - 2
        } else {
            0
        })))
    } else if ur {
        drop_trailing_dash(trim_end_white(c.take(abs)))
    } else if sc && uc {
        if fs >= 0 && (fu < 0 || fs < fu) {
            append_before_ws(c, seq!['_', '_', '*', '*'])
        } else {
            append_before_ws(c, seq!['*', '*', '_', '_'])
        }
    } else if sc {
        if !removed && count_c(remove_all(nm2, seq!['*', '*']), '*') % 2 == 1 {
            append_before_ws(c, seq!['*', '*', '*'])
        } else {
            append_before_ws(c, seq!['*', '*'])
        }
    } else if uc {
        if !removed && count_c(remove_all(mc2, seq!['_', '_']), '_') % 2 == 1 {
            append_before_ws(c, seq!['_', '_', '_'])
        } else {
            append_before_ws(c, seq!['_', '_'])
        }
    } else {
        c
    }
}

/// The `fixStrong` step: complete or remove an open `**` / `__` in the last
/// paragraph.
pub open spec fn fix_strong_spec(c: Seq<char>, single: bool) -> Seq<char> {
    if c == seq!['*'] || c == seq!['_'] {
        Seq::empty()
    } else if inside_unclosed_code(c) {
        c
    } else {
        match strong_plan(c, single) {
            None => c,
            Some(plan) => {
                let (c2, removed, plan2) = strong_adjust(c, single, plan);
                strong_finish(c2, c, single, removed, plan2)
            },
        }
    }
}

fn ends_single_in(s: &[char], c: char) -> (b: bool)
    ensures
        b == ends_single(s@, c),
{
    let n = s.len();
    n > 0 && s[n - 1] == c && !(n >= 2 && s[n - 2] == c)
}

fn drop_last_vec(v: Vec<char>) -> (out: Vec<char>)
    requires
        v.len() > 0,
    ensures
        out@ == v@.drop_last(),
{
    let n = v.len();
    sub_vec(&v, 0, n - 1)
}

#[verifier::rlimit(40)]
fn strong_adjust_in(c: &[char], single: bool, plan: (bool, bool, bool, bool)) -> (r: (
    Vec<char>,
    bool,
    (bool, bool, bool, bool),
))
    ensures
        r.0@ == strong_adjust(c@, single, plan).0,
        r.1 == strong_adjust(c@, single, plan).1,
        r.2 == strong_adjust(c@, single, plan).2,
{
    let (sc, sr, uc, ur) = plan;
    let stars = vec!['*', '*'];
    let unders = vec!['_', '_'];
    assert(stars@ == seq!['*', '*']);
    assert(unders@ == seq!['_', '_']);
    let star_cut = ends_single_in(c, '*') && (sc || sr);
    let us_cut = ends_single_in(c, '_') && (uc || ur);
    let mut c1 = sub_vec(c, 0, c.len());
    assert(c1@ == c@);
    let mut sc1 = sc;
    let mut sr1 = sr;
    if star_cut {
        c1 = drop_last_vec(c1);
        let (nm2, _mc) = strong_texts_in(&c1, single);
        if count_in(&nm2, &stars) % 2 == 1 {
            let (x, y) = marker_need_in(&nm2, &stars);
            sc1 = x;
            sr1 = y;
        }
    }
    let mut uc1 = uc;
    let mut ur1 = ur;
    if us_cut {
        assert(c1@.len() > 0) by {
            if !star_cut {
                assert(c1@ == c@);
            } else {
                assert(false);
            }
        }
        c1 = drop_last_vec(c1);
        let (_nm, mc2) = strong_texts_in(&c1, single);
        if count_in(&mc2, &unders) % 2 == 1 {
            let (x, y) = marker_need_in(&mc2, &unders);
            uc1 = x;
            ur1 = y;
        }
    }
    (c1, star_cut || us_cut, (sc1, sr1, uc1, ur1))
}

#[verifier::rlimit(60)]
fn strong_finish_in(
    c: &[char],
    orig: &[char],
    single: bool,
    removed: bool,
    plan: (bool, bool, bool, bool),
) -> (out: Vec<char>)
    ensures
        out@ == strong_finish(c@, orig@, single, removed, plan),
{
    let (sc, sr, uc, ur) = plan;
    let stars = vec!['*', '*'];
    let unders = vec!['_', '_'];
    assert(stars@ == seq!['*', '*']);
    assert(unders@ == seq!['_', '_']);
    let n = c.len();
    if sr {
        let cut = if n >= 2 {
            n - 2
        } else {
            0
        };
        let k = trim_end_white_len(&sub_vec(c, 0, cut));
        let t = sub_vec(c, 0, k);
        assert(c@.take(cut as int).take(k as int) == t@);
        return drop_trailing_dash_in(&t);
    }
    if ur {
        let (_line, off2) = last_para_range_in(c, false);
        let np = sub_vec(c, off2, n);
        assert(np@ == c@.skip(off2 as int));
        let pu = match rfind_seq_last(&np, &unders) {
            Some(x) => x,
            None => 0,
        };
        proof {
            lemma_rfind_seq_bounds(np@, unders@, np@.len() - 2);
        }
        let abs = off2 + pu;
        let head = sub_vec(c, 0, abs);
        let k = trim_end_white_len(&head);
        let t = sub_vec(&head, 0, k);
        return drop_trailing_dash_in(&t);
    }
    if sc && uc {
        let (nm, mc) = strong_texts_in(orig, single);
        let fs = find_seq_from(&nm, &stars, 0);
        let fu = find_seq_from(&mc, &unders, 0);
        let star_first = match fs {
            Some(a) => match fu {
                Some(b) => a < b,
                None => true,
            },
            None => false,
        };
        if star_first {
            let suffix = vec!['_', '_', '*', '*'];
            assert(suffix@ == seq!['_', '_', '*', '*']);
            return append_before_ws_in(c, &suffix);
        }
        let suffix = vec!['*', '*', '_', '_'];
        assert(suffix@ == seq!['*', '*', '_', '_']);
        return append_before_ws_in(c, &suffix);
    }
    if sc {
        if !removed {
            let (nm2, _mc2) = strong_texts_in(c, single);
            let wd = remove_all_in(&nm2, &stars);
            let one = vec!['*'];
            assert(one@ == seq!['*']);
            if count_in(&wd, &one) % 2 == 1 {
                let suffix = vec!['*', '*', '*'];
                assert(suffix@ == seq!['*', '*', '*']);
                return append_before_ws_in(c, &suffix);
            }
        }
        return append_before_ws_in(c, &stars);
    }
    if uc {
        if !removed {
            let (_nm2, mc2) = strong_texts_in(c, single);
            let wd = remove_all_in(&mc2, &unders);
            let one = vec!['_'];
            assert(one@ == seq!['_']);
            if count_in(&wd, &one) % 2 == 1 {
                let suffix = vec!['_', '_', '_'];
                assert(suffix@ == seq!['_', '_', '_']);
                return append_before_ws_in(c, &suffix);
            }
        }
        return append_before_ws_in(c, &unders);
    }
    sub_vec(c, 0, n)
}

pub fn fix_strong_in(c: &[char], single: bool) -> (out: Vec<char>)
    ensures
        out@ == fix_strong_spec(c@, single),
{
    let n = c.len();
    if n == 1 && (c[0] == '*' || c[0] == '_') {
        assert(c@ == seq![c[0]]);
        return Vec::new();
    }
    assert(!(c@ == seq!['*'] || c@ == seq!['_'])) by {
        if c@ == seq!['*'] || c@ == seq!['_'] {
            assert(c@.len() == 1);
        }
    }
    if within_code_in(c, n) {
        return sub_vec(c, 0, n);
    }
    match strong_plan_in(c, single) {
        None => sub_vec(c, 0, n),
        Some(plan) => {
            let (c2, removed, plan2) = strong_adjust_in(c, single, plan);
            strong_finish_in(&c2, c, single, removed, plan2)
        },
    }
}

// ---------------------------------------------------------------------------
// emphasis
// ---------------------------------------------------------------------------

/// The last paragraph sanitized for counting emphasis markers.
pub open spec fn emph_text(p: Seq<char>) -> Seq<char> {
    let inline = inline_code_ranges(p, closed_code_ranges(p));
    mask_underscores(remove_urls(strip_code(mask_markers(p, inline))))
}

/// Backward scan for the last single marker `ch` of the paragraph `p` (at
/// `off` in `c`) below `i`, outside code, math, URLs and tags.
pub open spec fn last_single_scan(
    c: Seq<char>,
    p: Seq<char>,
    off: int,
    code: Seq<(usize, usize)>,
    inline: Seq<(usize, usize)>,
    ch: char,
    us: bool,
    i: int,
) -> int
    decreases i,
{
    if i <= 0 || i > p.len() {
        -1
    } else {
        let j = i - 1;
        if !in_ranges(j, code) && !in_ranges(j, inline) && p[j] == ch && !(j > 0 && p[j - 1]
            == ch) && !(us && ignore_underscore(p, j, 1)) && !inside_span(c, off + j, false) {
            j
        } else {
            last_single_scan(c, p, off, code, inline, ch, us, i - 1)
        }
    }
}

fn last_single_in(
    c: &[char],
    p: &[char],
    off: usize,
    code: &[(usize, usize)],
    inline: &[(usize, usize)],
    ch: char,
    us: bool,
) -> (r: Option<usize>)
    requires
        off + p.len() <= c.len(),
    ensures
        match r {
            Some(x) => x < p.len() && x as int == last_single_scan(
                c@,
                p@,
                off as int,
                code@,
                inline@,
                ch,
                us,
                p@.len() as int,
            ),
            None => last_single_scan(
                c@,
                p@,
                off as int,
                code@,
                inline@,
                ch,
                us,
                p@.len() as int,
            ) == -1,
        },
{
    let mut i = p.len();
    while i > 0
        invariant
            i <= p.len(),
            off + p.len() <= c.len(),
            last_single_scan(c@, p@, off as int, code@, inline@, ch, us, i as int)
                == last_single_scan(c@, p@, off as int, code@, inline@, ch, us, p@.len() as int),
        decreases i,
    {
        let j = i - 1;
        if !is_position_in_ranges(j, code) && !is_position_in_ranges(j, inline) && p[j] == ch
            && !(j > 0 && p[j - 1] == ch) && !(us && ignore_underscore_in(p, j, 1))
            && !inside_span_in(c, off + j, false) {
            return Some(j);
        }
        i -= 1;
    }
    None
}

/// The `fixEmphasis` step: complete or remove an open `*` / `_` in the last
/// paragraph.
pub open spec fn fix_emphasis_spec(c: Seq<char>) -> Seq<char> {
    let off = last_para_range(c, false).1 as int;
    let p = c.skip(off);
    let code = closed_code_ranges(p);
    let inline = inline_code_ranges(p, code);
    let mc = emph_text(p);
    let wds = remove_all(mc, seq!['*', '*']);
    let wdu = remove_all(mc, seq!['_', '_']);
    let a_odd = count_c(wds, '*') % 2 == 1;
    let u_odd = count_c(wdu, '_') % 2 == 1;
    let ls = last_single_scan(c, p, off, code, inline, '*', false, p.len() as int);
    let lu = last_single_scan(c, p, off, code, inline, '_', true, p.len() as int);
    let sc = a_odd && !all_white(p.skip(ls + 1));
    let sr = a_odd && all_white(p.skip(ls + 1));
    let uc = u_odd && !all_white(p.skip(lu + 1));
    let ur = u_odd && all_white(p.skip(lu + 1));
    let fs = find_char(wds, '*', 0);
    let fu = find_char(wdu, '_', 0);
    if inside_unclosed_code(c) || (a_odd && ls < 0) || (u_odd && lu < 0) {
        c
    } else if sr {
        drop_trailing_dash(trim_end_white(c.take(if c.len() > 0 {
            c.len() - 1
        } else {
            0
        })))
    } else if ur {
        drop_trailing_dash(trim_end_white(c.take(off + lu)))
    } else if sc && uc {
        if fs >= 0 && (fu < 0 || fs < fu) {
            c + seq!['_', '*']
        } else {
            c + seq!['*', '_']
        }
    } else if sc {
        c + seq!['*']
    } else if uc {
        c + seq!['_']
    } else {
        c
    }
}

fn emph_text_in(p: &[char]) -> (r: Vec<char>)
    ensures
        r@ == emph_text(p@),
{
    let code = code_ranges_in(p);
    let inline = inline_code_ranges_in(p, &code);
    let masked = mask_markers_in(p, &inline);
    let no_code = strip_code_in(&masked);
    let no_urls = remove_urls_in(&no_code);
    mask_underscores_in(&no_urls)
}

#[verifier::rlimit(60)]
pub fn fix_emphasis_in(c: &[char]) -> (out: Vec<char>)
    ensures
        out@ == fix_emphasis_spec(c@),
{
    let n = c.len();
    if within_code_in(c, n) {
        return sub_vec(c, 0, n);
    }
    let (_line, off) = last_para_range_in(c, false);
    let p = sub_vec(c, off, n);
    assert(p@ == c@.skip(off as int));
    let code = code_ranges_in(&p);
    let inline = inline_code_ranges_in(&p, &code);
    let mc = emph_text_in(&p);
    let stars = vec!['*', '*'];
    let unders = vec!['_', '_'];
    assert(stars@ == seq!['*', '*']);
    assert(unders@ == seq!['_', '_']);
    let wds = remove_all_in(&mc, &stars);
    let wdu = remove_all_in(&mc, &unders);
    let one_star = vec!['*'];
    let one_us = vec!['_'];
    assert(one_star@ == seq!['*']);
    assert(one_us@ == seq!['_']);
    let a_odd = count_in(&wds, &one_star) % 2 == 1;
    let u_odd = count_in(&wdu, &one_us) % 2 == 1;
    let ls = last_single_in(c, &p, off, &code, &inline, '*', false);
    let lu = last_single_in(c, &p, off, &code, &inline, '_', true);
    if (a_odd && ls.is_none()) || (u_odd && lu.is_none()) {
        return sub_vec(c, 0, n);
    }
    let pl = p.len();
    let mut sc = false;
    let mut sr = false;
    if a_odd {
        let x = match ls {
            Some(x) => x,
            None => 0,
        };
        assert(p@.subrange(x + 1, pl as int) == p@.skip(x + 1));
        if all_white_range(&p, x + 1, pl) {
            sr = true;
        } else {
            sc = true;
        }
    }
    let mut uc = false;
    let mut ur = false;
    if u_odd {
        let x = match lu {
            Some(x) => x,
            None => 0,
        };
        assert(p@.subrange(x + 1, pl as int) == p@.skip(x + 1));
        if all_white_range(&p, x + 1, pl) {
            ur = true;
        } else {
            uc = true;
        }
    }
    if sr {
        let cut = if n > 0 {
            n - 1
        } else {
            0
        };
        let head = sub_vec(c, 0, cut);
        let k = trim_end_white_len(&head);
        let t = sub_vec(&head, 0, k);
        return drop_trailing_dash_in(&t);
    }
    if ur {
        let x = match lu {
            Some(x) => x,
            None => 0,
        };
        let head = sub_vec(c, 0, off + x);
        let k = trim_end_white_len(&head);
        let t = sub_vec(&head, 0, k);
        return drop_trailing_dash_in(&t);
    }
    let mut out = sub_vec(c, 0, n);
    assert(out@ == c@);
    if sc && uc {
        let fs = find_char_from(&wds, '*', 0);
        let fu = find_char_from(&wdu, '_', 0);
        let star_first = match fs {
            Some(a) => match fu {
                Some(b) => a < b,
                None => true,
            },
            None => false,
        };
        if star_first {
            out.push('_');
            out.push('*');
            assert(out@ == c@ + seq!['_', '*']);
        } else {
            out.push('*');
            out.push('_');
            assert(out@ == c@ + seq!['*', '_']);
        }
    } else if sc {
        out.push('*');
        assert(out@ == c@ + seq!['*']);
    } else if uc {
        out.push('_');
        assert(out@ == c@ + seq!['_']);
    }
    out
}

/// Complete or remove an open `*` / `_` emphasis marker.
pub fn fix_emphasis(content: &str) -> (r: String)
    ensures
        r@ == fix_emphasis_spec(content@),
{
    let v = chars_of(content);
    let o = fix_emphasis_in(&v);
    string_of(&o)
}

// ---------------------------------------------------------------------------
// strikethrough
// ---------------------------------------------------------------------------

/// The main strikethrough step on an odd `~~` count.
pub open spec fn close_delete(c: Seq<char>, off: int, p: Seq<char>, nu: Seq<char>) -> Seq<char> {
    let al = ldm_scan(p, Seq::empty(), '~', false, 0, false, -1);
    let r = rfind_last(nu, seq!['~', '~']);
    let rp = if r >= 0 {
        r
    } else {
        0
    };
    let after = if rp + 2 <= nu.len() {
        nu.skip(rp + 2)
    } else {
        Seq::empty()
    };
    if al < 0 || inside_span(c, off + al, false) {
        c
    } else if !all_white(after) {
        c + seq!['~', '~']
    } else if after.len() + 2 <= c.len() {
        trim_end_white(c.take(c.len() - after.len() - 2))
    } else {
        c
    }
}

/// The `fixDelete` step: complete or remove an open `~~` in the last paragraph.
pub open spec fn fix_delete_spec(c: Seq<char>) -> Seq<char> {
    let off = last_para_range(c, false).1 as int;
    let p = c.skip(off);
    let nu = remove_urls(strip_code(p));
    let odd = count_occ(nu, seq!['~', '~']) % 2 == 1;
    let wl = c.drop_last();
    let nu2 = remove_urls(strip_code(wl.skip(off)));
    let odd2 = count_occ(nu2, seq!['~', '~']) % 2 == 1;
    let r2 = rfind_last(nu2, seq!['~', '~']);
    let lp2 = if r2 >= 0 {
        r2
    } else {
        0
    };
    let single = ends_single(c, '~') && off <= wl.len();
    if inside_unclosed_code(c) {
        c
    } else if single && odd2 && (lp2 > 0 || (nu2.len() >= 2 && nu2[0] == '~' && nu2[1] == '~'))
        && lp2 + 2 < nu2.len() {
        c + seq!['~']
    } else if single && !odd2 {
        wl
    } else if odd {
        close_delete(c, off, p, nu)
    } else {
        c
    }
}

#[verifier::rlimit(40)]
fn close_delete_in(c: &[char], off: usize, p: &[char], nu: &[char]) -> (out: Vec<char>)
    requires
        off + p.len() <= c.len(),
    ensures
        out@ == close_delete(c@, off as int, p@, nu@),
{
    let n = c.len();
    let empty: Vec<(usize, usize)> = Vec::new();
    assert(empty@ == Seq::<(usize, usize)>::empty());
    let al = match last_double_in(p, &empty, '~', false) {
        Some(x) => x,
        None => {
            return sub_vec(c, 0, n);
        },
    };
    if inside_span_in(c, off + al, false) {
        return sub_vec(c, 0, n);
    }
    let tildes = vec!['~', '~'];
    assert(tildes@ == seq!['~', '~']);
    let rp = match rfind_seq_last(nu, &tildes) {
        Some(x) => x,
        None => 0,
    };
    let m = nu.len();
    let after = if rp <= m && m - rp >= 2 {
        sub_vec(nu, rp + 2, m)
    } else {
        Vec::new()
    };
    assert(rp + 2 <= m ==> after@ == nu@.skip(rp + 2));
    if !all_white_range(&after, 0, after.len()) {
        assert(after@.subrange(0, after@.len() as int) == after@);
        let mut out = sub_vec(c, 0, n);
        out.push('~');
        out.push('~');
        assert(out@ == c@ + seq!['~', '~']);
        return out;
    }
    assert(after@.subrange(0, after@.len() as int) == after@);
    if after.len() <= n && n - after.len() >= 2 {
        let head = sub_vec(c, 0, n - after.len() - 2);
        let k = trim_end_white_len(&head);
        return sub_vec(&head, 0, k);
    }
    sub_vec(c, 0, n)
}

#[verifier::rlimit(40)]
pub fn fix_delete_in(c: &[char]) -> (out: Vec<char>)
    ensures
        out@ == fix_delete_spec(c@),
{
    let n = c.len();
    if within_code_in(c, n) {
        return sub_vec(c, 0, n);
    }
    let (_line, off) = last_para_range_in(c, false);
    let p = sub_vec(c, off, n);
    assert(p@ == c@.skip(off as int));
    let no_code = strip_code_in(&p);
    let nu = remove_urls_in(&no_code);
    let tildes = vec!['~', '~'];
    assert(tildes@ == seq!['~', '~']);
    let odd = count_in(&nu, &tildes) % 2 == 1;
    if ends_single_in(c, '~') && off <= n - 1 {
        let wl = sub_vec(c, 0, n - 1);
        assert(wl@ == c@.drop_last());
        let wp = sub_vec(&wl, off, n - 1);
        assert(wp@ == wl@.skip(off as int));
        let nc2 = strip_code_in(&wp);
        let nu2 = remove_urls_in(&nc2);
        let odd2 = count_in(&nu2, &tildes) % 2 == 1;
        if odd2 {
            let lp2 = match rfind_seq_last(&nu2, &tildes) {
                Some(x) => x,
                None => 0,
            };
            let starts = nu2.len() >= 2 && nu2[0] == '~' && nu2[1] == '~';
            if (lp2 > 0 || starts) && lp2 < nu2.len() && nu2.len() - lp2 > 2 {
                let mut out = sub_vec(c, 0, n);
                out.push('~');
                assert(out@ == c@ + seq!['~']);
                return out;
            }
        } else {
            return wl;
        }
    }
    if odd {
        return close_delete_in(c, off, &p, &nu);
    }
    sub_vec(c, 0, n)
}

/// Complete or remove an open `~~` strikethrough marker.
pub fn fix_delete(content: &str) -> (r: String)
    ensures
        r@ == fix_delete_spec(content@),
{
    let v = chars_of(content);
    let o = fix_delete_in(&v);
    string_of(&o)
}

/// Complete or remove an open `**` / `__` strong marker.
pub fn fix_strong(content: &str, options: &PreprocessOptions) -> (r: String)
    ensures
        r@ == fix_strong_spec(content@, options.single_dollar_text_math),
{
    let v = chars_of(content);
    let o = fix_strong_in(&v, options.single_dollar_text_math);
    string_of(&o)
}

} // verus!
