//! Character-level text model shared by the scanners and the fixers.
//!
//! Every text is reasoned about as its sequence of characters (`s@`); the
//! positions used inside this model are character indices into that sequence.
//! The public scanners on `&str` convert them to byte offsets (see `bytes`).
use vstd::prelude::*;

verus! {

/// ASCII whitespace: space, tab, newline, CR, FF, VT.
pub open spec fn is_js_ws(c: char) -> bool {
    c == ' ' || c == '\t' || c == '\n' || c == '\r' || c == '\u{000c}' || c == '\u{000b}'
}

/// The Unicode `White_Space` property (what `char::is_whitespace` tests).
pub open spec fn is_white(c: char) -> bool {
    ('\u{0009}' <= c && c <= '\u{000d}') || c == ' ' || c == '\u{0085}' || c == '\u{00a0}'
        || c == '\u{1680}' || ('\u{2000}' <= c && c <= '\u{200a}') || c == '\u{2028}'
        || c == '\u{2029}' || c == '\u{202f}' || c == '\u{205f}' || c == '\u{3000}'
}

/// Space or tab.
pub open spec fn is_blank(c: char) -> bool {
    c == ' ' || c == '\t'
}

/// Every character of `s` is Unicode whitespace (`s.trim().is_empty()`).
pub open spec fn all_white(s: Seq<char>) -> bool {
    forall|i: int| 0 <= i < s.len() ==> is_white(#[trigger] s[i])
}

/// Every character of `s` is a ASCII whitespace character.
pub open spec fn all_js_ws(s: Seq<char>) -> bool {
    forall|i: int| 0 <= i < s.len() ==> is_js_ws(#[trigger] s[i])
}

/// `s` with trailing Unicode whitespace removed (`str::trim_end`).
pub open spec fn trim_end_white(s: Seq<char>) -> Seq<char>
    decreases s.len(),
{
    if s.len() > 0 && is_white(s.last()) {
        trim_end_white(s.drop_last())
    } else {
        s
    }
}

/// `s` with leading Unicode whitespace removed (`str::trim_start`).
pub open spec fn trim_start_white(s: Seq<char>) -> Seq<char>
    decreases s.len(),
{
    if s.len() > 0 && is_white(s[0]) {
        trim_start_white(s.drop_first())
    } else {
        s
    }
}

/// `s` with Unicode whitespace removed at both ends (`str::trim`).
pub open spec fn trim_white(s: Seq<char>) -> Seq<char> {
    trim_start_white(trim_end_white(s))
}

/// `s` with trailing ASCII whitespace removed.
pub open spec fn trim_end_js(s: Seq<char>) -> Seq<char>
    decreases s.len(),
{
    if s.len() > 0 && is_js_ws(s.last()) {
        trim_end_js(s.drop_last())
    } else {
        s
    }
}

/// `s` with leading ASCII whitespace removed.
pub open spec fn trim_start_js(s: Seq<char>) -> Seq<char>
    decreases s.len(),
{
    if s.len() > 0 && is_js_ws(s[0]) {
        trim_start_js(s.drop_first())
    } else {
        s
    }
}

/// `s` with trailing spaces and tabs removed.
pub open spec fn trim_end_blank(s: Seq<char>) -> Seq<char>
    decreases s.len(),
{
    if s.len() > 0 && is_blank(s.last()) {
        trim_end_blank(s.drop_last())
    } else {
        s
    }
}

/// Index of the first `c` in `s` at or after `i`, or -1.
pub open spec fn find_char(s: Seq<char>, c: char, i: int) -> int
    decreases s.len() - i,
{
    if i < 0 || i >= s.len() {
        -1
    } else if s[i] == c {
        i
    } else {
        find_char(s, c, i + 1)
    }
}

/// Index of the last `c` in `s` strictly before `e`, or -1.
pub open spec fn rfind_char(s: Seq<char>, c: char, e: int) -> int
    decreases e,
{
    if e <= 0 || e > s.len() {
        -1
    } else if s[e - 1] == c {
        e - 1
    } else {
        rfind_char(s, c, e - 1)
    }
}

/// `pat` occurs in `s` starting at `i`.
pub open spec fn matches_at(s: Seq<char>, i: int, pat: Seq<char>) -> bool {
    0 <= i && i + pat.len() <= s.len() && s.subrange(i, i + pat.len()) == pat
}

/// Index of the first occurrence of `pat` in `s` at or after `i`, or -1.
pub open spec fn find_seq(s: Seq<char>, pat: Seq<char>, i: int) -> int
    decreases s.len() + 1 - i,
{
    if i < 0 || i > s.len() || i + pat.len() > s.len() {
        -1
    } else if matches_at(s, i, pat) {
        i
    } else {
        find_seq(s, pat, i + 1)
    }
}

/// Index of the last occurrence of `pat` in `s` starting at or before `i`, or -1.
pub open spec fn rfind_seq(s: Seq<char>, pat: Seq<char>, i: int) -> int
    decreases i + 1,
{
    if i < 0 {
        -1
    } else if matches_at(s, i, pat) {
        i
    } else {
        rfind_seq(s, pat, i - 1)
    }
}

/// Last occurrence of `pat` in `s`, or -1 (`str::rfind`).
pub open spec fn rfind_last(s: Seq<char>, pat: Seq<char>) -> int {
    rfind_seq(s, pat, s.len() - pat.len())
}

pub proof fn lemma_find_char_bounds(s: Seq<char>, c: char, i: int)
    ensures
        find_char(s, c, i) == -1 || (i <= find_char(s, c, i) < s.len() && s[find_char(s, c, i)]
            == c),
        find_char(s, c, i) != -1 ==> forall|k: int|
            i <= k < find_char(s, c, i) ==> s[k] != c,
        find_char(s, c, i) == -1 && 0 <= i ==> forall|k: int| i <= k < s.len() ==> s[k] != c,
    decreases s.len() - i,
{
    if !(i < 0 || i >= s.len()) && s[i] != c {
        lemma_find_char_bounds(s, c, i + 1);
    }
}

pub proof fn lemma_rfind_char_bounds(s: Seq<char>, c: char, e: int)
    ensures
        rfind_char(s, c, e) == -1 || (0 <= rfind_char(s, c, e) < e && s[rfind_char(s, c, e)]
            == c),
        rfind_char(s, c, e) != -1 ==> forall|k: int|
            rfind_char(s, c, e) < k < e ==> s[k] != c,
        rfind_char(s, c, e) == -1 && e <= s.len() ==> forall|k: int| 0 <= k < e ==> s[k] != c,
    decreases e,
{
    if !(e <= 0 || e > s.len()) && s[e - 1] != c {
        lemma_rfind_char_bounds(s, c, e - 1);
    }
}

pub proof fn lemma_find_seq_bounds(s: Seq<char>, pat: Seq<char>, i: int)
    ensures
        find_seq(s, pat, i) == -1 || (i <= find_seq(s, pat, i) && find_seq(s, pat, i) + pat.len()
            <= s.len() && matches_at(s, find_seq(s, pat, i), pat)),
    decreases s.len() + 1 - i,
{
    if !(i < 0 || i > s.len() || i + pat.len() > s.len()) && !matches_at(s, i, pat) {
        lemma_find_seq_bounds(s, pat, i + 1);
    }
}

pub proof fn lemma_rfind_seq_bounds(s: Seq<char>, pat: Seq<char>, i: int)
    ensures
        rfind_seq(s, pat, i) == -1 || (0 <= rfind_seq(s, pat, i) <= i && matches_at(
            s,
            rfind_seq(s, pat, i),
            pat,
        )),
    decreases i + 1,
{
    if i >= 0 && !matches_at(s, i, pat) {
        lemma_rfind_seq_bounds(s, pat, i - 1);
    }
}

/// Decides `char::is_whitespace`.
pub fn is_white_char(c: char) -> (b: bool)
    ensures
        b == is_white(c),
{
    ('\u{0009}' <= c && c <= '\u{000d}') || c == ' ' || c == '\u{0085}' || c == '\u{00a0}'
        || c == '\u{1680}' || ('\u{2000}' <= c && c <= '\u{200a}') || c == '\u{2028}'
        || c == '\u{2029}' || c == '\u{202f}' || c == '\u{205f}' || c == '\u{3000}'
}

/// Decides ASCII whitespace membership.
pub fn is_js_ws_char(c: char) -> (b: bool)
    ensures
        b == is_js_ws(c),
{
    c == ' ' || c == '\t' || c == '\n' || c == '\r' || c == '\u{000c}' || c == '\u{000b}'
}

/// Result of `char::is_alphanumeric` (Unicode `Alphabetic` or `Numeric`).
pub uninterp spec fn char_is_alphanumeric(c: char) -> bool;

/// ASCII letters and digits.
pub open spec fn is_ascii_alnum(c: char) -> bool {
    ('a' <= c && c <= 'z') || ('A' <= c && c <= 'Z') || ('0' <= c && c <= '9')
}

/// `char::is_alphanumeric`. Claims: the result is the named property of `c`;
/// for ASCII characters it holds exactly of letters and digits. What it is for
/// other characters (the Unicode tables) is left unsaid.
#[verifier::external_body]
pub(crate) fn is_alphanumeric(c: char) -> (b: bool)
    ensures
        b == char_is_alphanumeric(c),
        c <= '\u{007f}' ==> (b <==> is_ascii_alnum(c)),
{
    c.is_alphanumeric()
}

/// Appends one character to a `String` (`String::push`).
/// Claims: the string's characters afterwards are the old ones followed by `c`.
#[verifier::external_body]
pub(crate) fn push_char(s: &mut String, c: char)
    ensures
        final(s)@ == old(s)@.push(c),
{
    s.push(c)
}

/// The characters of `s`, in order.
pub fn chars_of(s: &str) -> (v: Vec<char>)
    ensures
        v@ == s@,
{
    let mut v: Vec<char> = Vec::new();
    for c in it: s.chars()
        invariant
            v@ == it.seq().take(it.index() as int),
    {
        v.push(c);
    }
    v
}

/// A `String` holding exactly the characters of `v`.
pub fn string_of(v: &[char]) -> (s: String)
    ensures
        s@ == v@,
{
    let mut s = String::new();
    let mut i: usize = 0;
    while i < v.len()
        invariant
            i <= v.len(),
            s@ == v@.take(i as int),
        decreases v.len() - i,
    {
        push_char(&mut s, v[i]);
        assert(v@.take(i + 1) == v@.take(i as int).push(v@[i as int]));
        i += 1;
    }
    assert(v@.take(v.len() as int) == v@);
    s
}

/// Appends `s[a..b]` to `out`.
pub fn extend_range(out: &mut Vec<char>, s: &[char], a: usize, b: usize)
    requires
        a <= b <= s.len(),
    ensures
        final(out)@ == old(out)@ + s@.subrange(a as int, b as int),
{
    let mut i = a;
    while i < b
        invariant
            a <= i <= b <= s.len(),
            out@ == old(out)@ + s@.subrange(a as int, i as int),
        decreases b - i,
    {
        out.push(s[i]);
        assert(s@.subrange(a as int, i + 1) == s@.subrange(a as int, i as int).push(s@[i as int]));
        i += 1;
    }
}

/// Appends all of `s` to `out`.
pub fn extend_all(out: &mut Vec<char>, s: &[char])
    ensures
        final(out)@ == old(out)@ + s@,
{
    extend_range(out, s, 0, s.len());
    assert(s@.subrange(0, s@.len() as int) == s@);
}

/// A fresh vector holding `s[a..b]`.
pub fn sub_vec(s: &[char], a: usize, b: usize) -> (v: Vec<char>)
    requires
        a <= b <= s.len(),
    ensures
        v@ == s@.subrange(a as int, b as int),
{
    let mut v: Vec<char> = Vec::new();
    extend_range(&mut v, s, a, b);
    v
}

/// Length of `s` once trailing Unicode whitespace is removed.
pub fn trim_end_white_len(s: &[char]) -> (n: usize)
    ensures
        n <= s.len(),
        s@.take(n as int) == trim_end_white(s@),
{
    let mut n = s.len();
    assert(s@.take(n as int) == s@);
    while n > 0 && is_white_char(s[n - 1])
        invariant
            n <= s.len(),
            trim_end_white(s@.take(n as int)) == trim_end_white(s@),
        decreases n,
    {
        assert(s@.take(n as int).drop_last() == s@.take(n - 1));
        n -= 1;
    }
    n
}

/// Number of leading Unicode whitespace characters of `s`.
pub fn trim_start_white_len(s: &[char]) -> (n: usize)
    ensures
        n <= s.len(),
        s@.skip(n as int) == trim_start_white(s@),
{
    let mut n: usize = 0;
    assert(s@.skip(0) == s@);
    while n < s.len() && is_white_char(s[n])
        invariant
            n <= s.len(),
            trim_start_white(s@.skip(n as int)) == trim_start_white(s@),
        decreases s.len() - n,
    {
        assert(s@.skip(n as int).drop_first() == s@.skip(n + 1));
        n += 1;
    }
    n
}

/// Length of `s` once trailing ASCII whitespace is removed.
pub fn trim_end_js_len(s: &[char]) -> (n: usize)
    ensures
        n <= s.len(),
        s@.take(n as int) == trim_end_js(s@),
{
    let mut n = s.len();
    assert(s@.take(n as int) == s@);
    while n > 0 && is_js_ws_char(s[n - 1])
        invariant
            n <= s.len(),
            trim_end_js(s@.take(n as int)) == trim_end_js(s@),
        decreases n,
    {
        assert(s@.take(n as int).drop_last() == s@.take(n - 1));
        n -= 1;
    }
    n
}

/// Number of leading ASCII whitespace characters of `s`.
pub fn trim_start_js_len(s: &[char]) -> (n: usize)
    ensures
        n <= s.len(),
        s@.skip(n as int) == trim_start_js(s@),
{
    let mut n: usize = 0;
    assert(s@.skip(0) == s@);
    while n < s.len() && is_js_ws_char(s[n])
        invariant
            n <= s.len(),
            trim_start_js(s@.skip(n as int)) == trim_start_js(s@),
        decreases s.len() - n,
    {
        assert(s@.skip(n as int).drop_first() == s@.skip(n + 1));
        n += 1;
    }
    n
}

/// Length of `s` once trailing spaces and tabs are removed.
pub fn trim_end_blank_len(s: &[char]) -> (n: usize)
    ensures
        n <= s.len(),
        s@.take(n as int) == trim_end_blank(s@),
{
    let mut n = s.len();
    assert(s@.take(n as int) == s@);
    while n > 0 && (s[n - 1] == ' ' || s[n - 1] == '\t')
        invariant
            n <= s.len(),
            trim_end_blank(s@.take(n as int)) == trim_end_blank(s@),
        decreases n,
    {
        assert(s@.take(n as int).drop_last() == s@.take(n - 1));
        n -= 1;
    }
    n
}

/// Whether `s[a..b]` is all Unicode whitespace.
pub fn all_white_range(s: &[char], a: usize, b: usize) -> (r: bool)
    requires
        a <= b <= s.len(),
    ensures
        r == all_white(s@.subrange(a as int, b as int)),
{
    let mut i = a;
    while i < b
        invariant
            a <= i <= b <= s.len(),
            all_white(s@.subrange(a as int, i as int)),
        decreases b - i,
    {
        if !is_white_char(s[i]) {
            assert(s@.subrange(a as int, b as int)[i - a] == s@[i as int]);
            return false;
        }
        assert forall|k: int| 0 <= k < i + 1 - a implies is_white(
            #[trigger] s@.subrange(a as int, i + 1)[k],
        ) by {
            if k < i - a {
                assert(s@.subrange(a as int, i + 1)[k] == s@.subrange(a as int, i as int)[k]);
            }
        }
        i += 1;
    }
    true
}

/// First index of `c` in `s` at or after `i`.
pub fn find_char_from(s: &[char], c: char, i: usize) -> (r: Option<usize>)
    ensures
        match r {
            Some(j) => j as int == find_char(s@, c, i as int),
            None => find_char(s@, c, i as int) == -1,
        },
{
    let mut j = i;
    while j < s.len()
        invariant
            i <= j,
            find_char(s@, c, i as int) == find_char(s@, c, j as int),
        decreases s.len() - j,
    {
        if s[j] == c {
            return Some(j);
        }
        j += 1;
    }
    None
}

/// Last index of `c` in `s` strictly before `e`.
pub fn rfind_char_before(s: &[char], c: char, e: usize) -> (r: Option<usize>)
    requires
        e <= s.len(),
    ensures
        match r {
            Some(j) => j as int == rfind_char(s@, c, e as int),
            None => rfind_char(s@, c, e as int) == -1,
        },
{
    let mut j = e;
    while j > 0
        invariant
            j <= e <= s.len(),
            rfind_char(s@, c, e as int) == rfind_char(s@, c, j as int),
        decreases j,
    {
        if s[j - 1] == c {
            return Some(j - 1);
        }
        j -= 1;
    }
    None
}

/// Whether `pat` occurs in `s` at `i`.
pub fn matches_at_exec(s: &[char], i: usize, pat: &[char]) -> (r: bool)
    ensures
        r == matches_at(s@, i as int, pat@),
{
    if i > s.len() || pat.len() > s.len() - i {
        return false;
    }
    let mut k: usize = 0;
    while k < pat.len()
        invariant
            i + pat.len() <= s.len(),
            k <= pat.len(),
            forall|m: int| 0 <= m < k ==> s@[i + m] == pat@[m],
        decreases pat.len() - k,
    {
        if s[i + k] != pat[k] {
            assert(s@.subrange(i as int, i + pat.len())[k as int] != pat@[k as int]);
            return false;
        }
        k += 1;
    }
    assert(s@.subrange(i as int, i + pat.len()) =~= pat@);
    true
}

/// First occurrence of `pat` in `s` at or after `i`.
pub fn find_seq_from(s: &[char], pat: &[char], i: usize) -> (r: Option<usize>)
    ensures
        match r {
            Some(j) => j as int == find_seq(s@, pat@, i as int),
            None => find_seq(s@, pat@, i as int) == -1,
        },
{
    if pat.len() > s.len() {
        return None;
    }
    let last = s.len() - pat.len();
    let mut j = i;
    while j <= last
        invariant
            i <= j,
            last + pat.len() == s.len(),
            find_seq(s@, pat@, i as int) == find_seq(s@, pat@, j as int),
        decreases last + 1 - j,
    {
        if matches_at_exec(s, j, pat) {
            return Some(j);
        }
        if j == last {
            assert(find_seq(s@, pat@, j + 1) == -1);
            return None;
        }
        j += 1;
    }
    None
}

/// Last occurrence of `pat` in `s`.
pub fn rfind_seq_last(s: &[char], pat: &[char]) -> (r: Option<usize>)
    ensures
        match r {
            Some(j) => j as int == rfind_last(s@, pat@),
            None => rfind_last(s@, pat@) == -1,
        },
{
    if pat.len() > s.len() {
        return None;
    }
    let mut j = s.len() - pat.len();
    loop
        invariant
            j + pat.len() <= s.len(),
            rfind_last(s@, pat@) == rfind_seq(s@, pat@, j as int),
        decreases j,
    {
        if matches_at_exec(s, j, pat) {
            return Some(j);
        }
        if j == 0 {
            assert(rfind_seq(s@, pat@, -1) == -1);
            return None;
        }
        j -= 1;
    }
}


/// `s` trimmed of Unicode whitespace at both ends, as a fresh vector.
pub fn trim_white_vec(s: &[char]) -> (t: Vec<char>)
    ensures
        t@ == trim_white(s@),
{
    let b = trim_end_white_len(s);
    let head = sub_vec(s, 0, b);
    let a = trim_start_white_len(&head);
    assert(head@.skip(a as int) == head@.subrange(a as int, b as int));
    sub_vec(&head, a, b)
}

/// Number of occurrences of `c` in `s`.
pub open spec fn count_char(s: Seq<char>, c: char) -> nat
    decreases s.len(),
{
    if s.len() == 0 {
        0
    } else {
        count_char(s.drop_last(), c) + if s.last() == c {
            1nat
        } else {
            0nat
        }
    }
}

pub fn count_char_in(s: &[char], c: char) -> (n: usize)
    ensures
        n == count_char(s@, c),
{
    let mut n: usize = 0;
    let mut i: usize = 0;
    while i < s.len()
        invariant
            i <= s.len(),
            n == count_char(s@.take(i as int), c),
            n <= i,
        decreases s.len() - i,
    {
        assert(s@.take(i + 1).drop_last() == s@.take(i as int));
        if s[i] == c {
            n += 1;
        }
        i += 1;
    }
    assert(s@.take(s.len() as int) == s@);
    n
}

/// `s` with trailing occurrences of `c` removed.
pub open spec fn trim_end_c(s: Seq<char>, c: char) -> Seq<char>
    decreases s.len(),
{
    if s.len() > 0 && s.last() == c {
        trim_end_c(s.drop_last(), c)
    } else {
        s
    }
}

/// `s` with leading occurrences of `c` removed.
pub open spec fn trim_start_c(s: Seq<char>, c: char) -> Seq<char>
    decreases s.len(),
{
    if s.len() > 0 && s[0] == c {
        trim_start_c(s.drop_first(), c)
    } else {
        s
    }
}

pub fn trim_c_vec(s: &[char], c: char) -> (t: Vec<char>)
    ensures
        t@ == trim_start_c(trim_end_c(s@, c), c),
{
    let mut b = s.len();
    assert(s@.take(b as int) == s@);
    while b > 0 && s[b - 1] == c
        invariant
            b <= s.len(),
            trim_end_c(s@.take(b as int), c) == trim_end_c(s@, c),
        decreases b,
    {
        assert(s@.take(b as int).drop_last() == s@.take(b - 1));
        b -= 1;
    }
    let head = sub_vec(s, 0, b);
    let mut a: usize = 0;
    assert(head@.skip(0) == head@);
    while a < head.len() && head[a] == c
        invariant
            a <= head.len(),
            trim_start_c(head@.skip(a as int), c) == trim_start_c(head@, c),
        decreases head.len() - a,
    {
        assert(head@.skip(a as int).drop_first() == head@.skip(a + 1));
        a += 1;
    }
    assert(head@.skip(a as int) == head@.subrange(a as int, head@.len() as int));
    let n = head.len();
    sub_vec(&head, a, n)
}


pub proof fn lemma_trim_end_white_prefix(s: Seq<char>)
    ensures
        trim_end_white(s).len() <= s.len(),
        trim_end_white(s) == s.take(trim_end_white(s).len() as int),
    decreases s.len(),
{
    if s.len() > 0 && is_white(s.last()) {
        lemma_trim_end_white_prefix(s.drop_last());
        assert(s.drop_last().take(trim_end_white(s).len() as int) == s.take(
            trim_end_white(s).len() as int,
        ));
    } else {
        assert(s.take(s.len() as int) == s);
    }
}

pub proof fn lemma_trim_start_white_suffix(s: Seq<char>)
    ensures
        trim_start_white(s).len() <= s.len(),
        trim_start_white(s) == s.skip(s.len() - trim_start_white(s).len()),
    decreases s.len(),
{
    if s.len() > 0 && is_white(s[0]) {
        lemma_trim_start_white_suffix(s.drop_first());
        assert(s.drop_first().skip(s.len() - 1 - trim_start_white(s).len()) == s.skip(
            s.len() - trim_start_white(s).len(),
        ));
    } else {
        assert(s.skip(0) == s);
    }
}

/// `trim_white(s)` is a contiguous piece of `s`.
pub proof fn lemma_trim_white_sub(s: Seq<char>) -> (j: int)
    ensures
        0 <= j,
        j + trim_white(s).len() <= s.len(),
        trim_white(s) == s.subrange(j, j + trim_white(s).len()),
{
    lemma_trim_end_white_prefix(s);
    let e = trim_end_white(s);
    lemma_trim_start_white_suffix(e);
    let t = trim_white(s);
    let j = e.len() - t.len();
    assert(t == s.subrange(j, j + t.len()));
    j
}

/// Character-wise equality.
pub fn chars_eq(a: &[char], b: &[char]) -> (r: bool)
    ensures
        r == (a@ == b@),
{
    if a.len() != b.len() {
        return false;
    }
    let mut k: usize = 0;
    while k < a.len()
        invariant
            a.len() == b.len(),
            k <= a.len(),
            forall|m: int| 0 <= m < k ==> a@[m] == b@[m],
        decreases a.len() - k,
    {
        if a[k] != b[k] {
            return false;
        }
        k += 1;
    }
    assert(a@ =~= b@);
    true
}


} // verus!
