//! Byte offsets into UTF-8 text.
//!
//! The public scanners of `scan` take and return byte offsets, as `str`
//! indexing does. Two views connect them to the character model of `text`:
//! the byte view of a text (its UTF-8 bytes, each read as the character of the
//! same value) and the byte offset of a character index.
use vstd::prelude::*;
use vstd::string::StringSliceAdditionalSpecFns;
use vstd::utf8::{encode_scalar, encode_utf8, char_is_scalar};

verus! {

/// A byte read as the character of the same value.
pub open spec fn byte_char(b: u8) -> char {
    b as char
}

/// The UTF-8 bytes of `s`, each read as the character of the same value.
///
/// Every ASCII byte reads as itself, and no byte of a multi-byte character
/// reads as an ASCII character, so a scan for ASCII markers over this view
/// finds them at their byte offsets.
pub open spec fn byte_view(s: &str) -> Seq<char> {
    s.spec_bytes().map_values(|b: u8| byte_char(b))
}

/// The byte view of `s` as a vector.
pub fn byte_chars(s: &str) -> (v: Vec<char>)
    ensures
        v@ == byte_view(s),
{
    let b = s.as_bytes();
    let mut v: Vec<char> = Vec::new();
    let mut i: usize = 0;
    while i < b.len()
        invariant
            i <= b.len(),
            b@ == s.spec_bytes(),
            v@ == b@.take(i as int).map_values(|x: u8| byte_char(x)),
        decreases b.len() - i,
    {
        let c = b[i] as char;
        v.push(c);
        assert(b@.take(i + 1) == b@.take(i as int).push(b@[i as int]));
        i += 1;
    }
    assert(b@.take(b.len() as int) == b@);
    v
}

/// Byte length of the UTF-8 encoding of `s`.
pub open spec fn utf8_len(s: Seq<char>) -> int {
    encode_utf8(s).len() as int
}

/// Byte offset of character index `k` in `s`: the UTF-8 length of its first
/// `k` characters.
pub open spec fn byte_offset(s: Seq<char>, k: int) -> int {
    utf8_len(s.take(k))
}

/// Encoding one more character appends its scalar encoding.
pub proof fn lemma_encode_push(a: Seq<char>, c: char)
    ensures
        encode_utf8(a.push(c)) == encode_utf8(a) + encode_scalar(c as u32),
    decreases a.len(),
{
    if a.len() == 0 {
        assert(a.push(c).drop_first() == Seq::<char>::empty());
        assert(encode_utf8(a.push(c)) == encode_scalar(c as u32) + encode_utf8(Seq::<char>::empty()));
        assert(encode_utf8(a) == Seq::<u8>::empty());
        assert(encode_scalar(c as u32) + Seq::<u8>::empty() == encode_scalar(c as u32));
        assert(Seq::<u8>::empty() + encode_scalar(c as u32) == encode_scalar(c as u32));
    } else {
        lemma_encode_push(a.drop_first(), c);
        assert(a.push(c).drop_first() == a.drop_first().push(c));
        assert(a.push(c)[0] == a[0]);
        let h = encode_scalar(a[0] as u32);
        let t = encode_utf8(a.drop_first());
        let e = encode_scalar(c as u32);
        assert(h + (t + e) == (h + t) + e);
    }
}

/// A character encodes to between one and four bytes.
pub proof fn lemma_scalar_len(c: char)
    ensures
        1 <= encode_scalar(c as u32).len() <= 4,
{
}

/// The byte offset grows by the width of each character.
pub proof fn lemma_byte_offset_step(s: Seq<char>, k: int)
    requires
        0 <= k < s.len(),
    ensures
        byte_offset(s, k + 1) == byte_offset(s, k) + encode_scalar(s[k] as u32).len(),
        byte_offset(s, k) < byte_offset(s, k + 1),
{
    assert(s.take(k + 1) == s.take(k).push(s[k]));
    lemma_encode_push(s.take(k), s[k]);
    lemma_scalar_len(s[k]);
}

/// Byte offsets grow strictly with the character index.
pub proof fn lemma_byte_offset_mono(s: Seq<char>, i: int, j: int)
    requires
        0 <= i < j <= s.len(),
    ensures
        byte_offset(s, i) < byte_offset(s, j),
    decreases j - i,
{
    lemma_byte_offset_step(s, j - 1);
    if i < j - 1 {
        lemma_byte_offset_mono(s, i, j - 1);
    }
}

/// The offset of the end is the byte length of the whole text.
pub proof fn lemma_byte_offset_end(s: Seq<char>)
    ensures
        byte_offset(s, s.len() as int) == utf8_len(s),
        byte_offset(s, 0) == 0,
{
    assert(s.take(s.len() as int) == s);
    assert(s.take(0) == Seq::<char>::empty());
}

/// UTF-8 width of one character.
pub fn utf8_width(c: char) -> (n: usize)
    ensures
        n == encode_scalar(c as u32).len(),
        1 <= n <= 4,
{
    proof {
        char_is_scalar(c);
    }
    let u = c as u32;
    if u <= 0x7f {
        1
    } else if u <= 0x7ff {
        2
    } else if u <= 0xffff {
        3
    } else {
        4
    }
}

/// `b` is a character boundary of `s`: the byte offset of some character index.
pub open spec fn is_boundary(s: Seq<char>, b: int) -> bool {
    exists|k: int| 0 <= k <= s.len() && byte_offset(s, k) == b
}

/// The character index whose byte offset is `b`, or -1 where `b` is no
/// character boundary of `s`.
pub open spec fn char_index_at(s: Seq<char>, b: int) -> int {
    if is_boundary(s, b) {
        choose|k: int| 0 <= k <= s.len() && byte_offset(s, k) == b
    } else {
        -1
    }
}

/// At most one character index has a given byte offset.
pub proof fn lemma_char_index_at(s: Seq<char>, k: int)
    requires
        0 <= k <= s.len(),
    ensures
        char_index_at(s, byte_offset(s, k)) == k,
{
    let b = byte_offset(s, k);
    assert(is_boundary(s, b));
    let j = choose|j: int| 0 <= j <= s.len() && byte_offset(s, j) == b;
    if j < k {
        lemma_byte_offset_mono(s, j, k);
    } else if k < j {
        lemma_byte_offset_mono(s, k, j);
    }
}

/// The character index at byte offset `b`, if `b` is a character boundary.
pub fn char_index_of(s: &[char], b: usize) -> (r: Option<usize>)
    ensures
        match r {
            Some(k) => k as int == char_index_at(s@, b as int) && k <= s.len(),
            None => char_index_at(s@, b as int) == -1,
        },
{
    let n = s.len();
    let mut k: usize = 0;
    let mut off: usize = 0;
    proof {
        lemma_byte_offset_end(s@);
    }
    loop
        invariant
            k <= n == s.len(),
            off as int == byte_offset(s@, k as int),
            off <= b,
            forall|j: int| 0 <= j < k ==> byte_offset(s@, j) < b,
        decreases n - k,
    {
        if off == b {
            proof {
                lemma_char_index_at(s@, k as int);
            }
            return Some(k);
        }
        if k == n {
            proof {
                assert forall|j: int| 0 <= j <= s.len() implies byte_offset(s@, j) != b by {
                    if j < k {
                    }
                }
            }
            return None;
        }
        let w = utf8_width(s[k]);
        proof {
            lemma_byte_offset_step(s@, k as int);
        }
        if w > b - off {
            proof {
                assert forall|j: int| 0 <= j <= s.len() implies byte_offset(s@, j) != b by {
                    if j > k + 1 {
                        lemma_byte_offset_mono(s@, k + 1, j);
                    }
                }
            }
            return None;
        }
        off = off + w;
        k = k + 1;
    }
}

/// Byte offset of character index `k`, for a text whose bytes fit in memory.
pub fn byte_offset_of(s: &str, k: usize) -> (r: usize)
    requires
        k <= s@.len(),
    ensures
        r as int == byte_offset(s@, k as int),
{
    let p = s.substring_char(0, k);
    assert(p@ == s@.take(k as int));
    let b = p.as_bytes();
    b.len()
}

} // verus!
