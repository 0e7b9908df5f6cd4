//! Byte lengths of UTF-8 encoded text, and byte offsets of character
//! positions.

use vstd::prelude::*;
use vstd::utf8::{encode_scalar, encode_utf8};

verus! {

/// Number of bytes in the UTF-8 encoding of `c`.
pub open spec fn char_width(c: char) -> nat {
    if (c as u32) <= 0x7f {
        1
    } else if (c as u32) <= 0x7ff {
        2
    } else if (c as u32) <= 0xffff {
        3
    } else {
        4
    }
}

/// Number of bytes in the UTF-8 encoding of `s`.
pub open spec fn byte_len(s: Seq<char>) -> nat
    decreases s.len(),
{
    if s.len() == 0 {
        0
    } else {
        byte_len(s.drop_last()) + char_width(s.last())
    }
}

/// Byte offset of the character position `k` in `s`.
pub open spec fn byte_offset(s: Seq<char>, k: int) -> nat {
    byte_len(s.take(k))
}

/// `cursor` is the byte offset of some character position of `s`.
pub open spec fn is_boundary(s: Seq<char>, cursor: int) -> bool {
    exists|k: int| 0 <= k <= s.len() && byte_offset(s, k) == cursor
}

pub fn char_width_exec(c: char) -> (w: usize)
    ensures
        w == char_width(c),
{
    let u = c as u32;
    if u <= 0x7f {
        1
    } else if u <= 0x7ff {
        2
    } else if u <= 0xffff {
        3
    } else {
        4
    }
}

pub proof fn lemma_byte_len_front(s: Seq<char>)
    requires
        s.len() > 0,
    ensures
        byte_len(s) == char_width(s[0]) + byte_len(s.drop_first()),
    decreases s.len(),
{
    if s.len() > 1 {
        lemma_byte_len_front(s.drop_last());
        assert(s.drop_last().drop_first() == s.drop_first().drop_last());
        assert(s.drop_last()[0] == s[0]);
        assert(s.drop_first().last() == s.last());
        assert(byte_len(s) == byte_len(s.drop_last()) + char_width(s.last()));
        assert(byte_len(s.drop_first()) == byte_len(s.drop_first().drop_last()) + char_width(
            s.drop_first().last(),
        ));
    } else {
        assert(byte_len(s) == byte_len(s.drop_last()) + char_width(s.last()));
        assert(s.drop_last().len() == 0);
        assert(s.drop_first().len() == 0);
    }
}

/// `byte_len` is the length of the UTF-8 encoding.
pub proof fn lemma_byte_len_encode(s: Seq<char>)
    ensures
        encode_utf8(s).len() == byte_len(s),
    decreases s.len(),
{
    if s.len() > 0 {
        lemma_byte_len_encode(s.drop_first());
        lemma_byte_len_front(s);
        let u = s[0] as u32;
        assert(vstd::utf8::is_scalar(u)) by {
            vstd::utf8::char_is_scalar(s[0]);
        }
        assert(encode_scalar(u).len() == char_width(s[0]));
    }
}

/// The byte length of a string slice is `byte_len` of its characters.
pub proof fn lemma_str_len(s: &str)
    ensures
        byte_len(s@) <= usize::MAX ==> s.len() == byte_len(s@),
{
    lemma_byte_len_encode(s@);
}

pub proof fn lemma_byte_len_push(s: Seq<char>, c: char)
    ensures
        byte_len(s.push(c)) == byte_len(s) + char_width(c),
{
    assert(s.push(c).drop_last() == s);
}

pub proof fn lemma_byte_offset_step(s: Seq<char>, k: int)
    requires
        0 <= k < s.len(),
    ensures
        byte_offset(s, k + 1) == byte_offset(s, k) + char_width(s[k]),
{
    assert(s.take(k + 1).drop_last() == s.take(k));
}

/// Byte offsets grow strictly with character positions.
pub proof fn lemma_byte_offset_monotone(s: Seq<char>, j: int, k: int)
    requires
        0 <= j < k <= s.len(),
    ensures
        byte_offset(s, j) < byte_offset(s, k),
    decreases k - j,
{
    lemma_byte_offset_step(s, k - 1);
    if j < k - 1 {
        lemma_byte_offset_monotone(s, j, k - 1);
    }
}

/// Character position whose byte offset is `cursor`.
pub proof fn lemma_boundary_unique(s: Seq<char>, j: int, k: int)
    requires
        0 <= j <= s.len(),
        0 <= k <= s.len(),
        byte_offset(s, j) == byte_offset(s, k),
    ensures
        j == k,
{
    if j < k {
        lemma_byte_offset_monotone(s, j, k);
    } else if k < j {
        lemma_byte_offset_monotone(s, k, j);
    }
}

/// The character position at byte offset `cursor`.
pub fn char_index_of(v: &Vec<char>, cursor: usize) -> (k: usize)
    requires
        is_boundary(v@, cursor as int),
    ensures
        k <= v.len(),
        byte_offset(v@, k as int) == cursor,
{
    let ghost target = choose|k: int| 0 <= k <= v@.len() && byte_offset(v@, k) == cursor;
    let mut k: usize = 0;
    let mut acc: usize = 0;
    proof {
        assert(v@.take(0).len() == 0);
        if target > 0 {
            lemma_byte_offset_monotone(v@, 0, target);
        }
    }
    while acc < cursor
        invariant
            k <= target <= v.len(),
            acc == byte_offset(v@, k as int),
            byte_offset(v@, target) == cursor,
        decreases target - k,
    {
        proof {
            if k == target {
                assert(false);
            }
            lemma_byte_offset_step(v@, k as int);
            if k + 1 < target {
                lemma_byte_offset_monotone(v@, k + 1, target);
            }
        }
        acc = acc + char_width_exec(v[k]);
        k = k + 1;
    }
    proof {
        if k < target {
            lemma_byte_offset_monotone(v@, k as int, target);
        }
    }
    k
}

} // verus!
