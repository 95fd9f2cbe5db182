//! UTF-8 on byte sequences: encoding a `char`, finding and decoding the
//! character at a boundary, and the facts about boundaries and decoding that
//! the string type needs.
use vstd::prelude::*;

verus! {

use vstd::utf8::*;

/// A single well-formed scalar forms valid UTF-8 on its own and decodes to
/// that one character.
pub proof fn lemma_single_scalar(s: Seq<u8>)
    requires
        s.len() > 0,
        valid_first_scalar(s),
    ensures
        1 <= length_of_first_scalar(s) <= 4,
        length_of_first_scalar(s) <= s.len(),
        valid_utf8(s.take(length_of_first_scalar(s))),
        decode_utf8(s.take(length_of_first_scalar(s))) == seq![decode_first_scalar(s) as char],
{
    let l = length_of_first_scalar(s);
    let t = s.take(l);
    assert(decode_first_codepoint(t) == decode_first_codepoint(s));
    assert(valid_first_scalar(t));
    assert(pop_first_scalar(t) =~= Seq::<u8>::empty());
    reveal_with_fuel(valid_utf8, 2);
    reveal_with_fuel(decode_utf8, 2);
    assert(valid_utf8(t));
    assert(decode_utf8(t) =~= seq![decode_first_scalar(t) as char] + decode_utf8(pop_first_scalar(t)));
}

/// Valid UTF-8 that is not empty starts with a well-formed scalar, and what
/// follows it is valid UTF-8.
pub proof fn lemma_valid_first(s: Seq<u8>)
    requires
        valid_utf8(s),
        s.len() > 0,
    ensures
        valid_first_scalar(s),
        valid_utf8(pop_first_scalar(s)),
        !is_continuation_byte(s[0]),
{
}

/// Decoding the concatenation of two valid byte sequences concatenates what
/// they decode to.
pub proof fn lemma_decode_concat(a: Seq<u8>, b: Seq<u8>)
    requires
        valid_utf8(a),
        valid_utf8(b),
    ensures
        valid_utf8(a + b),
        decode_utf8(a + b) == decode_utf8(a) + decode_utf8(b),
{
    valid_utf8_concat(a, b);
    let c = a + b;
    if b.len() == 0 {
        assert(c =~= a);
        assert(decode_utf8(b) =~= Seq::<char>::empty());
        assert(decode_utf8(a) + decode_utf8(b) =~= decode_utf8(a));
    } else {
        lemma_valid_first(b);
        assert(c[a.len() as int] == b[0]);
        is_char_boundary_iff_not_is_continuation_byte(c, a.len() as int);
        decode_utf8_split(c, a.len() as int);
        assert(c.subrange(0, a.len() as int) =~= a);
        assert(c.subrange(a.len() as int, c.len() as int) =~= b);
    }
}

/// The character that starts at boundary `p` of valid UTF-8 `b`: it ends at
/// a boundary `q` at most 4 bytes later, its bytes are its encoding, and the
/// prefix up to `q` decodes to the prefix up to `p` followed by it.
pub proof fn lemma_decode_step(b: Seq<u8>, p: int)
    requires
        valid_utf8(b),
        0 <= p < b.len(),
        is_char_boundary(b, p),
    ensures
        ({
            let suf = b.subrange(p, b.len() as int);
            let l = length_of_first_scalar(suf);
            let q = p + l;
            &&& valid_utf8(suf)
            &&& valid_first_scalar(suf)
            &&& 1 <= l <= 4
            &&& q <= b.len()
            &&& is_char_boundary(b, q)
            &&& valid_utf8(b.take(p))
            &&& valid_utf8(b.take(q))
            &&& decode_utf8(b.take(q)) == decode_utf8(b.take(p)).push(decode_first_scalar(suf) as char)
            &&& encode_scalar((decode_first_scalar(suf) as char) as u32) == b.subrange(p, q)
        }),
{
    let n = b.len() as int;
    let suf = b.subrange(p, n);
    valid_utf8_split(b, p);
    assert(b.subrange(0, p) =~= b.take(p));
    lemma_valid_first(suf);
    lemma_single_scalar(suf);
    let l = length_of_first_scalar(suf);
    let q = p + l;
    if q == n {
        is_char_boundary_start_end_of_seq(b);
    } else {
        let rest = pop_first_scalar(suf);
        assert(rest.len() > 0);
        lemma_valid_first(rest);
        assert(rest[0] == b[q]);
        is_char_boundary_iff_not_is_continuation_byte(b, q);
    }
    valid_utf8_split(b, q);
    assert(b.subrange(0, q) =~= b.take(q));
    let c = b.take(q);
    is_char_boundary_iff_not_is_continuation_byte(b, p);
    assert(c[p] == b[p]);
    is_char_boundary_iff_not_is_continuation_byte(c, p);
    decode_utf8_split(c, p);
    assert(c.subrange(0, p) =~= b.take(p));
    assert(c.subrange(p, q) =~= suf.take(l));
    assert(suf.take(l) =~= b.subrange(p, q));
    decode_utf8_first_scalar(suf);
    assert(take_first_scalar(suf) =~= b.subrange(p, q));
}

/// The bytes between two boundaries of valid UTF-8 are valid UTF-8.
pub proof fn lemma_valid_between(b: Seq<u8>, s: int, e: int)
    requires
        valid_utf8(b),
        0 <= s <= e <= b.len(),
        is_char_boundary(b, s),
        is_char_boundary(b, e),
    ensures
        valid_utf8(b.subrange(s, e)),
{
    valid_utf8_split(b, e);
    let pre = b.subrange(0, e);
    if s < e {
        is_char_boundary_iff_not_is_continuation_byte(b, s);
        assert(pre[s] == b[s]);
        is_char_boundary_iff_not_is_continuation_byte(pre, s);
    } else {
        is_char_boundary_start_end_of_seq(pre);
    }
    valid_utf8_split(pre, s);
    assert(pre.subrange(s, e) =~= b.subrange(s, e));
}

/// Removing the bytes between two boundaries of valid UTF-8 leaves valid
/// UTF-8.
pub proof fn lemma_valid_without(b: Seq<u8>, s: int, e: int)
    requires
        valid_utf8(b),
        0 <= s <= e <= b.len(),
        is_char_boundary(b, s),
        is_char_boundary(b, e),
    ensures
        valid_utf8(b.subrange(0, s) + b.subrange(e, b.len() as int)),
{
    valid_utf8_split(b, s);
    valid_utf8_split(b, e);
    valid_utf8_concat(b.subrange(0, s), b.subrange(e, b.len() as int));
}

/// Whether `index` is a character boundary of the valid UTF-8 `bytes`: its
/// start, its end, or the index of a byte that is not a continuation byte.
pub fn is_char_boundary_at(bytes: &[u8], index: usize) -> (r: bool)
    requires
        valid_utf8(bytes@),
    ensures
        r == is_char_boundary(bytes@, index as int),
{
    proof {
        is_char_boundary_start_end_of_seq(bytes@);
    }
    if index == 0 || index == bytes.len() {
        return true;
    }
    if index > bytes.len() {
        return false;
    }
    proof {
        is_char_boundary_iff_not_is_continuation_byte(bytes@, index as int);
    }
    let b = bytes[index];
    !(0x80 <= b && b <= 0xbf)
}

/// The number of bytes in the UTF-8 encoding of `ch`.
pub fn char_len_utf8(ch: char) -> (r: usize)
    ensures
        r == encode_scalar(ch as u32).len(),
        1 <= r <= 4,
{
    proof {
        char_is_scalar(ch);
    }
    let c = ch as u32;
    if c <= 0x7f {
        1
    } else if c <= 0x7ff {
        2
    } else if c <= 0xffff {
        3
    } else {
        4
    }
}

/// The UTF-8 encoding of `ch`.
pub fn encode_char(ch: char) -> (r: Vec<u8>)
    ensures
        r@ == encode_scalar(ch as u32),
        r@ == encode_utf8(seq![ch]),
        valid_utf8(r@),
        decode_utf8(r@) == seq![ch],
{
    proof {
        char_is_scalar(ch);
        reveal_with_fuel(encode_utf8, 2);
        assert(seq![ch].drop_first() =~= Seq::<char>::empty());
        assert(encode_utf8(seq![ch]) =~= encode_scalar(ch as u32));
        encode_utf8_valid_utf8(seq![ch]);
        encode_utf8_decode_utf8(seq![ch]);
    }
    let c = ch as u32;
    let mut v: Vec<u8> = Vec::new();
    if c <= 0x7f {
        v.push((c & 0x7F) as u8);
    } else if c <= 0x7ff {
        v.push(0xC0 | ((c >> 6) & 0x1F) as u8);
        v.push(0x80 | (c & 0x3F) as u8);
    } else if c <= 0xffff {
        v.push(0xE0 | ((c >> 12) & 0x0F) as u8);
        v.push(0x80 | ((c >> 6) & 0x3F) as u8);
        v.push(0x80 | (c & 0x3F) as u8);
    } else {
        v.push(0xF0 | ((c >> 18) & 0x7) as u8);
        v.push(0x80 | ((c >> 12) & 0x3F) as u8);
        v.push(0x80 | ((c >> 6) & 0x3F) as u8);
        v.push(0x80 | (c & 0x3F) as u8);
    }
    proof {
        assert(v@ =~= encode_scalar(ch as u32));
    }
    v
}

/// The boundary where the last character of the valid, non-empty UTF-8
/// `bytes` starts.
pub fn last_char_start(bytes: &[u8]) -> (r: usize)
    requires
        valid_utf8(bytes@),
        bytes@.len() > 0,
    ensures
        r < bytes@.len(),
        is_char_boundary(bytes@, r as int),
        r + length_of_first_scalar(bytes@.subrange(r as int, bytes@.len() as int)) == bytes@.len(),
{
    let n = bytes.len();
    let mut j = n - 1;
    proof {
        is_char_boundary_start_end_of_seq(bytes@);
        is_char_boundary_iff_not_is_continuation_byte(bytes@, 0);
    }
    while j > 0 && 0x80 <= bytes[j] && bytes[j] <= 0xbf
        invariant
            n == bytes@.len(),
            j < n,
            valid_utf8(bytes@),
            is_char_boundary(bytes@, 0),
            forall|k: int| j < k < n ==> is_continuation_byte(#[trigger] bytes@[k]),
        decreases j,
    {
        j = j - 1;
    }
    proof {
        is_char_boundary_iff_not_is_continuation_byte(bytes@, j as int);
        lemma_decode_step(bytes@, j as int);
        let q = j + length_of_first_scalar(bytes@.subrange(j as int, n as int));
        if q < n {
            is_char_boundary_iff_not_is_continuation_byte(bytes@, q);
            assert(is_continuation_byte(bytes@[q]));
        }
    }
    j
}

/// The character whose code is `code`, if `code` is a Unicode scalar value.
///
/// Calls `char::from_u32`, whose documentation says that it returns `None`
/// exactly for surrogates and values above `0x10FFFF`, and otherwise the
/// character with that code; that is what the contract claims.
#[verifier::external_body]
fn char_from_u32(code: u32) -> (r: Option<char>)
    ensures
        r is Some <==> is_scalar(code),
        r matches Some(c) ==> c as u32 == code,
{
    char::from_u32(code)
}

/// The character at boundary `index` of the valid UTF-8 `bytes`, and the
/// number of bytes it takes.
pub fn decode_char_at(bytes: &[u8], index: usize) -> (r: (char, usize))
    requires
        valid_utf8(bytes@),
        index < bytes@.len(),
        is_char_boundary(bytes@, index as int),
    ensures
        ({
            let suf = bytes@.subrange(index as int, bytes@.len() as int);
            &&& r.0 as u32 == decode_first_scalar(suf)
            &&& r.1 == length_of_first_scalar(suf)
        }),
{
    let ghost suf = bytes@.subrange(index as int, bytes@.len() as int);
    proof {
        lemma_decode_step(bytes@, index as int);
        lemma_valid_first(suf);
        assert(suf[0] == bytes@[index as int]);
    }
    let b1 = bytes[index];
    let (code, len): (u32, usize) = if b1 <= 0x7f {
        proof {
            assert((b1 & 0x7F) as u32 <= 0x7f) by (bit_vector);
        }
        ((b1 & 0x7F) as u32, 1)
    } else if b1 <= 0xdf {
        let b2 = bytes[index + 1];
        proof {
            assert(suf[1] == b2);
            assert((((b1 & 0x1F) as u32) << 6) | ((b2 & 0x3F) as u32) <= 0x7ff) by (bit_vector);
        }
        ((((b1 & 0x1F) as u32) << 6) | ((b2 & 0x3F) as u32), 2)
    } else if b1 <= 0xef {
        let b2 = bytes[index + 1];
        let b3 = bytes[index + 2];
        proof {
            assert(suf[1] == b2 && suf[2] == b3);
            assert((((b1 & 0x0F) as u32) << 12) | (((b2 & 0x3F) as u32) << 6) | ((b3 & 0x3F) as u32)
                <= 0xffff) by (bit_vector);
        }
        ((((b1 & 0x0F) as u32) << 12) | (((b2 & 0x3F) as u32) << 6) | ((b3 & 0x3F) as u32), 3)
    } else {
        let b2 = bytes[index + 1];
        let b3 = bytes[index + 2];
        let b4 = bytes[index + 3];
        proof {
            assert(suf[1] == b2 && suf[2] == b3 && suf[3] == b4);
        }
        (
            (((b1 & 0x07) as u32) << 18) | (((b2 & 0x3F) as u32) << 12) | (((b3 & 0x3F) as u32) << 6)
                | ((b4 & 0x3F) as u32),
            4,
        )
    };
    match char_from_u32(code) {
        Some(c) => (c, len),
        None => {
            proof {
                assert(false);
            }
            ('\0', len)
        },
    }
}

} // verus!
