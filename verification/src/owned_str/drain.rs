//! The characters removed from a string by a drain, handed out one by one
//! from either end.
use vstd::prelude::*;

verus! {

use crate::from_utf8_error::str_from_utf8;
use crate::unicode::{decode_char_at, last_char_start, lemma_decode_step, lemma_valid_between};
use vstd::string::StringSliceAdditionalSpecFns;
use vstd::utf8::*;

/// The characters of a drained range: the bytes that were removed, and the
/// part of them not yet handed out.
pub struct Drain {
    bytes: Vec<u8>,
    front: usize,
    back: usize,
}

impl View for Drain {
    type V = Seq<char>;

    /// The characters not yet handed out.
    closed spec fn view(&self) -> Seq<char> {
        decode_utf8(self.bytes@.subrange(self.front as int, self.back as int))
    }
}

impl Drain {
    /// The bytes not yet handed out.
    pub closed spec fn spec_bytes(self) -> Seq<u8> {
        self.bytes@.subrange(self.front as int, self.back as int)
    }

    /// The invariant: the removed bytes are valid UTF-8, and the part not yet
    /// handed out lies between two of their character boundaries.
    pub closed spec fn wf(self) -> bool {
        &&& valid_utf8(self.bytes@)
        &&& self.front <= self.back <= self.bytes@.len()
        &&& is_char_boundary(self.bytes@, self.front as int)
        &&& is_char_boundary(self.bytes@, self.back as int)
    }

    /// The bytes not yet handed out are valid UTF-8, and the characters are
    /// what they decode to.
    pub proof fn lemma_valid(self)
        requires
            self.wf(),
        ensures
            valid_utf8(self.spec_bytes()),
            self@ == decode_utf8(self.spec_bytes()),
    {
        lemma_valid_between(self.bytes@, self.front as int, self.back as int);
    }

    /// A drain of all characters of `bytes`.
    pub(crate) fn new(bytes: Vec<u8>) -> (r: Self)
        requires
            valid_utf8(bytes@),
        ensures
            r.wf(),
            r.spec_bytes() == bytes@,
            r@ == decode_utf8(bytes@),
    {
        proof {
            is_char_boundary_start_end_of_seq(bytes@);
            assert(bytes@.subrange(0, bytes@.len() as int) =~= bytes@);
        }
        let back = bytes.len();
        Drain { bytes, front: 0, back }
    }

    /// The characters not yet handed out, as a string slice.
    pub fn as_str(&self) -> (r: &str)
        requires
            self.wf(),
        ensures
            r@ == self@,
            r.spec_bytes() == self.spec_bytes(),
    {
        proof {
            self.lemma_valid();
        }
        let rest = vstd::slice::slice_subrange(self.bytes.as_slice(), self.front, self.back);
        match str_from_utf8(rest) {
            Ok(s) => {
                proof {
                    encode_utf8_decode_utf8(s@);
                }
                s
            },
            Err(_) => {
                proof {
                    assert(false);
                }
                ""
            },
        }
    }

    /// Hands out the first character not yet handed out, if any.
    pub fn next(&mut self) -> (r: Option<char>)
        requires
            old(self).wf(),
        ensures
            final(self).wf(),
            old(self)@.len() == 0 ==> r is None && final(self)@ == old(self)@,
            old(self)@.len() > 0 ==> r == Some(old(self)@[0]) && final(self)@ == old(self)@.drop_first(),
    {
        proof {
            old(self).lemma_valid();
        }
        if self.front == self.back {
            proof {
                assert(old(self).spec_bytes() =~= Seq::<u8>::empty());
            }
            return None;
        }
        let ghost b = self.bytes@;
        let ghost sub = b.subrange(self.front as int, self.back as int);
        let ghost f = self.front as int;
        let (c, l) = decode_char_at(self.bytes.as_slice(), self.front);
        proof {
            lemma_decode_step(b, f);
            is_char_boundary_start_end_of_seq(sub);
            lemma_decode_step(sub, 0);
            let suf = b.subrange(f, b.len() as int);
            let ls = length_of_first_scalar(sub);
            assert(sub[0] == suf[0]);
            assert(ls == l);
            assert forall|i: int| 0 <= i < ls implies sub[i] == suf[i] by {}
            assert(decode_first_scalar(sub) == decode_first_scalar(suf));
            char_u32_cast(c, decode_first_scalar(suf));
            valid_utf8_split(sub, ls);
            decode_utf8_split(sub, ls);
            assert(sub.take(0) =~= Seq::<u8>::empty());
            assert(decode_utf8(Seq::<u8>::empty()) =~= Seq::<char>::empty());
            assert(sub.subrange(0, ls) =~= sub.take(ls));
            assert(sub.subrange(ls, sub.len() as int) =~= b.subrange(f + l, self.back as int));
        }
        self.front = self.front + l;
        Some(c)
    }

    /// Hands out the last character not yet handed out, if any.
    pub fn next_back(&mut self) -> (r: Option<char>)
        requires
            old(self).wf(),
        ensures
            final(self).wf(),
            old(self)@.len() == 0 ==> r is None && final(self)@ == old(self)@,
            old(self)@.len() > 0 ==> r == Some(old(self)@.last()) && final(self)@ == old(self)@.drop_last(),
    {
        proof {
            old(self).lemma_valid();
        }
        if self.front == self.back {
            proof {
                assert(old(self).spec_bytes() =~= Seq::<u8>::empty());
            }
            return None;
        }
        let ghost b = self.bytes@;
        let ghost f = self.front as int;
        let rest = vstd::slice::slice_subrange(self.bytes.as_slice(), self.front, self.back);
        let ghost sub = rest@;
        let j = last_char_start(rest);
        let (c, _l) = decode_char_at(rest, j);
        proof {
            let m = sub.len() as int;
            lemma_decode_step(sub, j as int);
            assert(sub.take(m) =~= sub);
            char_u32_cast(c, decode_first_scalar(sub.subrange(j as int, m)));
            is_char_boundary_iff_not_is_continuation_byte(sub, j as int);
            assert(sub[j as int] == b[f + j]);
            is_char_boundary_iff_not_is_continuation_byte(b, f + j);
            assert(sub.take(j as int) =~= b.subrange(f, f + j));
        }
        self.back = self.front + j;
        Some(c)
    }
}

} // verus!
