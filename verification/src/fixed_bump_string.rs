//! A string with a fixed capacity: valid UTF-8 in a buffer that is
//! allocated once in a bump allocator and never grows.
//!
//! The string is viewed as its characters; its bytes are their UTF-8
//! encoding. Operations that add bytes fail with [`AllocError`] when the
//! capacity does not suffice (the `try_` methods), or require that it does
//! (the others). Byte indices must lie on character boundaries.
use vstd::prelude::*;

verus! {

use crate::allocator::{AllocError, BaseAllocator};
use crate::fixed_bump_vec::FixedBumpVec;
use crate::from_utf8_error::{str_from_utf8, FromUtf8Error};
use crate::fixed_bump_vec::kept;
use crate::layout::{layout_ok, Layout};
use crate::owned_str::drain::Drain;
use crate::raw_bump::RawBump;
use crate::settings::BumpAllocatorSettings;
use crate::range::{range_end, range_in_bounds, range_start, slice_range, Bound};
use crate::unicode::{
    decode_char_at, encode_char, last_char_start, lemma_decode_concat,
    lemma_decode_step, lemma_valid_between, lemma_valid_without,
};
use vstd::layout::{align_of, size_of};
use vstd::string::StringSliceAdditionalSpecFns;
use vstd::utf8::*;

broadcast use vstd::layout::layout_of_primitives;

/// Popping what was pushed gives it back: after appending the encoding of
/// `c` to valid UTF-8 `b`, the last character is `c`, the characters before
/// it are those of `b`, and removing the encoding's bytes restores `b`.
pub proof fn lemma_pop_undoes_push(b: Seq<u8>, c: char)
    requires
        valid_utf8(b),
    ensures
        ({
            let pushed = b + encode_scalar(c as u32);
            &&& valid_utf8(pushed)
            &&& decode_utf8(pushed).len() > 0
            &&& decode_utf8(pushed).last() == c
            &&& decode_utf8(pushed).drop_last() == decode_utf8(b)
            &&& pushed.subrange(0, pushed.len() - encode_scalar(c as u32).len()) == b
        }),
{
    let e = encode_scalar(c as u32);
    reveal_with_fuel(encode_utf8, 2);
    assert(seq![c].drop_first() =~= Seq::<char>::empty());
    assert(encode_utf8(seq![c]) =~= e);
    encode_utf8_valid_utf8(seq![c]);
    encode_utf8_decode_utf8(seq![c]);
    lemma_decode_concat(b, e);
    let pushed = b + e;
    assert(decode_utf8(pushed) =~= decode_utf8(b).push(c));
    assert(decode_utf8(b).push(c).drop_last() =~= decode_utf8(b));
    assert(pushed.subrange(0, pushed.len() - e.len()) =~= b);
}

/// A string with a fixed capacity.
pub struct FixedBumpString {
    vec: FixedBumpVec<u8>,
}

impl View for FixedBumpString {
    type V = Seq<char>;

    /// The characters of the string.
    closed spec fn view(&self) -> Seq<char> {
        decode_utf8(self.vec@)
    }
}

impl FixedBumpString {
    /// The bytes of the string.
    pub closed spec fn spec_bytes(self) -> Seq<u8> {
        self.vec@
    }

    /// The number of bytes the string can hold.
    pub closed spec fn spec_capacity(self) -> nat {
        self.vec.spec_capacity()
    }

    /// The address of the buffer, where the first byte is kept.
    pub closed spec fn spec_buffer(self) -> int {
        self.vec.spec_buffer()
    }

    /// The invariant: the bytes fit in the capacity, which fits in an
    /// `isize`, and they are valid UTF-8.
    pub open spec fn wf(self) -> bool {
        &&& self.spec_bytes().len() <= self.spec_capacity()
        &&& self.spec_capacity() <= isize::MAX
        &&& valid_utf8(self.spec_bytes())
    }

    /// The characters are what the bytes decode to, and the bytes are their
    /// encoding.
    pub proof fn lemma_view(self)
        requires
            self.wf(),
        ensures
            self@ == decode_utf8(self.spec_bytes()),
            encode_utf8(self@) == self.spec_bytes(),
    {
        decode_utf8_encode_utf8(self.spec_bytes());
    }

    proof fn lemma_wf(self)
        ensures
            self.wf() <==> self.vec.wf() && valid_utf8(self.vec@),
    {
        assert(size_of::<u8>() == 1);
    }

    /// An empty string without a buffer.
    pub fn new() -> (r: Self)
        ensures
            r.wf(),
            r@ == Seq::<char>::empty(),
            r.spec_bytes() == Seq::<u8>::empty(),
            r.spec_capacity() == 0,
    {
        let r = FixedBumpString { vec: FixedBumpVec::new() };
        proof {
            r.lemma_wf();
        }
        r
    }

    /// An empty string with room for `capacity` bytes, whose buffer is
    /// allocated in `allocator`. Nothing is allocated for a capacity of 0;
    /// otherwise this fails when the capacity exceeds `isize::MAX` or the
    /// allocation fails.
    pub fn try_with_capacity_in<A: BaseAllocator, S: BumpAllocatorSettings>(
        capacity: usize,
        allocator: &mut RawBump<A, S>,
    ) -> (r: Result<Self, AllocError>)
        requires
            old(allocator).wf(),
        ensures
            final(allocator).wf(),
            r matches Ok(s) ==> s.wf() && s.spec_bytes() == Seq::<u8>::empty() && s.spec_capacity()
                == capacity,
            capacity == 0 ==> r is Ok && *final(allocator) == *old(allocator),
            capacity != 0 && !layout_ok(capacity as int, 1) ==> r is Err && *final(allocator)
                == *old(allocator),
            capacity != 0 && layout_ok(capacity as int, 1) ==> exists|res: Result<usize, AllocError>|
                (res is Ok <==> r is Ok) && (r matches Ok(s) ==> res == Ok::<usize, AllocError>(s.spec_buffer() as usize))
                && #[trigger] old(allocator).alloc_post(
                    *final(allocator),
                    Layout::spec_array::<u8>(capacity as int),
                    res,
                ) && old(allocator).alloc_fast_path(*final(allocator), Layout::spec_array::<u8>(capacity as int), res) && (!(old(
                    allocator,
                ).has_chunk() && RawBump::<A, S>::fits(old(allocator).current_chunk(), Layout::spec_array::<u8>(capacity as int), false))
                    ==> old(allocator).alloc_later_path(*final(allocator), Layout::spec_array::<u8>(capacity as int), res)),
            layout_ok(capacity as int, 1) && old(allocator).alloc_owed(Layout::spec_array::<u8>(capacity as int)) ==> r is Ok,
    {
        vstd::layout::layout_for_type_is_valid::<u8>();
        proof {
            assert(size_of::<u8>() == 1);
            assert(align_of::<u8>() == 1) by (nonlinear_arith)
                requires
                    align_of::<u8>() != 0,
                    size_of::<u8>() % align_of::<u8>() == 0,
                    size_of::<u8>() == 1,
            ;
        }
        let vec = FixedBumpVec::<u8>::try_with_capacity_in(capacity, allocator)?;
        let r = FixedBumpString { vec };
        proof {
            r.lemma_wf();
        }
        Ok(r)
    }

    /// A full string of the characters of `initialized`; its capacity is its
    /// length in bytes.
    pub fn from_init(initialized: &str) -> (r: Self)
        requires
            initialized.spec_bytes().len() <= isize::MAX,
        ensures
            r.wf(),
            r@ == initialized@,
            r.spec_bytes() == initialized.spec_bytes(),
            r.spec_capacity() == initialized.spec_bytes().len(),
    {
        let bytes = initialized.as_bytes();
        let v = vstd::slice::slice_to_vec(bytes);
        proof {
            assert(size_of::<u8>() == 1);
            encode_utf8_valid_utf8(initialized@);
            encode_utf8_decode_utf8(initialized@);
        }
        let r = FixedBumpString { vec: FixedBumpVec::from_init(v) };
        proof {
            r.lemma_wf();
        }
        r
    }

    /// A string of the bytes of `vec`, with its capacity, when they are valid
    /// UTF-8; otherwise an error that gives `vec` back.
    pub fn from_utf8(vec: FixedBumpVec<u8>) -> (r: Result<Self, FromUtf8Error<FixedBumpVec<u8>>>)
        requires
            vec.wf(),
        ensures
            r is Ok <==> valid_utf8(vec@),
            r matches Ok(s) ==> s.wf() && s.spec_bytes() == vec@ && s.spec_capacity() == vec.spec_capacity(),
            r matches Err(e) ==> e.spec_bytes() == vec && e.spec_error() == crate::from_utf8_error::utf8_error_of(vec@),
    {
        match str_from_utf8(vec.as_slice()) {
            Ok(_) => {
                let r = FixedBumpString { vec };
                proof {
                    r.lemma_wf();
                }
                Ok(r)
            },
            Err(error) => Err(FromUtf8Error::new(error, vec)),
        }
    }

    /// A string of the bytes of `vec`, with its capacity, without checking
    /// them: they must be valid UTF-8.
    pub fn from_utf8_unchecked(vec: FixedBumpVec<u8>) -> (r: Self)
        requires
            vec.wf(),
            valid_utf8(vec@),
        ensures
            r.wf(),
            r.spec_bytes() == vec@,
            r.spec_capacity() == vec.spec_capacity(),
    {
        let r = FixedBumpString { vec };
        proof {
            r.lemma_wf();
        }
        r
    }

    /// The number of bytes the string can hold.
    pub fn capacity(&self) -> (r: usize)
        ensures
            r == self.spec_capacity(),
    {
        self.vec.capacity()
    }

    /// The length of the string in bytes.
    pub fn len(&self) -> (r: usize)
        requires
            self.wf(),
        ensures
            r == self.spec_bytes().len(),
            r <= self.spec_capacity(),
    {
        proof {
            self.lemma_wf();
        }
        self.vec.len()
    }

    /// Whether the string is empty.
    pub fn is_empty(&self) -> (r: bool)
        requires
            self.wf(),
        ensures
            r == (self.spec_bytes().len() == 0),
            r == (self@.len() == 0),
    {
        proof {
            self.lemma_view();
            if self@.len() != 0 {
                assert(encode_utf8(self@) =~= encode_scalar(self@[0] as u32) + encode_utf8(self@.drop_first()));
                char_is_scalar(self@[0]);
            }
        }
        self.vec.is_empty()
    }

    /// The bytes, with the capacity, as a vector of bytes.
    pub fn into_bytes(self) -> (r: FixedBumpVec<u8>)
        requires
            self.wf(),
        ensures
            r.wf(),
            r@ == self.spec_bytes(),
            r.spec_capacity() == self.spec_capacity(),
    {
        proof {
            self.lemma_wf();
        }
        self.vec
    }

    /// The bytes of the string.
    pub fn as_bytes(&self) -> (r: &[u8])
        ensures
            r@ == self.spec_bytes(),
    {
        self.vec.as_slice()
    }

    /// The characters, as an owned string of their own.
    pub fn into_boxed_str(self) -> (r: String)
        requires
            self.wf(),
        ensures
            r@ == self@,
    {
        self.as_str().to_owned()
    }

    /// The string as a string slice.
    pub fn as_str(&self) -> (r: &str)
        requires
            self.wf(),
        ensures
            r@ == self@,
            r.spec_bytes() == self.spec_bytes(),
    {
        match str_from_utf8(self.vec.as_slice()) {
            Ok(s) => {
                proof {
                    encode_utf8_decode_utf8(s@);
                }
                s
            },
            Err(_) => {
                proof {
                    assert(false);
                }
                ""
            },
        }
    }

    /// Succeeds when `additional` more bytes fit in the spare capacity.
    pub fn try_reserve(&mut self, additional: usize) -> (r: Result<(), AllocError>)
        requires
            old(self).wf(),
        ensures
            r is Ok <==> additional <= old(self).spec_capacity() - old(self).spec_bytes().len(),
            *final(self) == *old(self),
    {
        proof {
            old(self).lemma_wf();
        }
        self.vec.try_reserve(additional)
    }

    /// Checks that `additional` more bytes fit in the spare capacity, which
    /// the caller guarantees; the string does not change.
    pub fn reserve(&mut self, additional: usize)
        requires
            old(self).wf(),
            additional <= old(self).spec_capacity() - old(self).spec_bytes().len(),
        ensures
            *final(self) == *old(self),
    {
    }

    /// Appends the bytes of `bytes`, valid UTF-8 that fits in the spare
    /// capacity.
    fn push_bytes(&mut self, bytes: &[u8])
        requires
            old(self).wf(),
            valid_utf8(bytes@),
            bytes@.len() <= old(self).spec_capacity() - old(self).spec_bytes().len(),
        ensures
            final(self).wf(),
            final(self).spec_bytes() == old(self).spec_bytes() + bytes@,
            final(self)@ == old(self)@ + decode_utf8(bytes@),
            final(self).spec_capacity() == old(self).spec_capacity(),
            final(self).spec_buffer() == old(self).spec_buffer(),
    {
        proof {
            old(self).lemma_wf();
            lemma_decode_concat(old(self).spec_bytes(), bytes@);
        }
        self.vec.extend_from_slice_copy(bytes);
        proof {
            self.lemma_wf();
        }
    }

    /// Appends `ch`, failing, with no change, when its encoding does not fit
    /// in the spare capacity.
    pub fn try_push(&mut self, ch: char) -> (r: Result<(), AllocError>)
        requires
            old(self).wf(),
        ensures
            final(self).wf(),
            r is Ok <==> encode_scalar(ch as u32).len() <= old(self).spec_capacity() - old(
                self,
            ).spec_bytes().len(),
            r is Ok ==> final(self).spec_bytes() == old(self).spec_bytes() + encode_scalar(ch as u32)
                && final(self)@ == old(self)@.push(ch),
            r is Err ==> *final(self) == *old(self),
            final(self).spec_capacity() == old(self).spec_capacity(),
            final(self).spec_buffer() == old(self).spec_buffer(),
    {
        let bytes = encode_char(ch);
        if bytes.len() > self.vec.capacity() - self.len() {
            return Err(AllocError);
        }
        self.push_bytes(bytes.as_slice());
        proof {
            assert(old(self)@ + seq![ch] =~= old(self)@.push(ch));
        }
        Ok(())
    }

    /// Appends `ch`, whose encoding fits in the spare capacity.
    pub fn push(&mut self, ch: char)
        requires
            old(self).wf(),
            encode_scalar(ch as u32).len() <= old(self).spec_capacity() - old(self).spec_bytes().len(),
        ensures
            final(self).wf(),
            final(self).spec_bytes() == old(self).spec_bytes() + encode_scalar(ch as u32),
            final(self)@ == old(self)@.push(ch),
            final(self).spec_capacity() == old(self).spec_capacity(),
            final(self).spec_buffer() == old(self).spec_buffer(),
    {
        let _ = self.try_push(ch);
    }

    /// Appends `string`, failing, with no change, when it does not fit in the
    /// spare capacity.
    pub fn try_push_str(&mut self, string: &str) -> (r: Result<(), AllocError>)
        requires
            old(self).wf(),
        ensures
            final(self).wf(),
            r is Ok <==> string.spec_bytes().len() <= old(self).spec_capacity() - old(
                self,
            ).spec_bytes().len(),
            r is Ok ==> final(self).spec_bytes() == old(self).spec_bytes() + string.spec_bytes()
                && final(self)@ == old(self)@ + string@,
            r is Err ==> *final(self) == *old(self),
            final(self).spec_capacity() == old(self).spec_capacity(),
            final(self).spec_buffer() == old(self).spec_buffer(),
    {
        let bytes = string.as_bytes();
        if bytes.len() > self.vec.capacity() - self.len() {
            return Err(AllocError);
        }
        proof {
            encode_utf8_valid_utf8(string@);
            encode_utf8_decode_utf8(string@);
        }
        self.push_bytes(bytes);
        Ok(())
    }

    /// Appends `string`, which fits in the spare capacity.
    pub fn push_str(&mut self, string: &str)
        requires
            old(self).wf(),
            string.spec_bytes().len() <= old(self).spec_capacity() - old(self).spec_bytes().len(),
        ensures
            final(self).wf(),
            final(self).spec_bytes() == old(self).spec_bytes() + string.spec_bytes(),
            final(self)@ == old(self)@ + string@,
            final(self).spec_capacity() == old(self).spec_capacity(),
            final(self).spec_buffer() == old(self).spec_buffer(),
    {
        let _ = self.try_push_str(string);
    }

    /// Removes the last character and returns it, if there is one.
    pub fn pop(&mut self) -> (r: Option<char>)
        requires
            old(self).wf(),
        ensures
            final(self).wf(),
            final(self).spec_capacity() == old(self).spec_capacity(),
            final(self).spec_buffer() == old(self).spec_buffer(),
            old(self)@.len() == 0 ==> r is None && *final(self) == *old(self),
            old(self)@.len() > 0 ==> {
                let n = old(self).spec_bytes().len();
                let c = old(self)@.last();
                &&& r == Some(c)
                &&& final(self)@ == old(self)@.drop_last()
                &&& final(self).spec_bytes() == old(self).spec_bytes().subrange(
                    0,
                    n - encode_scalar(c as u32).len(),
                )
            },
    {
        proof {
            old(self).lemma_wf();
            old(self).lemma_view();
        }
        if self.vec.is_empty() {
            proof {
                assert(old(self)@ == decode_utf8(Seq::<u8>::empty()));
            }
            return None;
        }
        let ghost b = old(self).spec_bytes();
        let ghost n = b.len() as int;
        let j = last_char_start(self.vec.as_slice());
        let (c, _l) = decode_char_at(self.vec.as_slice(), j);
        proof {
            lemma_decode_step(b, j as int);
            assert(b.take(n) == b);
            char_u32_cast(c, decode_first_scalar(b.subrange(j as int, n)));
        }
        self.vec.truncate(j);
        proof {
            assert(self.vec@ == b.take(j as int));
            self.lemma_wf();
        }
        Some(c)
    }

    /// Removes all characters.
    pub fn clear(&mut self)
        requires
            old(self).wf(),
        ensures
            final(self).wf(),
            final(self)@ == Seq::<char>::empty(),
            final(self).spec_bytes() == Seq::<u8>::empty(),
            final(self).spec_capacity() == old(self).spec_capacity(),
            final(self).spec_buffer() == old(self).spec_buffer(),
    {
        proof {
            old(self).lemma_wf();
        }
        self.vec.clear();
        proof {
            self.lemma_wf();
        }
    }

    /// Shortens the string to `new_len` bytes, which must be a character
    /// boundary; does nothing when the string is not longer than that.
    pub fn truncate(&mut self, new_len: usize)
        requires
            old(self).wf(),
            new_len < old(self).spec_bytes().len() ==> is_char_boundary(old(self).spec_bytes(), new_len as int),
        ensures
            final(self).wf(),
            final(self).spec_capacity() == old(self).spec_capacity(),
            final(self).spec_buffer() == old(self).spec_buffer(),
            final(self).spec_bytes() == (if new_len < old(self).spec_bytes().len() {
                old(self).spec_bytes().subrange(0, new_len as int)
            } else {
                old(self).spec_bytes()
            }),
            final(self)@ == old(self)@.take(final(self)@.len() as int),
    {
        proof {
            old(self).lemma_wf();
        }
        let ghost b = old(self).spec_bytes();
        if new_len < self.vec.len() {
            proof {
                valid_utf8_split(b, new_len as int);
                decode_utf8_split(b, new_len as int);
            }
            self.vec.truncate(new_len);
        }
        proof {
            self.lemma_wf();
        }
    }

    /// Removes the character that starts at byte `idx`, a character boundary
    /// before the end, and returns it.
    pub fn remove(&mut self, idx: usize) -> (r: char)
        requires
            old(self).wf(),
            idx < old(self).spec_bytes().len(),
            is_char_boundary(old(self).spec_bytes(), idx as int),
        ensures
            final(self).wf(),
            final(self).spec_capacity() == old(self).spec_capacity(),
            final(self).spec_buffer() == old(self).spec_buffer(),
            ({
                let b = old(self).spec_bytes();
                let l = encode_scalar(r as u32).len() as int;
                let k = decode_utf8(b.subrange(0, idx as int)).len() as int;
                &&& idx + l <= b.len()
                &&& b.subrange(idx as int, idx + l) == encode_scalar(r as u32)
                &&& final(self).spec_bytes() == b.subrange(0, idx as int) + b.subrange(idx + l, b.len() as int)
                &&& k < old(self)@.len()
                &&& r == old(self)@[k]
                &&& final(self)@ == old(self)@.remove(k)
            }),
    {
        proof {
            old(self).lemma_wf();
        }
        let ghost b = old(self).spec_bytes();
        let ghost n = b.len() as int;
        let (c, l) = decode_char_at(self.vec.as_slice(), idx);
        let ghost q = idx + l;
        proof {
            lemma_decode_step(b, idx as int);
            char_u32_cast(c, decode_first_scalar(b.subrange(idx as int, n)));
            valid_utf8_split(b, q);
            decode_utf8_split(b, q);
            lemma_valid_without(b, idx as int, q);
            let pre = b.subrange(0, idx as int);
            let post = b.subrange(q, n);
            assert(b.take(idx as int) == pre);
            assert(b.take(q) == b.subrange(0, q));
            lemma_decode_concat(pre, post);
            let k = decode_utf8(pre).len() as int;
            let whole = decode_utf8(b);
            assert(whole == decode_utf8(pre).push(c) + decode_utf8(post));
            assert(whole[k] == c);
            assert(whole.remove(k) =~= decode_utf8(pre) + decode_utf8(post));
        }
        let _drained = self.vec.drain(Bound::Included(idx), Bound::Excluded(idx + l));
        proof {
            self.lemma_wf();
        }
        c
    }

    /// Inserts the valid UTF-8 `bytes` at byte `idx`, a character boundary,
    /// when they fit in the spare capacity.
    fn insert_bytes(&mut self, idx: usize, bytes: &[u8]) -> (r: Result<(), AllocError>)
        requires
            old(self).wf(),
            is_char_boundary(old(self).spec_bytes(), idx as int),
            valid_utf8(bytes@),
        ensures
            final(self).wf(),
            final(self).spec_capacity() == old(self).spec_capacity(),
            final(self).spec_buffer() == old(self).spec_buffer(),
            r is Ok <==> bytes@.len() <= old(self).spec_capacity() - old(self).spec_bytes().len(),
            r is Err ==> *final(self) == *old(self),
            r is Ok ==> {
                let b = old(self).spec_bytes();
                &&& final(self).spec_bytes() == b.subrange(0, idx as int) + bytes@ + b.subrange(idx as int, b.len() as int)
                &&& final(self)@ == decode_utf8(b.subrange(0, idx as int)) + decode_utf8(bytes@) + decode_utf8(
                    b.subrange(idx as int, b.len() as int),
                )
            },
    {
        proof {
            old(self).lemma_wf();
        }
        if bytes.len() > self.vec.capacity() - self.vec.len() {
            return Err(AllocError);
        }
        let ghost b = old(self).spec_bytes();
        let ghost n = b.len() as int;
        proof {
            valid_utf8_split(b, idx as int);
            lemma_decode_concat(b.subrange(0, idx as int), bytes@);
            lemma_decode_concat(b.subrange(0, idx as int) + bytes@, b.subrange(idx as int, n));
        }
        let tail = self.vec.drain(Bound::Included(idx), Bound::Unbounded);
        self.vec.extend_from_slice_copy(bytes);
        self.vec.append(tail);
        proof {
            self.lemma_wf();
        }
        Ok(())
    }

    /// Inserts `ch` at byte `idx`, a character boundary; fails, with no
    /// change, when its encoding does not fit in the spare capacity.
    pub fn try_insert(&mut self, idx: usize, ch: char) -> (r: Result<(), AllocError>)
        requires
            old(self).wf(),
            is_char_boundary(old(self).spec_bytes(), idx as int),
        ensures
            final(self).wf(),
            final(self).spec_capacity() == old(self).spec_capacity(),
            final(self).spec_buffer() == old(self).spec_buffer(),
            r is Ok <==> encode_scalar(ch as u32).len() <= old(self).spec_capacity() - old(self).spec_bytes().len(),
            r is Err ==> *final(self) == *old(self),
            r is Ok ==> {
                let b = old(self).spec_bytes();
                &&& final(self).spec_bytes() == b.subrange(0, idx as int) + encode_scalar(ch as u32) + b.subrange(idx as int, b.len() as int)
                &&& final(self)@ == decode_utf8(b.subrange(0, idx as int)).push(ch) + decode_utf8(
                    b.subrange(idx as int, b.len() as int),
                )
            },
    {
        let bytes = encode_char(ch);
        let r = self.insert_bytes(idx, bytes.as_slice());
        proof {
            let b = old(self).spec_bytes();
            assert(decode_utf8(b.subrange(0, idx as int)) + seq![ch] == decode_utf8(b.subrange(0, idx as int)).push(ch));
        }
        r
    }

    /// Inserts `ch` at byte `idx`, a character boundary, when its encoding
    /// fits in the spare capacity.
    pub fn insert(&mut self, idx: usize, ch: char)
        requires
            old(self).wf(),
            is_char_boundary(old(self).spec_bytes(), idx as int),
            encode_scalar(ch as u32).len() <= old(self).spec_capacity() - old(self).spec_bytes().len(),
        ensures
            final(self).wf(),
            final(self).spec_capacity() == old(self).spec_capacity(),
            final(self).spec_buffer() == old(self).spec_buffer(),
            ({
                let b = old(self).spec_bytes();
                &&& final(self).spec_bytes() == b.subrange(0, idx as int) + encode_scalar(ch as u32) + b.subrange(idx as int, b.len() as int)
                &&& final(self)@ == decode_utf8(b.subrange(0, idx as int)).push(ch) + decode_utf8(
                    b.subrange(idx as int, b.len() as int),
                )
            }),
    {
        let _ = self.try_insert(idx, ch);
    }

    /// Inserts `string` at byte `idx`, a character boundary; fails, with no
    /// change, when it does not fit in the spare capacity.
    pub fn try_insert_str(&mut self, idx: usize, string: &str) -> (r: Result<(), AllocError>)
        requires
            old(self).wf(),
            is_char_boundary(old(self).spec_bytes(), idx as int),
        ensures
            final(self).wf(),
            final(self).spec_capacity() == old(self).spec_capacity(),
            final(self).spec_buffer() == old(self).spec_buffer(),
            r is Ok <==> string.spec_bytes().len() <= old(self).spec_capacity() - old(self).spec_bytes().len(),
            r is Err ==> *final(self) == *old(self),
            r is Ok ==> {
                let b = old(self).spec_bytes();
                &&& final(self).spec_bytes() == b.subrange(0, idx as int) + string.spec_bytes() + b.subrange(idx as int, b.len() as int)
                &&& final(self)@ == decode_utf8(b.subrange(0, idx as int)) + string@ + decode_utf8(
                    b.subrange(idx as int, b.len() as int),
                )
            },
    {
        proof {
            encode_utf8_valid_utf8(string@);
            encode_utf8_decode_utf8(string@);
        }
        self.insert_bytes(idx, string.as_bytes())
    }

    /// Inserts `string` at byte `idx`, a character boundary, when it fits in
    /// the spare capacity.
    pub fn insert_str(&mut self, idx: usize, string: &str)
        requires
            old(self).wf(),
            is_char_boundary(old(self).spec_bytes(), idx as int),
            string.spec_bytes().len() <= old(self).spec_capacity() - old(self).spec_bytes().len(),
        ensures
            final(self).wf(),
            final(self).spec_capacity() == old(self).spec_capacity(),
            final(self).spec_buffer() == old(self).spec_buffer(),
            ({
                let b = old(self).spec_bytes();
                &&& final(self).spec_bytes() == b.subrange(0, idx as int) + string.spec_bytes() + b.subrange(idx as int, b.len() as int)
                &&& final(self)@ == decode_utf8(b.subrange(0, idx as int)) + string@ + decode_utf8(
                    b.subrange(idx as int, b.len() as int),
                )
            }),
    {
        let _ = self.try_insert_str(idx, string);
    }

    /// Appends a copy of the bytes in the range, which must lie within the
    /// string and start and end at character boundaries; fails, with no
    /// change, when they do not fit in the spare capacity.
    pub fn try_extend_from_within(&mut self, start: Bound, end: Bound) -> (r: Result<(), AllocError>)
        requires
            old(self).wf(),
            range_in_bounds(start, end, old(self).spec_bytes().len() as int),
            is_char_boundary(old(self).spec_bytes(), range_start(start)),
            is_char_boundary(old(self).spec_bytes(), range_end(end, old(self).spec_bytes().len() as int)),
        ensures
            final(self).wf(),
            final(self).spec_capacity() == old(self).spec_capacity(),
            final(self).spec_buffer() == old(self).spec_buffer(),
            ({
                let b = old(self).spec_bytes();
                let (s, e) = (range_start(start), range_end(end, b.len() as int));
                &&& r is Ok <==> e - s <= old(self).spec_capacity() - b.len()
                &&& r is Err ==> *final(self) == *old(self)
                &&& r is Ok ==> final(self).spec_bytes() == b + b.subrange(s, e)
                    && final(self)@ == old(self)@ + decode_utf8(b.subrange(s, e))
            }),
    {
        proof {
            old(self).lemma_wf();
        }
        let ghost b = old(self).spec_bytes();
        let (s, e) = slice_range(start, end, self.vec.len());
        if e - s > self.vec.capacity() - self.vec.len() {
            return Err(AllocError);
        }
        proof {
            lemma_valid_between(b, s as int, e as int);
            lemma_decode_concat(b, b.subrange(s as int, e as int));
        }
        self.vec.extend_from_within_copy(start, end);
        proof {
            self.lemma_wf();
        }
        Ok(())
    }

    /// Appends a copy of the bytes in the range, which must lie within the
    /// string, start and end at character boundaries, and fit in the spare
    /// capacity.
    pub fn extend_from_within(&mut self, start: Bound, end: Bound)
        requires
            old(self).wf(),
            range_in_bounds(start, end, old(self).spec_bytes().len() as int),
            is_char_boundary(old(self).spec_bytes(), range_start(start)),
            is_char_boundary(old(self).spec_bytes(), range_end(end, old(self).spec_bytes().len() as int)),
            range_end(end, old(self).spec_bytes().len() as int) - range_start(start) <= old(self).spec_capacity() - old(self).spec_bytes().len(),
        ensures
            final(self).wf(),
            final(self).spec_capacity() == old(self).spec_capacity(),
            final(self).spec_buffer() == old(self).spec_buffer(),
            ({
                let b = old(self).spec_bytes();
                let (s, e) = (range_start(start), range_end(end, b.len() as int));
                &&& final(self).spec_bytes() == b + b.subrange(s, e)
                &&& final(self)@ == old(self)@ + decode_utf8(b.subrange(s, e))
            }),
    {
        let _ = self.try_extend_from_within(start, end);
    }

    /// Appends `additional` zero bytes, which are `'\0'` characters; fails,
    /// with no change, when they do not fit in the spare capacity.
    pub fn try_extend_zeroed(&mut self, additional: usize) -> (r: Result<(), AllocError>)
        requires
            old(self).wf(),
        ensures
            final(self).wf(),
            final(self).spec_capacity() == old(self).spec_capacity(),
            final(self).spec_buffer() == old(self).spec_buffer(),
            r is Ok <==> additional <= old(self).spec_capacity() - old(self).spec_bytes().len(),
            r is Err ==> *final(self) == *old(self),
            r is Ok ==> final(self).spec_bytes() == old(self).spec_bytes() + Seq::new(additional as nat, |i: int| 0u8)
                && final(self)@ == old(self)@ + Seq::new(additional as nat, |i: int| '\0'),
    {
        proof {
            old(self).lemma_wf();
        }
        if additional > self.vec.capacity() - self.vec.len() {
            return Err(AllocError);
        }
        let zero = encode_char('\0');
        proof {
            assert(('\0' as u32) == 0);
            assert((0u32 & 0x7F) as u8 == 0) by (bit_vector);
            assert(zero@ =~= seq![0u8]);
        }
        let mut k: usize = 0;
        while k < additional
            invariant
                k <= additional,
                additional <= old(self).spec_capacity() - old(self).spec_bytes().len(),
                zero@ == seq![0u8],
                valid_utf8(zero@),
                decode_utf8(zero@) == seq!['\0'],
                self.wf(),
                self.spec_capacity() == old(self).spec_capacity(),
                self.spec_buffer() == old(self).spec_buffer(),
                self.spec_bytes() == old(self).spec_bytes() + Seq::new(k as nat, |i: int| 0u8),
                self@ == old(self)@ + Seq::new(k as nat, |i: int| '\0'),
            decreases additional - k,
        {
            self.push_bytes(zero.as_slice());
            proof {
                assert(Seq::new(k as nat, |i: int| 0u8) + seq![0u8] =~= Seq::new((k + 1) as nat, |i: int| 0u8));
                assert(Seq::new(k as nat, |i: int| '\0') + seq!['\0'] =~= Seq::new((k + 1) as nat, |i: int| '\0'));
                assert(old(self).spec_bytes() + Seq::new(k as nat, |i: int| 0u8) + seq![0u8] =~= old(self).spec_bytes() + Seq::new((k + 1) as nat, |i: int| 0u8));
                assert(old(self)@ + Seq::new(k as nat, |i: int| '\0') + seq!['\0'] =~= old(self)@ + Seq::new((k + 1) as nat, |i: int| '\0'));
            }
            k += 1;
        }
        Ok(())
    }

    /// Appends `additional` zero bytes, which fit in the spare capacity.
    pub fn extend_zeroed(&mut self, additional: usize)
        requires
            old(self).wf(),
            additional <= old(self).spec_capacity() - old(self).spec_bytes().len(),
        ensures
            final(self).wf(),
            final(self).spec_capacity() == old(self).spec_capacity(),
            final(self).spec_buffer() == old(self).spec_buffer(),
            final(self).spec_bytes() == old(self).spec_bytes() + Seq::new(additional as nat, |i: int| 0u8),
            final(self)@ == old(self)@ + Seq::new(additional as nat, |i: int| '\0'),
    {
        let _ = self.try_extend_zeroed(additional);
    }

    /// Replaces the bytes in the range, which must lie within the string and
    /// start and end at character boundaries, with `replace_with`; fails, with
    /// no change, when the string would grow by more than the spare capacity.
    pub fn try_replace_range(&mut self, start: Bound, end: Bound, replace_with: &str) -> (r: Result<(), AllocError>)
        requires
            old(self).wf(),
            range_in_bounds(start, end, old(self).spec_bytes().len() as int),
            is_char_boundary(old(self).spec_bytes(), range_start(start)),
            is_char_boundary(old(self).spec_bytes(), range_end(end, old(self).spec_bytes().len() as int)),
        ensures
            final(self).wf(),
            final(self).spec_capacity() == old(self).spec_capacity(),
            final(self).spec_buffer() == old(self).spec_buffer(),
            ({
                let b = old(self).spec_bytes();
                let (s, e) = (range_start(start), range_end(end, b.len() as int));
                let given = replace_with.spec_bytes().len() as int;
                let growth = if given > e - s { given - (e - s) } else { 0 };
                &&& r is Ok <==> growth <= old(self).spec_capacity() - b.len()
                &&& r is Err ==> *final(self) == *old(self)
                &&& r is Ok ==> final(self).spec_bytes() == b.subrange(0, s) + replace_with.spec_bytes() + b.subrange(e, b.len() as int)
                    && final(self)@ == decode_utf8(b.subrange(0, s)) + replace_with@ + decode_utf8(b.subrange(e, b.len() as int))
            }),
    {
        proof {
            old(self).lemma_wf();
        }
        let ghost b = old(self).spec_bytes();
        let ghost n = b.len() as int;
        let (s, e) = slice_range(start, end, self.vec.len());
        let bytes = replace_with.as_bytes();
        let range_len = e - s;
        let additional = bytes.len().saturating_sub(range_len);
        if additional > self.vec.capacity() - self.vec.len() {
            return Err(AllocError);
        }
        proof {
            encode_utf8_valid_utf8(replace_with@);
            encode_utf8_decode_utf8(replace_with@);
            valid_utf8_split(b, s as int);
            valid_utf8_split(b, e as int);
            lemma_decode_concat(b.subrange(0, s as int), bytes@);
            lemma_decode_concat(b.subrange(0, s as int) + bytes@, b.subrange(e as int, n));
        }
        let tail = self.vec.drain(Bound::Included(e), Bound::Unbounded);
        proof {
            assert(self.vec@ =~= b.subrange(0, e as int));
        }
        self.vec.truncate(s);
        proof {
            assert(self.vec@ =~= b.subrange(0, s as int));
        }
        self.vec.extend_from_slice_copy(bytes);
        self.vec.append(tail);
        proof {
            assert(self.vec@ =~= b.subrange(0, s as int) + bytes@ + b.subrange(e as int, n));
            self.lemma_wf();
        }
        Ok(())
    }

    /// Replaces the bytes in the range with `replace_with`, when the string
    /// grows by no more than the spare capacity; see
    /// [`try_replace_range`](Self::try_replace_range).
    pub fn replace_range(&mut self, start: Bound, end: Bound, replace_with: &str)
        requires
            old(self).wf(),
            range_in_bounds(start, end, old(self).spec_bytes().len() as int),
            is_char_boundary(old(self).spec_bytes(), range_start(start)),
            is_char_boundary(old(self).spec_bytes(), range_end(end, old(self).spec_bytes().len() as int)),
            ({
                let (s, e) = (range_start(start), range_end(end, old(self).spec_bytes().len() as int));
                let given = replace_with.spec_bytes().len() as int;
                (if given > e - s { given - (e - s) } else { 0 }) <= old(self).spec_capacity() - old(self).spec_bytes().len()
            }),
        ensures
            final(self).wf(),
            final(self).spec_capacity() == old(self).spec_capacity(),
            final(self).spec_buffer() == old(self).spec_buffer(),
            ({
                let b = old(self).spec_bytes();
                let (s, e) = (range_start(start), range_end(end, b.len() as int));
                &&& final(self).spec_bytes() == b.subrange(0, s) + replace_with.spec_bytes() + b.subrange(e, b.len() as int)
                &&& final(self)@ == decode_utf8(b.subrange(0, s)) + replace_with@ + decode_utf8(b.subrange(e, b.len() as int))
            }),
    {
        let _ = self.try_replace_range(start, end, replace_with);
    }

    /// Splits the range off the string and returns it as a string of its own;
    /// the range must lie within the string and start and end at character
    /// boundaries. The buffer is divided between the two
    /// strings as for a vector of bytes
    /// ([`split_off_capacities`](crate::fixed_bump_vec::split_off_capacities)).
    pub fn split_off(&mut self, start: Bound, end: Bound) -> (r: Self)
        requires
            old(self).wf(),
            range_in_bounds(start, end, old(self).spec_bytes().len() as int),
            is_char_boundary(old(self).spec_bytes(), range_start(start)),
            is_char_boundary(old(self).spec_bytes(), range_end(end, old(self).spec_bytes().len() as int)),
        ensures
            final(self).wf(),
            r.wf(),
            ({
                let b = old(self).spec_bytes();
                let n = b.len() as int;
                let (s, e) = (range_start(start), range_end(end, n));
                let caps = crate::fixed_bump_vec::split_off_capacities::<u8>(n, old(self).spec_capacity() as int, s, e);
                &&& r.spec_bytes() == b.subrange(s, e)
                &&& final(self).spec_bytes() == b.subrange(0, s) + b.subrange(e, n)
                &&& final(self).spec_capacity() == caps.0
                &&& r.spec_capacity() == caps.1
                &&& final(self).spec_buffer() == old(self).spec_buffer() + crate::fixed_bump_vec::split_off_offsets(n, s, e).0
                &&& (s != e || e == n || s == 0) ==> r.spec_buffer() == old(self).spec_buffer()
                    + crate::fixed_bump_vec::split_off_offsets(n, s, e).1
                &&& s != e ==> old(self)@ == decode_utf8(b.subrange(0, s)) + r@ + decode_utf8(b.subrange(e, n))
                    && final(self)@ == decode_utf8(b.subrange(0, s)) + decode_utf8(b.subrange(e, n))
                &&& s == e ==> r@.len() == 0 && final(self)@ == old(self)@
            }),
    {
        proof {
            old(self).lemma_wf();
        }
        let ghost b = old(self).spec_bytes();
        let ghost n = b.len() as int;
        let ghost s = range_start(start);
        let ghost e = range_end(end, n);
        proof {
            if s == e {
                assert(b.subrange(s, e) =~= Seq::<u8>::empty());
                assert(b.subrange(0, s) + b.subrange(e, n) =~= b);
                assert(decode_utf8(Seq::<u8>::empty()) =~= Seq::<char>::empty());
                if s == 0 || s == n {
                    is_char_boundary_start_end_of_seq(b);
                }
            }
            if s != e || s == 0 || s == n {
                lemma_valid_between(b, s, e);
                lemma_valid_without(b, s, e);
                valid_utf8_split(b, s);
                valid_utf8_split(b, e);
                lemma_decode_concat(b.subrange(0, s), b.subrange(e, n));
                lemma_decode_concat(b.subrange(0, s), b.subrange(s, e));
                lemma_decode_concat(b.subrange(0, s) + b.subrange(s, e), b.subrange(e, n));
                assert(b.subrange(0, s) + b.subrange(s, e) + b.subrange(e, n) =~= b);
            }
        }
        let taken = self.vec.split_off(start, end);
        let r = FixedBumpString { vec: taken };
        proof {
            self.lemma_wf();
            r.lemma_wf();
        }
        r
    }

    /// Removes the bytes in the range, which must lie within the string and
    /// start and end at character boundaries, and returns their characters
    /// as a drain.
    pub fn drain(&mut self, start: Bound, end: Bound) -> (r: Drain)
        requires
            old(self).wf(),
            range_in_bounds(start, end, old(self).spec_bytes().len() as int),
            is_char_boundary(old(self).spec_bytes(), range_start(start)),
            is_char_boundary(old(self).spec_bytes(), range_end(end, old(self).spec_bytes().len() as int)),
        ensures
            final(self).wf(),
            r.wf(),
            final(self).spec_capacity() == old(self).spec_capacity(),
            final(self).spec_buffer() == old(self).spec_buffer(),
            ({
                let b = old(self).spec_bytes();
                let (s, e) = (range_start(start), range_end(end, b.len() as int));
                &&& r.spec_bytes() == b.subrange(s, e)
                &&& final(self).spec_bytes() == b.subrange(0, s) + b.subrange(e, b.len() as int)
                &&& old(self)@ == decode_utf8(b.subrange(0, s)) + r@ + decode_utf8(b.subrange(e, b.len() as int))
                &&& final(self)@ == decode_utf8(b.subrange(0, s)) + decode_utf8(b.subrange(e, b.len() as int))
            }),
    {
        proof {
            old(self).lemma_wf();
        }
        let ghost b = old(self).spec_bytes();
        let ghost n = b.len() as int;
        let ghost s = range_start(start);
        let ghost e = range_end(end, n);
        proof {
            lemma_valid_between(b, s, e);
            lemma_valid_without(b, s, e);
            valid_utf8_split(b, s);
            valid_utf8_split(b, e);
            lemma_decode_concat(b.subrange(0, s), b.subrange(e, n));
            lemma_decode_concat(b.subrange(0, s), b.subrange(s, e));
            lemma_decode_concat(b.subrange(0, s) + b.subrange(s, e), b.subrange(e, n));
            assert(b.subrange(0, s) + b.subrange(s, e) + b.subrange(e, n) =~= b);
        }
        let removed = self.vec.drain(start, end);
        proof {
            self.lemma_wf();
        }
        Drain::new(removed)
    }

    /// Keeps the characters for which `f` returns true, in order; `f` is
    /// called once on each character, in order.
    pub fn retain<F: FnMut(char) -> bool>(&mut self, f: F)
        requires
            old(self).wf(),
            forall|c: char| call_requires(f, (c,)),
        ensures
            final(self).wf(),
            final(self).spec_capacity() == old(self).spec_capacity(),
            final(self).spec_buffer() == old(self).spec_buffer(),
            exists|keep: Seq<bool>|
                keep.len() == old(self)@.len() && (forall|i: int|
                    0 <= i < old(self)@.len() ==> call_ensures(f, (old(self)@[i],), #[trigger] keep[i]))
                    && final(self)@ == kept(old(self)@, keep),
    {
        proof {
            old(self).lemma_wf();
            old(self).lemma_view();
        }
        let ghost b = old(self).spec_bytes();
        let ghost chars = old(self)@;
        let n = self.vec.len();
        let ghost f0 = f;
        let mut f = f;
        let mut out: Vec<u8> = Vec::new();
        let ghost mut d: Seq<bool> = Seq::empty();
        let mut p: usize = 0;
        let ghost mut i: int = 0;
        proof {
            is_char_boundary_start_end_of_seq(b);
            assert(b.take(0) =~= Seq::<u8>::empty());
            assert(decode_utf8(Seq::<u8>::empty()) =~= Seq::<char>::empty());
            assert(out@ =~= Seq::<u8>::empty());
            assert(kept(chars.take(0), d) =~= Seq::<char>::empty());
        }
        while p < n
            invariant
                f == f0,
                forall|c: char| call_requires(f, (c,)),
                *self == *old(self),
                b == self.vec@,
                chars == old(self)@,
                chars == decode_utf8(b),
                valid_utf8(b),
                n == b.len(),
                p <= n,
                is_char_boundary(b, p as int),
                decode_utf8(b.take(p as int)) == chars.take(i),
                0 <= i <= chars.len(),
                d.len() == i,
                forall|k: int| 0 <= k < i ==> call_ensures(f0, (chars[k],), #[trigger] d[k]),
                valid_utf8(out@),
                decode_utf8(out@) == kept(chars.take(i), d),
                out@.len() <= p,
            decreases n - p,
        {
            let (c, l) = decode_char_at(self.vec.as_slice(), p);
            let ghost q = p + l;
            proof {
                lemma_decode_step(b, p as int);
                char_u32_cast(c, decode_first_scalar(b.subrange(p as int, n as int)));
                valid_utf8_split(b, q);
                decode_utf8_split(b, q);
                assert(b.subrange(0, q) =~= b.take(q));
                assert(chars.take(i + 1) =~= decode_utf8(b.take(q)));
                assert(chars[i] == c);
            }
            let keep_it = f(c);
            if keep_it {
                let mut enc = encode_char(c);
                proof {
                    lemma_decode_concat(out@, enc@);
                }
                out.append(&mut enc);
            }
            proof {
                let d2 = d.push(keep_it);
                crate::fixed_bump_vec::lemma_kept_push(chars, d2, i);
                assert(d2.take(i) =~= d);
                assert(d2.take(i + 1) =~= d2);
                assert(chars.take(i + 1).take(i) =~= chars.take(i));
                d = d2;
                i = i + 1;
            }
            p = p + l;
        }
        proof {
            assert(b.take(n as int) =~= b);
            assert(chars.take(i) =~= chars);
        }
        self.vec.clear();
        self.vec.extend_from_slice_copy(out.as_slice());
        proof {
            assert(self.vec@ =~= out@);
            self.lemma_wf();
        }
    }
}

impl Default for FixedBumpString {
    fn default() -> (r: Self)
        ensures
            r.wf(),
            r@ == Seq::<char>::empty(),
            r.spec_bytes() == Seq::<u8>::empty(),
            r.spec_capacity() == 0,
    {
        Self::new()
    }
}

} // verus!
