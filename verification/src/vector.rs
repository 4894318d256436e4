//! The dense vector and its codec: a fixed-order sequence of 32-bit float
//! bit patterns with a 16-bit dimension header on the wire.

use vstd::prelude::*;
use bytes::BytesMut;
use crate::buffer::bytes_mut_new;
use crate::buffer::bytes_view;
use crate::buffer::put_u16_be;
use crate::buffer::put_u32_be;
use crate::error::CodecError;
use crate::wire::lemma_u16_round_trip;
use crate::wire::lemma_u32_round_trip;
use crate::wire::lemma_words_bytes_index;
use crate::wire::lemma_words_bytes_len;
use crate::wire::lemma_words_bytes_push;
use crate::wire::be_u16;
use crate::wire::be_u32;
use crate::wire::f32_bits_eq;
use crate::wire::f32_bits_equal;
use crate::wire::u16_at;
use crate::wire::u16_bytes;
use crate::wire::u32_at;
use crate::wire::words_at;
use crate::wire::words_bytes;

verus! {

/// A dense vector: one 32-bit float bit pattern per dimension slot, in
/// order. The codec is transparent to the bit patterns themselves, so NaN
/// and infinity payloads pass through unchanged.
#[derive(Clone, Debug)]
pub struct Vector(pub(crate) Vec<u32>);

impl View for Vector {
    type V = Seq<u32>;

    closed spec fn view(&self) -> Seq<u32> {
        self.0@
    }
}

impl From<Vec<u32>> for Vector {
    fn from(v: Vec<u32>) -> (r: Self) {
        Vector(v)
    }
}

impl vstd::std_specs::convert::FromSpecImpl<Vec<u32>> for Vector {
    open spec fn obeys_from_spec() -> bool {
        true
    }

    closed spec fn from_spec(v: Vec<u32>) -> Self {
        Vector(v)
    }
}

impl From<Vector> for Vec<u32> {
    fn from(v: Vector) -> (r: Self) {
        v.0
    }
}

impl vstd::std_specs::convert::FromSpecImpl<Vector> for Vec<u32> {
    open spec fn obeys_from_spec() -> bool {
        true
    }

    closed spec fn from_spec(v: Vector) -> Self {
        v.0
    }
}

/// Law: construction stores the sequence unchanged. The vector that
/// `Vector::from` builds views as exactly the source's contents, in order,
/// with no validation or normalization.
pub proof fn lemma_vector_from_stores(v: Vec<u32>)
    ensures
        (<Vector as vstd::std_specs::convert::FromSpec<Vec<u32>>>::from_spec(v))@ == v@,
{
}

/// Law: extraction returns the stored elements. The sequence that
/// `Vec::from` yields is exactly what the vector views as, so it inverts
/// `Vector::from`.
pub proof fn lemma_vec_from_vector(v: Vector)
    ensures
        (<Vec<u32> as vstd::std_specs::convert::FromSpec<Vector>>::from_spec(v))@ == v@,
{
}

impl PartialEq for Vector {
    /// Element-wise IEEE-754 float equality: the lengths agree and every
    /// pair of elements compares equal as 32-bit floats, so a NaN element
    /// makes a vector unequal even to itself, and the two zero encodings
    /// compare equal.
    fn eq(&self, other: &Self) -> (r: bool) {
        let n = self.0.len();
        if n != other.0.len() {
            return false;
        }
        let mut i: usize = 0;
        while i < n
            invariant
                i <= n,
                n == self@.len() == other@.len(),
                forall|j: int| 0 <= j < i ==> #[trigger] f32_bits_eq(self@[j], other@[j]),
            decreases n - i,
        {
            if !f32_bits_equal(self.0[i], other.0[i]) {
                return false;
            }
            i += 1;
        }
        true
    }
}

impl vstd::std_specs::cmp::PartialEqSpecImpl for Vector {
    open spec fn obeys_eq_spec() -> bool {
        true
    }

    open spec fn eq_spec(&self, other: &Self) -> bool {
        self@.len() == other@.len() && forall|i: int|
            0 <= i < self@.len() ==> #[trigger] f32_bits_eq(self@[i], other@[i])
    }
}

/// The wire image of a dense vector: 16-bit dimension, 16-bit reserved
/// zero, then the elements, all big-endian.
pub open spec fn spec_encode_dense(elems: Seq<u32>) -> Seq<u8>
    recommends
        elems.len() <= 0xFFFF,
{
    u16_bytes(elems.len() as u16) + u16_bytes(0) + words_bytes(elems)
}

/// What decoding a dense wire buffer yields: the parsed elements, or the
/// error the buffer's defect forces.
pub open spec fn spec_decode_dense(b: Seq<u8>) -> Result<Seq<u32>, CodecError> {
    if b.len() < 4 {
        Err(CodecError::TruncatedInput)
    } else if u16_at(b, 2) != 0 {
        Err(CodecError::UnexpectedReservedValue)
    } else if b.len() < 4 + 4 * (u16_at(b, 0) as int) {
        Err(CodecError::TruncatedInput)
    } else {
        Ok(words_at(b, 4, u16_at(b, 0) as int))
    }
}

impl Vector {
    /// A copy of the stored bit patterns.
    pub fn to_vec(&self) -> (r: Vec<u32>)
        ensures
            r@ == self@,
    {
        let mut r: Vec<u32> = Vec::new();
        let mut i: usize = 0;
        while i < self.0.len()
            invariant
                i <= self@.len(),
                r@ == self@.take(i as int),
            decreases self@.len() - i,
        {
            r.push(self.0[i]);
            proof {
                assert(self@.take(i + 1 as int) =~= self@.take(i as int).push(self@[i as int]));
            }
            i += 1;
        }
        proof {
            assert(self@.take(self@.len() as int) =~= self@);
        }
        r
    }

    /// Appends the wire image of this vector to `w`: dimension, reserved
    /// zero, then every element, big-endian. Rejects a vector whose
    /// dimension exceeds the 16-bit header.
    pub fn to_sql(&self, w: &mut BytesMut) -> (r: Result<(), CodecError>)
        requires
            self@.len() <= 0xFFFF ==> bytes_view(*old(w)).len() + 4 + 4 * self@.len()
                <= isize::MAX as int,
        ensures
            self@.len() <= 0xFFFF ==> r == Ok::<(), CodecError>(()) && bytes_view(*final(w))
                == bytes_view(*old(w)) + spec_encode_dense(self@),
            self@.len() > 0xFFFF ==> r == Err::<(), CodecError>(CodecError::Overflow)
                && bytes_view(*final(w)) == bytes_view(*old(w)),
    {
        let dim = self.0.len();
        if dim > 0xFFFF {
            return Err(CodecError::Overflow);
        }
        let ghost w0: Seq<u8> = bytes_view(*w);
        put_u16_be(w, dim as u16);
        put_u16_be(w, 0);
        let ghost header: Seq<u8> = u16_bytes(dim as u16) + u16_bytes(0);
        proof {
            assert(bytes_view(*w) =~= w0 + header + words_bytes(self@.take(0)));
        }
        let mut i: usize = 0;
        while i < dim
            invariant
                i <= dim,
                dim == self@.len() <= 0xFFFF,
                header == u16_bytes(dim as u16) + u16_bytes(0),
                w0.len() + 4 + 4 * dim <= isize::MAX as int,
                bytes_view(*w) == w0 + header + words_bytes(self@.take(i as int)),
            decreases dim - i,
        {
            proof {
                lemma_words_bytes_len(self@.take(i as int));
            }
            put_u32_be(w, self.0[i]);
            proof {
                lemma_words_bytes_push(self@.take(i as int), self@[i as int]);
                assert(self@.take(i + 1 as int) =~= self@.take(i as int).push(self@[i as int]));
                assert(bytes_view(*w) =~= w0 + header + words_bytes(self@.take(i + 1 as int)));
            }
            i += 1;
        }
        proof {
            assert(self@.take(dim as int) =~= self@);
            assert(bytes_view(*w) =~= w0 + spec_encode_dense(self@));
        }
        Ok(())
    }

    /// Encodes this vector into a fresh buffer and hands it over: the same
    /// wire image `to_sql` appends, owned by the caller.
    pub fn encode(&self) -> (r: Result<BytesMut, CodecError>)
        ensures
            self@.len() <= 0xFFFF ==> (r matches Ok(b) && bytes_view(b) == spec_encode_dense(
                self@,
            )),
            self@.len() > 0xFFFF ==> r == Err::<BytesMut, CodecError>(CodecError::Overflow),
    {
        if self.0.len() > 0xFFFF {
            return Err(CodecError::Overflow);
        }
        let mut w = bytes_mut_new();
        match self.to_sql(&mut w) {
            Ok(()) => Ok(w),
            Err(e) => Err(e),
        }
    }

    /// Decodes a dense wire buffer: reads the 16-bit dimension, insists the
    /// reserved slot is zero, then reads that many elements. Trailing bytes
    /// beyond the declared elements are ignored.
    pub fn from_sql(buf: &[u8]) -> (r: Result<Vector, CodecError>)
        ensures
            match r {
                Ok(v) => spec_decode_dense(buf@) == Ok::<Seq<u32>, CodecError>(v@),
                Err(e) => spec_decode_dense(buf@) == Err::<Seq<u32>, CodecError>(e),
            },
    {
        if buf.len() < 4 {
            return Err(CodecError::TruncatedInput);
        }
        let dim = be_u16(buf[0], buf[1]) as usize;
        let unused = be_u16(buf[2], buf[3]);
        if unused != 0 {
            return Err(CodecError::UnexpectedReservedValue);
        }
        if buf.len() < 4 + 4 * dim {
            return Err(CodecError::TruncatedInput);
        }
        let mut vec: Vec<u32> = Vec::new();
        let mut i: usize = 0;
        while i < dim
            invariant
                i <= dim,
                dim == u16_at(buf@, 0) as int,
                4 + 4 * dim <= buf@.len(),
                vec@.len() == i,
                forall|j: int| 0 <= j < i ==> vec@[j] == u32_at(buf@, 4 + 4 * j),
            decreases dim - i,
        {
            let s = 4 + 4 * i;
            vec.push(be_u32(buf[s], buf[s + 1], buf[s + 2], buf[s + 3]));
            i += 1;
        }
        proof {
            assert(vec@ =~= words_at(buf@, 4, dim as int));
        }
        Ok(Vector(vec))
    }
}

/// Law: decoding the encoding of any dense vector that fits the 16-bit
/// dimension header yields the vector back, element for element.
pub proof fn lemma_dense_round_trip(elems: Seq<u32>)
    requires
        elems.len() <= 0xFFFF,
    ensures
        spec_decode_dense(spec_encode_dense(elems)) == Ok::<Seq<u32>, CodecError>(elems),
{
    let b = spec_encode_dense(elems);
    lemma_words_bytes_len(elems);
    assert(b.len() == 4 + 4 * elems.len());
    let d16 = elems.len() as u16;
    lemma_u16_round_trip(d16);
    assert(u16_at(b, 0) == d16);
    lemma_u16_round_trip(0);
    assert(u16_at(b, 2) == 0);
    assert forall|i: int| 0 <= i < elems.len() implies u32_at(b, 4 + 4 * i) == elems[i] by {
        lemma_words_bytes_index(elems, i);
        lemma_u32_round_trip(elems[i]);
        assert(words_bytes(elems)[4 * i] == words_bytes(elems).subrange(4 * i, 4 * i + 4)[0]);
        assert(words_bytes(elems)[4 * i + 1] == words_bytes(elems).subrange(4 * i, 4 * i + 4)[1]);
        assert(words_bytes(elems)[4 * i + 2] == words_bytes(elems).subrange(4 * i, 4 * i + 4)[2]);
        assert(words_bytes(elems)[4 * i + 3] == words_bytes(elems).subrange(4 * i, 4 * i + 4)[3]);
    }
    assert(words_at(b, 4, elems.len() as int) =~= elems);
}

} // verus!
