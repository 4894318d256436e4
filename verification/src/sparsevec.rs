//! The sparse vector and its codec: a logical dimension plus parallel
//! index/value sequences, carried on the wire as a 12-byte header followed
//! by the indices and then the values, all big-endian.

use vstd::prelude::*;
use vstd::std_specs::cmp::PartialEqSpec;
use bytes::BytesMut;
use crate::buffer::bytes_mut_new;
use crate::buffer::bytes_view;
use crate::buffer::put_i32_be;
use crate::buffer::put_u32_be;
use crate::error::CodecError;
use crate::wire::lemma_i32_bits_round_trip;
use crate::wire::lemma_ints_bytes_index;
use crate::wire::lemma_ints_bytes_len;
use crate::wire::lemma_ints_bytes_push;
use crate::wire::lemma_u32_round_trip;
use crate::wire::lemma_words_bytes_index;
use crate::wire::lemma_words_bytes_len;
use crate::wire::lemma_words_bytes_push;
use crate::wire::be_u32;
use crate::wire::f32_bits_zero;
use crate::wire::ints_at;
use crate::wire::ints_bytes;
use crate::wire::u32_at;
use crate::wire::u32_bytes;
use crate::wire::words_at;
use crate::wire::words_bytes;

verus! {

/// A sparse vector: `dim` logical slots, of which the slots named by
/// `indices` hold the bit patterns in `values` and all others hold zero.
#[derive(Clone, Debug)]
pub struct SparseVector {
    pub(crate) dim: i32,
    pub(crate) indices: Vec<i32>,
    pub(crate) values: Vec<u32>,
}

/// The mathematical shadow of a `SparseVector`.
#[verifier::ext_equal]
pub ghost struct SparseView {
    pub dim: i32,
    pub indices: Seq<i32>,
    pub values: Seq<u32>,
}

impl View for SparseVector {
    type V = SparseView;

    closed spec fn view(&self) -> SparseView {
        SparseView { dim: self.dim, indices: self.indices@, values: self.values@ }
    }
}

impl SparseView {
    /// The structural invariant: one stored value per stored index.
    pub open spec fn wf(self) -> bool {
        self.indices.len() == self.values.len()
    }
}

/// The positions of a dense sequence holding a non-zero bit pattern, in
/// ascending order.
pub open spec fn dense_indices(d: Seq<u32>) -> Seq<i32>
    decreases d.len(),
{
    if d.len() == 0 {
        Seq::empty()
    } else if f32_bits_zero(d.last()) {
        dense_indices(d.drop_last())
    } else {
        dense_indices(d.drop_last()).push((d.len() - 1) as i32)
    }
}

/// The non-zero bit patterns of a dense sequence, in position order.
pub open spec fn dense_values(d: Seq<u32>) -> Seq<u32>
    decreases d.len(),
{
    if d.len() == 0 {
        Seq::empty()
    } else if f32_bits_zero(d.last()) {
        dense_values(d.drop_last())
    } else {
        dense_values(d.drop_last()).push(d.last())
    }
}

/// `dense_indices` and `dense_values` pick out the same positions, so they
/// have the same length, and never more entries than slots.
pub proof fn lemma_dense_pairs_len(d: Seq<u32>)
    ensures
        dense_indices(d).len() == dense_values(d).len(),
        dense_indices(d).len() <= d.len(),
    decreases d.len(),
{
    if d.len() > 0 {
        lemma_dense_pairs_len(d.drop_last());
    }
}

/// Law: the pairs a dense sequence derives are in-range and strictly
/// ascending, so the indices are unique and below the dimension.
pub proof fn lemma_dense_indices_ascending(d: Seq<u32>)
    requires
        d.len() <= 0x7fff_ffff,
    ensures
        forall|i: int| 0 <= i < dense_indices(d).len() ==> 0 <= #[trigger] dense_indices(d)[i]
            < d.len(),
        forall|i: int, j: int| 0 <= i < j < dense_indices(d).len() ==> dense_indices(d)[i]
            < dense_indices(d)[j],
    decreases d.len(),
{
    if d.len() > 0 {
        let p = d.drop_last();
        lemma_dense_indices_ascending(p);
        if f32_bits_zero(d.last()) {
            assert(dense_indices(d) == dense_indices(p));
        } else {
            let s = dense_indices(p).push((d.len() - 1) as i32);
            assert(dense_indices(d) == s);
            assert forall|i: int| 0 <= i < s.len() implies 0 <= #[trigger] s[i] < d.len() by {
                if i < s.len() - 1 {
                    assert(s[i] == dense_indices(p)[i]);
                }
            }
            assert forall|i: int, j: int| 0 <= i < j < s.len() implies s[i] < s[j] by {
                if j == s.len() - 1 {
                    assert(s[i] == dense_indices(p)[i]);
                    assert(s[i] < p.len());
                } else {
                    assert(s[i] == dense_indices(p)[i]);
                    assert(s[j] == dense_indices(p)[j]);
                }
            }
        }
    }
}

/// The wire image of a sparse vector: dimension, entry count and reserved
/// zero words, then the indices, then the values, all big-endian.
pub open spec fn spec_encode_sparse(v: SparseView) -> Seq<u8>
    recommends
        v.wf(),
        v.indices.len() <= 0x7fff_ffff,
{
    u32_bytes(v.dim as u32) + u32_bytes(v.indices.len() as u32) + u32_bytes(0) + ints_bytes(
        v.indices,
    ) + words_bytes(v.values)
}

/// What decoding a sparse wire buffer yields: the parsed vector, or the
/// error the buffer's defect forces. Index order and uniqueness are not
/// re-validated; the producer is trusted.
pub open spec fn spec_decode_sparse(b: Seq<u8>) -> Result<SparseView, CodecError> {
    if b.len() < 12 {
        Err(CodecError::TruncatedInput)
    } else if u32_at(b, 8) != 0 {
        Err(CodecError::UnexpectedReservedValue)
    } else if (u32_at(b, 4) as i32) < 0 || b.len() < 12 + 8 * (u32_at(b, 4) as i32 as int) {
        Err(CodecError::TruncatedInput)
    } else {
        let nnz = u32_at(b, 4) as i32 as int;
        Ok(
            SparseView {
                dim: u32_at(b, 0) as i32,
                indices: ints_at(b, 12, nnz),
                values: words_at(b, 12 + 4 * nnz, nnz),
            },
        )
    }
}

impl SparseVector {
    /// Builds a sparse vector from its explicit parts. The caller supplies
    /// one value per index; index order is taken as given.
    pub fn new(dim: i32, indices: Vec<i32>, values: Vec<u32>) -> (r: SparseVector)
        requires
            indices@.len() == values@.len(),
        ensures
            r@ == (SparseView { dim, indices: indices@, values: values@ }),
            r@.wf(),
    {
        SparseVector { dim, indices, values }
    }

    /// Derives the sparse form of a dense sequence: the dimension is the
    /// sequence length, and the stored pairs are exactly the positions
    /// holding a non-zero bit pattern, in ascending index order.
    pub fn from_dense(dense: &[u32]) -> (r: SparseVector)
        requires
            dense@.len() <= 0x7fff_ffff,
        ensures
            r@.dim == dense@.len() as i32,
            r@.indices == dense_indices(dense@),
            r@.values == dense_values(dense@),
            r@.wf(),
    {
        let n = dense.len();
        let mut indices: Vec<i32> = Vec::new();
        let mut values: Vec<u32> = Vec::new();
        let mut i: usize = 0;
        while i < n
            invariant
                i <= n == dense@.len() <= 0x7fff_ffff,
                indices@ == dense_indices(dense@.take(i as int)),
                values@ == dense_values(dense@.take(i as int)),
            decreases n - i,
        {
            let x = dense[i];
            if !(x == 0 || x == 0x8000_0000) {
                indices.push(i as i32);
                values.push(x);
            }
            proof {
                let t = dense@.take(i + 1 as int);
                assert(t.drop_last() =~= dense@.take(i as int));
                assert(t.last() == dense@[i as int]);
            }
            i += 1;
        }
        proof {
            assert(dense@.take(n as int) =~= dense@);
            lemma_dense_pairs_len(dense@);
        }
        SparseVector { dim: n as i32, indices, values }
    }

    /// The logical dimension: total slots, stored or not.
    pub fn dimensions(&self) -> (r: i32)
        ensures
            r == self@.dim,
    {
        self.dim
    }

    /// The stored indices, in the order held.
    pub fn indices(&self) -> (r: &Vec<i32>)
        ensures
            r@ == self@.indices,
    {
        &self.indices
    }

    /// The stored values, parallel to the indices.
    pub fn values(&self) -> (r: &Vec<u32>)
        ensures
            r@ == self@.values,
    {
        &self.values
    }

    /// Appends the wire image of this vector to `w`: dimension, entry
    /// count, reserved zero, the indices, then the values, big-endian.
    /// Rejects a vector whose entry count exceeds the signed 32-bit field.
    pub fn to_sql(&self, w: &mut BytesMut) -> (r: Result<(), CodecError>)
        requires
            self@.wf(),
            self@.indices.len() <= 0x7fff_ffff ==> bytes_view(*old(w)).len() + 12 + 8
                * self@.indices.len() <= isize::MAX as int,
        ensures
            self@.indices.len() <= 0x7fff_ffff ==> r == Ok::<(), CodecError>(()) && bytes_view(
                *final(w),
            ) == bytes_view(*old(w)) + spec_encode_sparse(self@),
            self@.indices.len() > 0x7fff_ffff ==> r == Err::<(), CodecError>(CodecError::Overflow)
                && bytes_view(*final(w)) == bytes_view(*old(w)),
    {
        let nnz = self.indices.len();
        if nnz > 0x7fff_ffff {
            return Err(CodecError::Overflow);
        }
        let ghost w0: Seq<u8> = bytes_view(*w);
        put_i32_be(w, self.dim);
        put_i32_be(w, nnz as i32);
        put_i32_be(w, 0);
        let ghost header: Seq<u8> = u32_bytes(self@.dim as u32) + u32_bytes(
            self@.indices.len() as u32,
        ) + u32_bytes(0);
        proof {
            assert((nnz as i32) as u32 == self@.indices.len() as u32);
            assert(bytes_view(*w) =~= w0 + header + ints_bytes(self@.indices.take(0)));
        }
        let mut i: usize = 0;
        while i < nnz
            invariant
                i <= nnz,
                nnz == self@.indices.len() <= 0x7fff_ffff,
                header == u32_bytes(self@.dim as u32) + u32_bytes(self@.indices.len() as u32)
                    + u32_bytes(0),
                w0.len() + 12 + 8 * nnz <= isize::MAX as int,
                bytes_view(*w) == w0 + header + ints_bytes(self@.indices.take(i as int)),
            decreases nnz - i,
        {
            proof {
                lemma_ints_bytes_len(self@.indices.take(i as int));
            }
            put_i32_be(w, self.indices[i]);
            proof {
                lemma_ints_bytes_push(self@.indices.take(i as int), self@.indices[i as int]);
                assert(self@.indices.take(i + 1 as int) =~= self@.indices.take(i as int).push(
                    self@.indices[i as int],
                ));
                assert(bytes_view(*w) =~= w0 + header + ints_bytes(
                    self@.indices.take(i + 1 as int),
                ));
            }
            i += 1;
        }
        proof {
            assert(self@.indices.take(nnz as int) =~= self@.indices);
            lemma_ints_bytes_len(self@.indices);
            assert(bytes_view(*w) =~= w0 + header + ints_bytes(self@.indices) + words_bytes(
                self@.values.take(0),
            ));
        }
        let mut j: usize = 0;
        while j < nnz
            invariant
                j <= nnz,
                nnz == self@.indices.len() == self@.values.len() <= 0x7fff_ffff,
                header == u32_bytes(self@.dim as u32) + u32_bytes(self@.indices.len() as u32)
                    + u32_bytes(0),
                w0.len() + 12 + 8 * nnz <= isize::MAX as int,
                ints_bytes(self@.indices).len() == 4 * nnz,
                bytes_view(*w) == w0 + header + ints_bytes(self@.indices) + words_bytes(
                    self@.values.take(j as int),
                ),
            decreases nnz - j,
        {
            proof {
                lemma_words_bytes_len(self@.values.take(j as int));
            }
            put_u32_be(w, self.values[j]);
            proof {
                lemma_words_bytes_push(self@.values.take(j as int), self@.values[j as int]);
                assert(self@.values.take(j + 1 as int) =~= self@.values.take(j as int).push(
                    self@.values[j as int],
                ));
                assert(bytes_view(*w) =~= w0 + header + ints_bytes(self@.indices) + words_bytes(
                    self@.values.take(j + 1 as int),
                ));
            }
            j += 1;
        }
        proof {
            assert(self@.values.take(nnz as int) =~= self@.values);
            assert(bytes_view(*w) =~= w0 + spec_encode_sparse(self@));
        }
        Ok(())
    }

    /// Encodes this vector into a fresh buffer and hands it over: the same
    /// wire image `to_sql` appends, owned by the caller. Beside the wire
    /// format's own entry-count limit, an image too large for the buffer's
    /// maximal allocation on this machine is rejected the same way.
    pub fn encode(&self) -> (r: Result<BytesMut, CodecError>)
        requires
            self@.wf(),
        ensures
            (self@.indices.len() <= 0x7fff_ffff && 12 + 8 * self@.indices.len() <= isize::MAX
                as int) ==> (r matches Ok(b) && bytes_view(b) == spec_encode_sparse(self@)),
            (self@.indices.len() > 0x7fff_ffff || 12 + 8 * self@.indices.len() > isize::MAX
                as int) ==> r == Err::<BytesMut, CodecError>(CodecError::Overflow),
    {
        let nnz = self.indices.len();
        if nnz > 0x7fff_ffff {
            return Err(CodecError::Overflow);
        }
        if (nnz as u64) * 8 + 12 > (isize::MAX as u64) {
            return Err(CodecError::Overflow);
        }
        let mut w = bytes_mut_new();
        match self.to_sql(&mut w) {
            Ok(()) => Ok(w),
            Err(e) => Err(e),
        }
    }

    /// Decodes a sparse wire buffer: reads the dimension, entry count and
    /// reserved slot, insists the latter is zero, then reads the indices
    /// and values. Index order and uniqueness are not re-validated; the
    /// producer is trusted. Trailing bytes beyond the declared entries are
    /// ignored.
    pub fn from_sql(buf: &[u8]) -> (r: Result<SparseVector, CodecError>)
        ensures
            match r {
                Ok(v) => spec_decode_sparse(buf@) == Ok::<SparseView, CodecError>(v@) && v@.wf(),
                Err(e) => spec_decode_sparse(buf@) == Err::<SparseView, CodecError>(e),
            },
    {
        if buf.len() < 12 {
            return Err(CodecError::TruncatedInput);
        }
        let dim = #[verifier::truncate] (be_u32(buf[0], buf[1], buf[2], buf[3]) as i32);
        let nnz_raw = #[verifier::truncate] (be_u32(buf[4], buf[5], buf[6], buf[7]) as i32);
        let unused = be_u32(buf[8], buf[9], buf[10], buf[11]);
        if unused != 0 {
            return Err(CodecError::UnexpectedReservedValue);
        }
        if nnz_raw < 0 {
            return Err(CodecError::TruncatedInput);
        }
        let nnz = nnz_raw as usize;
        if (buf.len() - 12) / 8 < nnz {
            return Err(CodecError::TruncatedInput);
        }
        let mut indices: Vec<i32> = Vec::new();
        let mut i: usize = 0;
        while i < nnz
            invariant
                i <= nnz,
                12 + 8 * nnz <= buf@.len(),
                buf@.len() <= usize::MAX,
                indices@.len() == i,
                forall|k: int| 0 <= k < i ==> indices@[k] == u32_at(buf@, 12 + 4 * k) as i32,
            decreases nnz - i,
        {
            let s = 12 + 4 * i;
            indices.push(#[verifier::truncate] (be_u32(buf[s], buf[s + 1], buf[s + 2], buf[s + 3]) as i32));
            i += 1;
        }
        let mut values: Vec<u32> = Vec::new();
        let mut j: usize = 0;
        while j < nnz
            invariant
                j <= nnz,
                12 + 8 * nnz <= buf@.len(),
                buf@.len() <= usize::MAX,
                values@.len() == j,
                forall|k: int| 0 <= k < j ==> values@[k] == u32_at(buf@, 12 + 4 * (nnz as int) + 4
                    * k),
            decreases nnz - j,
        {
            let s = 12 + 4 * nnz + 4 * j;
            values.push(be_u32(buf[s], buf[s + 1], buf[s + 2], buf[s + 3]));
            j += 1;
        }
        proof {
            assert(indices@ =~= ints_at(buf@, 12, nnz as int));
            assert(values@ =~= words_at(buf@, 12 + 4 * (nnz as int), nnz as int));
        }
        Ok(SparseVector { dim, indices, values })
    }
}

impl PartialEq for SparseVector {
    /// Structural equality: dimension, indices and values all equal,
    /// whatever paths built the two vectors.
    fn eq(&self, other: &Self) -> (r: bool) {
        if self.dim != other.dim {
            return false;
        }
        let n = self.indices.len();
        let m = self.values.len();
        if n != other.indices.len() || m != other.values.len() {
            return false;
        }
        let mut i: usize = 0;
        while i < n
            invariant
                i <= n,
                n == self@.indices.len() == other@.indices.len(),
                forall|k: int| 0 <= k < i ==> self@.indices[k] == other@.indices[k],
            decreases n - i,
        {
            if self.indices[i] != other.indices[i] {
                return false;
            }
            i += 1;
        }
        let mut j: usize = 0;
        while j < m
            invariant
                j <= m,
                m == self@.values.len() == other@.values.len(),
                forall|k: int| 0 <= k < j ==> self@.values[k] == other@.values[k],
            decreases m - j,
        {
            if self.values[j] != other.values[j] {
                return false;
            }
            j += 1;
        }
        proof {
            assert(self@.indices =~= other@.indices);
            assert(self@.values =~= other@.values);
        }
        true
    }
}

impl vstd::std_specs::cmp::PartialEqSpecImpl for SparseVector {
    open spec fn obeys_eq_spec() -> bool {
        true
    }

    open spec fn eq_spec(&self, other: &Self) -> bool {
        self@ == other@
    }
}

/// Law: equality is structural. Two sparse vectors whose dimension, index
/// sequence and value sequence agree satisfy the meaning `==` is given by
/// `eq_spec`, whatever paths built them.
pub proof fn lemma_eq_structural(a: SparseVector, b: SparseVector)
    requires
        a@.dim == b@.dim,
        a@.indices == b@.indices,
        a@.values == b@.values,
    ensures
        a.eq_spec(&b),
{
    assert(a@ =~= b@);
}

/// Law: decoding the encoding of any well-formed sparse vector whose entry
/// count fits the signed 32-bit field yields the vector back: dimension,
/// indices and values all intact.
pub proof fn lemma_sparse_round_trip(v: SparseView)
    requires
        v.wf(),
        v.indices.len() <= 0x7fff_ffff,
    ensures
        spec_decode_sparse(spec_encode_sparse(v)) == Ok::<SparseView, CodecError>(v),
{
    let b = spec_encode_sparse(v);
    let n = v.indices.len() as int;
    lemma_ints_bytes_len(v.indices);
    lemma_words_bytes_len(v.values);
    assert(b.len() == 12 + 8 * n);
    lemma_u32_round_trip(v.dim as u32);
    assert(u32_at(b, 0) == v.dim as u32);
    lemma_i32_bits_round_trip(v.dim);
    lemma_u32_round_trip(v.indices.len() as u32);
    assert(u32_at(b, 4) == v.indices.len() as u32);
    assert(u32_at(b, 4) as i32 == n as i32);
    lemma_u32_round_trip(0);
    assert(u32_at(b, 8) == 0);
    assert forall|i: int| 0 <= i < n implies u32_at(b, 12 + 4 * i) == v.indices[i] as u32 by {
        lemma_ints_bytes_index(v.indices, i);
        lemma_u32_round_trip(v.indices[i] as u32);
        assert(ints_bytes(v.indices)[4 * i] == ints_bytes(v.indices).subrange(4 * i, 4 * i + 4)[0]);
        assert(ints_bytes(v.indices)[4 * i + 1] == ints_bytes(v.indices).subrange(
            4 * i,
            4 * i + 4,
        )[1]);
        assert(ints_bytes(v.indices)[4 * i + 2] == ints_bytes(v.indices).subrange(
            4 * i,
            4 * i + 4,
        )[2]);
        assert(ints_bytes(v.indices)[4 * i + 3] == ints_bytes(v.indices).subrange(
            4 * i,
            4 * i + 4,
        )[3]);
    }
    assert forall|i: int| 0 <= i < n implies u32_at(b, 12 + 4 * n + 4 * i) == v.values[i] by {
        lemma_words_bytes_index(v.values, i);
        lemma_u32_round_trip(v.values[i]);
        assert(words_bytes(v.values)[4 * i] == words_bytes(v.values).subrange(4 * i, 4 * i + 4)[0]);
        assert(words_bytes(v.values)[4 * i + 1] == words_bytes(v.values).subrange(
            4 * i,
            4 * i + 4,
        )[1]);
        assert(words_bytes(v.values)[4 * i + 2] == words_bytes(v.values).subrange(
            4 * i,
            4 * i + 4,
        )[2]);
        assert(words_bytes(v.values)[4 * i + 3] == words_bytes(v.values).subrange(
            4 * i,
            4 * i + 4,
        )[3]);
    }
    assert forall|i: int| 0 <= i < n implies ints_at(b, 12, n)[i] == v.indices[i] by {
        lemma_i32_bits_round_trip(v.indices[i]);
    }
    assert(ints_at(b, 12, n) =~= v.indices);
    assert(words_at(b, 12 + 4 * n, n) =~= v.values);
}


} // verus!
