use bytes::BytesMut;
use pgvector::error::CodecError;
use pgvector::sparsevec::SparseVector;
use pgvector::vector::Vector;

fn bits(v: &[f32]) -> Vec<u32> {
    v.iter().map(|x| x.to_bits()).collect()
}

fn floats(v: &[u32]) -> Vec<f32> {
    v.iter().map(|x| f32::from_bits(*x)).collect()
}

#[test]
fn test_into() {
    let vec = Vector::from(bits(&[1.0, 2.0, 3.0]));
    let f32_vec: Vec<u32> = vec.into();
    assert_eq!(floats(&f32_vec), vec![1.0, 2.0, 3.0]);
}

#[test]
fn test_to_vec() {
    let vec = Vector::from(bits(&[1.0, 2.0, 3.0]));
    assert_eq!(floats(&vec.to_vec()), vec![1.0, 2.0, 3.0]);
}

#[test]
fn dense_round_trip() {
    let vec = Vector::from(bits(&[0.0, 1.5, -2.25, 0.0, f32::NAN, f32::INFINITY]));
    let mut w = BytesMut::new();
    vec.to_sql(&mut w).unwrap();
    let decoded = Vector::from_sql(&w[..]).unwrap();
    // the NaN element makes `==` false even on an exact copy, so compare
    // the stored bit patterns: the round trip preserves them exactly
    assert_eq!(vec.to_vec(), decoded.to_vec());
    assert_eq!(decoded.to_vec().len(), 6);
}

#[test]
fn dense_exact_bytes() {
    let vec = Vector::from(bits(&[1.0, 2.0, 3.0]));
    let mut w = BytesMut::new();
    vec.to_sql(&mut w).unwrap();
    let expected: Vec<u8> = vec![
        0, 3, // dimension
        0, 0, // reserved
        0x3f, 0x80, 0, 0, // 1.0
        0x40, 0x00, 0, 0, // 2.0
        0x40, 0x40, 0, 0, // 3.0
    ];
    assert_eq!(&w[..], &expected[..]);
    // encode allocates its own buffer and hands over the same image
    let owned = vec.encode().unwrap();
    assert_eq!(&owned[..], &expected[..]);
}

#[test]
fn dense_appends_to_buffer() {
    let mut w = BytesMut::new();
    w.extend_from_slice(b"xy");
    Vector::from(bits(&[1.0])).to_sql(&mut w).unwrap();
    assert_eq!(&w[..4], &[b'x', b'y', 0, 1]);
    assert_eq!(w.len(), 10);
}

#[test]
fn dense_reserved_violation() {
    let buf: Vec<u8> = vec![0, 1, 0, 1, 0x3f, 0x80, 0, 0];
    assert_eq!(
        Vector::from_sql(&buf),
        Err(CodecError::UnexpectedReservedValue)
    );
}

#[test]
fn dense_truncated() {
    // header declares 3 elements, only one follows
    let buf: Vec<u8> = vec![0, 3, 0, 0, 0x3f, 0x80, 0, 0];
    assert_eq!(Vector::from_sql(&buf), Err(CodecError::TruncatedInput));
    // not even a whole header
    let buf: Vec<u8> = vec![0, 1, 0];
    assert_eq!(Vector::from_sql(&buf), Err(CodecError::TruncatedInput));
}

#[test]
fn dense_overflow() {
    let vec = Vector::from(vec![0u32; 65536]);
    let mut w = BytesMut::new();
    assert_eq!(vec.to_sql(&mut w), Err(CodecError::Overflow));
    assert_eq!(w.len(), 0);
    assert!(matches!(vec.encode(), Err(CodecError::Overflow)));
}

#[test]
fn from_dense_no_zeros() {
    let sparse = SparseVector::from_dense(&bits(&[1.0, 2.0, 3.0]));
    assert_eq!(sparse.dimensions(), 3);
    assert_eq!(sparse.indices(), &vec![0, 1, 2]);
    assert_eq!(floats(sparse.values()), vec![1.0, 2.0, 3.0]);
}

#[test]
fn from_dense_with_zeros() {
    let sparse = SparseVector::from_dense(&bits(&[0.0, 5.0, 0.0, 7.0]));
    assert_eq!(sparse.dimensions(), 4);
    assert_eq!(sparse.indices(), &vec![1, 3]);
    assert_eq!(floats(sparse.values()), vec![5.0, 7.0]);
}

#[test]
fn from_dense_negative_zero_and_nan() {
    // -0.0 compares equal to zero and is dropped; NaN does not and is kept
    let sparse = SparseVector::from_dense(&bits(&[-0.0, f32::NAN]));
    assert_eq!(sparse.dimensions(), 2);
    assert_eq!(sparse.indices(), &vec![1]);
    assert!(f32::from_bits(sparse.values()[0]).is_nan());
}

#[test]
fn sparse_round_trip() {
    let sparse = SparseVector::new(6, vec![0, 2, 5], bits(&[1.5, -4.0, 2.5]));
    let mut w = BytesMut::new();
    sparse.to_sql(&mut w).unwrap();
    let decoded = SparseVector::from_sql(&w[..]).unwrap();
    assert_eq!(sparse, decoded);
    assert_eq!(decoded.dimensions(), 6);
    assert_eq!(decoded.indices(), &vec![0, 2, 5]);
    assert_eq!(floats(decoded.values()), vec![1.5, -4.0, 2.5]);
}

#[test]
fn sparse_exact_bytes() {
    let sparse = SparseVector::from_dense(&bits(&[1.0, 2.0, 3.0]));
    let mut w = BytesMut::new();
    sparse.to_sql(&mut w).unwrap();
    let expected: Vec<u8> = vec![
        0, 0, 0, 3, // dim
        0, 0, 0, 3, // nnz
        0, 0, 0, 0, // reserved
        0, 0, 0, 0, // index 0
        0, 0, 0, 1, // index 1
        0, 0, 0, 2, // index 2
        0x3f, 0x80, 0, 0, // 1.0
        0x40, 0x00, 0, 0, // 2.0
        0x40, 0x40, 0, 0, // 3.0
    ];
    assert_eq!(&w[..], &expected[..]);
    // encode allocates its own buffer and hands over the same image
    let owned = sparse.encode().unwrap();
    assert_eq!(&owned[..], &expected[..]);
}

#[test]
fn sparse_reserved_violation() {
    let mut buf: Vec<u8> = vec![0, 0, 0, 2, 0, 0, 0, 0, 0, 0, 0, 1];
    assert_eq!(
        SparseVector::from_sql(&buf),
        Err(CodecError::UnexpectedReservedValue)
    );
    buf[11] = 0;
    // reserved now zero, nnz zero: an empty sparse vector decodes
    let decoded = SparseVector::from_sql(&buf).unwrap();
    assert_eq!(decoded.dimensions(), 2);
    assert_eq!(decoded.indices().len(), 0);
}

#[test]
fn sparse_truncated() {
    // header declares two pairs, bytes for less than two follow
    let buf: Vec<u8> = vec![0, 0, 0, 4, 0, 0, 0, 2, 0, 0, 0, 0, 0, 0, 0, 1, 0, 0, 0, 3];
    assert_eq!(SparseVector::from_sql(&buf), Err(CodecError::TruncatedInput));
    // not even a whole header
    let buf: Vec<u8> = vec![0, 0, 0, 4, 0, 0];
    assert_eq!(SparseVector::from_sql(&buf), Err(CodecError::TruncatedInput));
}

#[test]
fn sparse_negative_count() {
    // nnz reads as -1: no buffer can supply that many pairs
    let buf: Vec<u8> = vec![0, 0, 0, 4, 0xff, 0xff, 0xff, 0xff, 0, 0, 0, 0];
    assert_eq!(SparseVector::from_sql(&buf), Err(CodecError::TruncatedInput));
}

#[test]
fn text_oracle() {
    // the database renders a sparse vector as {i:v,...}/dim with 1-based
    // indices; the encoding of from_dense([1.0, 2.0, 3.0]) must carry
    // exactly the pairs that print as {1:1,2:2,3:3}/3
    let sparse = SparseVector::from_dense(&bits(&[1.0, 2.0, 3.0]));
    let mut w = BytesMut::new();
    sparse.to_sql(&mut w).unwrap();
    let decoded = SparseVector::from_sql(&w[..]).unwrap();
    let mut text = String::from("{");
    for (k, (i, v)) in decoded
        .indices()
        .iter()
        .zip(decoded.values().iter())
        .enumerate()
    {
        if k > 0 {
            text.push(',');
        }
        text += &format!("{}:{}", i + 1, f32::from_bits(*v));
    }
    text += &format!("}}/{}", decoded.dimensions());
    assert_eq!(text, "{1:1,2:2,3:3}/3");
}

#[test]
fn sparse_eq_structural() {
    let derived = SparseVector::from_dense(&bits(&[0.0, 5.0, 0.0, 7.0]));
    let direct = SparseVector::new(4, vec![1, 3], bits(&[5.0, 7.0]));
    assert_eq!(derived, direct);
    let other_dim = SparseVector::new(5, vec![1, 3], bits(&[5.0, 7.0]));
    assert_ne!(derived, other_dim);
    let other_value = SparseVector::new(4, vec![1, 3], bits(&[5.0, 8.0]));
    assert_ne!(derived, other_value);
}

#[test]
fn vector_eq_elementwise() {
    let a = Vector::from(bits(&[0.0, 1.0]));
    let b = Vector::from(bits(&[0.0, 1.0]));
    let c = Vector::from(bits(&[0.0, 2.0]));
    let short = Vector::from(bits(&[0.0]));
    assert_eq!(a, b);
    assert_ne!(a, c);
    assert_ne!(a, short);
}

#[test]
fn vector_eq_ieee() {
    // a NaN element makes a vector unequal even to an identical copy
    let nan = Vector::from(bits(&[1.0, f32::NAN]));
    let nan_copy = Vector::from(bits(&[1.0, f32::NAN]));
    assert_ne!(nan, nan_copy);
    // the two zero encodings compare equal
    let pos_zero = Vector::from(bits(&[0.0]));
    let neg_zero = Vector::from(bits(&[-0.0]));
    assert_eq!(pos_zero, neg_zero);
}
