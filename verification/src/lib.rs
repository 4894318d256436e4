//! A binary codec for the dense and sparse float-vector wire formats that the
//! `vector` database extension speaks over the postgres binary protocol.
//!
//! Float elements are carried as their raw IEEE-754 single-precision bit
//! patterns (`u32`), which keeps the codec transparent to NaN and infinity
//! payloads; the driver-facing adapter converts to and from `f32` at the
//! boundary.

pub mod buffer;
pub mod error;
pub mod sparsevec;
pub mod vector;
pub mod wire;
