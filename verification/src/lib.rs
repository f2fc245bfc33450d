//! A recursive threshold block cipher over GF(2^128).
//!
//! A buffer of 128-bit blocks is cut into columns level by level. Every
//! column is masked and multiplied by a Vandermonde matrix, the columns of
//! one level are the blocks of the next, and the last block left goes
//! through a block cipher. Decryption walks the levels back with the
//! inverses of the leading blocks of the matrix.
//!
//! * `field`, `inverse`: the field and the proof that it is one.
//! * `vector`, `matrix`, `storage`: vectors and matrices in inline storage.
//! * `algebra`, `gauss`, `vandermonde`: what the two matrix inversions
//!   yield, and when the inversion of a Vandermonde matrix succeeds.
//! * `common_ciphers`, `rc5core`: the block ciphers behind one interface.
//! * `cipher`: level fitting, key schedule, the engine and its laws, and
//!   counter mode as a baseline.
//! * `operators`, `parse`: operators, conversions and text input for elements.
//! * `benchmarking`: what the measurements compute.

pub mod algebra;
pub mod benchmarking;
pub mod cipher;
pub mod common_ciphers;
pub mod field;
pub mod gauss;
pub mod inverse;
pub mod matrix;
pub mod operators;
pub mod parse;
pub mod rc5core;
pub mod storage;
pub mod vandermonde;
pub mod vector;
