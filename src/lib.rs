//! Arithmetic in the base field of the secp256k1 curve, over a fixed-width
//! representation of eight little-endian `u32` limbs that need not be reduced.
pub mod limbs;
mod bignum;
pub mod field;
pub mod ops;
pub mod inverse;
pub mod convert;
pub mod laws;
