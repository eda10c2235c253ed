//! Bit-field packing for 64-bit words.
//!
//! A word is a `u64`; a field is described by a width (number of bits) and
//! the index of its least-significant bit.  The codec reads and writes
//! arbitrary-width signed or unsigned fields at arbitrary offsets, and the
//! range checks say exactly which values a field of a given width can hold.

pub mod codec;
pub mod laws;
pub mod model;

pub use codec::fitss;
pub use codec::fitsu;
pub use codec::gets;
pub use codec::getu;
pub use codec::news;
pub use codec::newu;
pub use codec::DoesNotFit;
