//! Encoding and decoding of numbers as byte strings in big-endian or
//! little-endian order.
//!
//! The [`ByteOrder`] trait gives one set of conversion operations: reading
//! and writing fixed-width unsigned and signed integers (2, 4, 8 or 16
//! bytes), variable-width integers of 1 to 16 bytes, and the bit patterns
//! of IEEE 754 floating point numbers with signaling NaNs forced quiet.
//! [`BigEndian`] and [`LittleEndian`] implement the trait; the choice of
//! ordering is made purely at the type level, as in
//! `LittleEndian::read_u32(buf)`.
//!
//! Every operation is specified against the mathematical model in [`repr`]:
//! a byte string denotes a number, and a number together with a width has a
//! canonical encoding.  The round-trip and ordering laws are stated and
//! proved in [`laws`].

pub mod fill;
pub mod laws;
pub mod nan;
pub mod order;
pub mod repr;
pub mod sign;

pub use fill::read_full;
pub use order::BigEndian;
pub use order::ByteOrder;
pub use order::LittleEndian;
pub use order::NativeEndian;
pub use order::NetworkEndian;
pub use order::Sealed;
pub use sign::extend_sign;
pub use sign::extend_sign128;
pub use sign::pack_size;
pub use sign::pack_size128;
pub use sign::unextend_sign;
pub use sign::unextend_sign128;
