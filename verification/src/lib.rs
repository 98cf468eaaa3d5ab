//! A small binary format: each value is packed into bytes, and unpacked
//! from bytes, in a layout that the value's type alone decides.
//!
//! | type | bytes |
//! |---|---|
//! | `bool` | one byte: `0x00` for true, `0xFF` for false; every byte but `0xFF` reads as true |
//! | `u8` to `u128`, `i8` to `i128` | the integer's width, big-endian, two's complement |
//! | `NonZero` of these | as the integer; a zero is refused when read |
//! | `str`, `String` | the count of UTF-8 bytes in four bytes, big-endian, then the bytes |
//! | `[T]`, `Vec<T>` | the count of items in four bytes, big-endian, then each item |
//! | `Box<T>`, `Rc<T>`, `Arc<T>` | as `T` |
//!
//! Unpacking takes from its source the bytes of the value and no others.
//! Where the source runs out, it fails and takes nothing. Where the bytes
//! were read and the value is refused, a zero for a never-zero integer or a
//! text that is not UTF-8, it fails and the bytes that were read are taken.

pub mod endian;
pub mod error;
pub mod integer;
pub mod laws;
pub mod nonzero;
pub mod pack;
pub mod source;
pub mod unpack;

pub use error::{Error, ErrorKind};
pub use integer::Integer;
pub use laws::Codec;
pub use nonzero::{
    NonZero, NonZeroI128, NonZeroI16, NonZeroI32, NonZeroI64, NonZeroI8, NonZeroU128,
    NonZeroU16, NonZeroU32, NonZeroU64, NonZeroU8,
};
pub use pack::Pack;
pub use unpack::Unpack;
