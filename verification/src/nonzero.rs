//! Integers that are never zero.

use vstd::prelude::*;
use crate::error::{Error, ErrorKind};
use crate::integer::Integer;
use crate::pack::Pack;
use crate::unpack::{Unpack, Unpacked};

verus! {

/// An integer that is known not to be zero. On the wire it looks like the
/// integer it holds; a zero is refused when it is unpacked.
#[derive(Copy, Debug, PartialEq, Eq)]
pub struct NonZero<T: Integer> {
    value: T,
}

/// An unsigned 8-bit integer that is never zero.
pub type NonZeroU8 = NonZero<u8>;

/// An unsigned 16-bit integer that is never zero.
pub type NonZeroU16 = NonZero<u16>;

/// An unsigned 32-bit integer that is never zero.
pub type NonZeroU32 = NonZero<u32>;

/// An unsigned 64-bit integer that is never zero.
pub type NonZeroU64 = NonZero<u64>;

/// An unsigned 128-bit integer that is never zero.
pub type NonZeroU128 = NonZero<u128>;

/// A signed 8-bit integer that is never zero.
pub type NonZeroI8 = NonZero<i8>;

/// A signed 16-bit integer that is never zero.
pub type NonZeroI16 = NonZero<i16>;

/// A signed 32-bit integer that is never zero.
pub type NonZeroI32 = NonZero<i32>;

/// A signed 64-bit integer that is never zero.
pub type NonZeroI64 = NonZero<i64>;

/// A signed 128-bit integer that is never zero.
pub type NonZeroI128 = NonZero<i128>;

impl<T: Integer> Clone for NonZero<T> {
    fn clone(&self) -> (copy: Self)
        ensures
            copy == *self,
    {
        *self
    }
}

impl<T: Integer> View for NonZero<T> {
    type V = T;

    /// The integer that is held.
    closed spec fn view(&self) -> T {
        self.value
    }
}

impl<T: Integer> NonZero<T> {
    #[verifier::type_invariant]
    spec fn never_zero(self) -> bool {
        !T::zero(self.value.value())
    }

    /// `value` as a never-zero integer, unless it is zero.
    pub fn new(value: T) -> (made: Option<Self>)
        ensures
            match made {
                Some(number) => number@ == value && !T::zero(value.value()),
                None => T::zero(value.value()),
            },
    {
        if value.is_zero() {
            None
        } else {
            Some(NonZero { value })
        }
    }

    /// The integer that is held.
    pub fn get(self) -> (value: T)
        ensures
            value == self@,
            !T::zero(value.value()),
    {
        proof {
            use_type_invariant(&self);
        }
        self.value
    }
}

/// As the integer that is held: that it is not zero is known, and not
/// looked at again.
impl<T: Integer> Pack for NonZero<T> {
    open spec fn packed(&self) -> Seq<u8> {
        self@.packed()
    }

    fn pack_into(&self, writer: &mut Vec<u8>) -> (written: usize) {
        self.value.pack_into(writer)
    }
}

/// As the integer, but a zero is refused. It is refused after it was read:
/// its bytes are taken.
impl<T: Integer> Unpack for NonZero<T> {
    type Value = T::Value;

    open spec fn value(&self) -> T::Value {
        self@.value()
    }

    open spec fn unpacked(bytes: Seq<u8>) -> Unpacked<T::Value> {
        match T::unpacked(bytes) {
            Unpacked::Value(value, used) => if T::zero(value) {
                Unpacked::Failure(ErrorKind::Invariant, used)
            } else {
                Unpacked::Value(value, used)
            },
            Unpacked::Failure(kind, used) => Unpacked::Failure(kind, used),
        }
    }

    fn unpack_from(reader: &mut &[u8]) -> (result: Result<Self, Error>) {
        let value = T::unpack_from(reader)?;
        match NonZero::new(value) {
            Some(number) => Ok(number),
            None => Err(Error::Invariant),
        }
    }
}

} // verus!
