//! The integers of the format.

use vstd::prelude::*;
use crate::endian::{lemma_be_bytes_len, lemma_be_value_zero, lemma_limits, to_unsigned};
use crate::error::ErrorKind;
use crate::laws::Codec;
use crate::unpack::Unpacked;

verus! {

/// An integer of the format: it takes a fixed count of bytes, and it has a
/// zero, which its never-zero companion leaves out.
pub trait Integer: Codec + Copy {
    /// How many bytes a value takes.
    spec fn width() -> nat;

    /// Whether `value` is zero.
    spec fn zero(value: Self::Value) -> bool;

    /// Whether this number is zero.
    fn is_zero(&self) -> (zero: bool)
        ensures
            zero == Self::zero(self.value()),
    ;

    /// Every value packs into `width()` bytes.
    proof fn lemma_packed_width(&self)
        ensures
            self.packed().len() == Self::width(),
    ;

    /// Fewer than `width()` bytes do not unpack: the failure is that of the
    /// source, and nothing is taken. As many or more do unpack, and
    /// `width()` of them are taken.
    proof fn lemma_unpacked_width(bytes: Seq<u8>)
        ensures
            bytes.len() < Self::width() ==> Self::unpacked(bytes) == Unpacked::<
                Self::Value,
            >::Failure(ErrorKind::Source, 0),
            bytes.len() >= Self::width() ==> (Self::unpacked(bytes) matches Unpacked::Value(
                _,
                used,
            ) && used == Self::width()),
    ;

    /// Bytes that begin with `width()` zeros unpack to zero.
    proof fn lemma_zero_bytes(bytes: Seq<u8>)
        requires
            bytes.len() >= Self::width(),
            forall|i: int| 0 <= i < Self::width() ==> bytes[i] == 0,
        ensures
            Self::unpacked(bytes) matches Unpacked::Value(value, used) && Self::zero(value)
                && used == Self::width(),
    ;
}

impl Integer for u8 {
    open spec fn width() -> nat {
        1
    }

    open spec fn zero(value: u8) -> bool {
        value == 0
    }

    fn is_zero(&self) -> (zero: bool) {
        *self == 0
    }

    proof fn lemma_packed_width(&self) {
    }

    proof fn lemma_unpacked_width(bytes: Seq<u8>) {
    }

    proof fn lemma_zero_bytes(bytes: Seq<u8>) {
    }
}

impl Integer for u16 {
    open spec fn width() -> nat {
        2
    }

    open spec fn zero(value: u16) -> bool {
        value == 0
    }

    fn is_zero(&self) -> (zero: bool) {
        *self == 0
    }

    proof fn lemma_packed_width(&self) {
        lemma_be_bytes_len(*self as nat, 2);
    }

    proof fn lemma_unpacked_width(bytes: Seq<u8>) {
    }

    proof fn lemma_zero_bytes(bytes: Seq<u8>) {
        lemma_be_value_zero(bytes.take(2));
        lemma_limits();
    }
}

impl Integer for u32 {
    open spec fn width() -> nat {
        4
    }

    open spec fn zero(value: u32) -> bool {
        value == 0
    }

    fn is_zero(&self) -> (zero: bool) {
        *self == 0
    }

    proof fn lemma_packed_width(&self) {
        lemma_be_bytes_len(*self as nat, 4);
    }

    proof fn lemma_unpacked_width(bytes: Seq<u8>) {
    }

    proof fn lemma_zero_bytes(bytes: Seq<u8>) {
        lemma_be_value_zero(bytes.take(4));
        lemma_limits();
    }
}

impl Integer for u64 {
    open spec fn width() -> nat {
        8
    }

    open spec fn zero(value: u64) -> bool {
        value == 0
    }

    fn is_zero(&self) -> (zero: bool) {
        *self == 0
    }

    proof fn lemma_packed_width(&self) {
        lemma_be_bytes_len(*self as nat, 8);
    }

    proof fn lemma_unpacked_width(bytes: Seq<u8>) {
    }

    proof fn lemma_zero_bytes(bytes: Seq<u8>) {
        lemma_be_value_zero(bytes.take(8));
        lemma_limits();
    }
}

impl Integer for u128 {
    open spec fn width() -> nat {
        16
    }

    open spec fn zero(value: u128) -> bool {
        value == 0
    }

    fn is_zero(&self) -> (zero: bool) {
        *self == 0
    }

    proof fn lemma_packed_width(&self) {
        lemma_be_bytes_len(*self as nat, 16);
    }

    proof fn lemma_unpacked_width(bytes: Seq<u8>) {
    }

    proof fn lemma_zero_bytes(bytes: Seq<u8>) {
        lemma_be_value_zero(bytes.take(16));
        lemma_limits();
    }
}

impl Integer for i8 {
    open spec fn width() -> nat {
        1
    }

    open spec fn zero(value: i8) -> bool {
        value == 0
    }

    fn is_zero(&self) -> (zero: bool) {
        *self == 0
    }

    proof fn lemma_packed_width(&self) {
        lemma_be_bytes_len(to_unsigned(*self as int, 1), 1);
    }

    proof fn lemma_unpacked_width(bytes: Seq<u8>) {
    }

    proof fn lemma_zero_bytes(bytes: Seq<u8>) {
        lemma_be_value_zero(bytes.take(1));
        lemma_limits();
    }
}

impl Integer for i16 {
    open spec fn width() -> nat {
        2
    }

    open spec fn zero(value: i16) -> bool {
        value == 0
    }

    fn is_zero(&self) -> (zero: bool) {
        *self == 0
    }

    proof fn lemma_packed_width(&self) {
        lemma_be_bytes_len(to_unsigned(*self as int, 2), 2);
    }

    proof fn lemma_unpacked_width(bytes: Seq<u8>) {
    }

    proof fn lemma_zero_bytes(bytes: Seq<u8>) {
        lemma_be_value_zero(bytes.take(2));
        lemma_limits();
    }
}

impl Integer for i32 {
    open spec fn width() -> nat {
        4
    }

    open spec fn zero(value: i32) -> bool {
        value == 0
    }

    fn is_zero(&self) -> (zero: bool) {
        *self == 0
    }

    proof fn lemma_packed_width(&self) {
        lemma_be_bytes_len(to_unsigned(*self as int, 4), 4);
    }

    proof fn lemma_unpacked_width(bytes: Seq<u8>) {
    }

    proof fn lemma_zero_bytes(bytes: Seq<u8>) {
        lemma_be_value_zero(bytes.take(4));
        lemma_limits();
    }
}

impl Integer for i64 {
    open spec fn width() -> nat {
        8
    }

    open spec fn zero(value: i64) -> bool {
        value == 0
    }

    fn is_zero(&self) -> (zero: bool) {
        *self == 0
    }

    proof fn lemma_packed_width(&self) {
        lemma_be_bytes_len(to_unsigned(*self as int, 8), 8);
    }

    proof fn lemma_unpacked_width(bytes: Seq<u8>) {
    }

    proof fn lemma_zero_bytes(bytes: Seq<u8>) {
        lemma_be_value_zero(bytes.take(8));
        lemma_limits();
    }
}

impl Integer for i128 {
    open spec fn width() -> nat {
        16
    }

    open spec fn zero(value: i128) -> bool {
        value == 0
    }

    fn is_zero(&self) -> (zero: bool) {
        *self == 0
    }

    proof fn lemma_packed_width(&self) {
        lemma_be_bytes_len(to_unsigned(*self as int, 16), 16);
    }

    proof fn lemma_unpacked_width(bytes: Seq<u8>) {
    }

    proof fn lemma_zero_bytes(bytes: Seq<u8>) {
        lemma_be_value_zero(bytes.take(16));
        lemma_limits();
    }
}

} // verus!
