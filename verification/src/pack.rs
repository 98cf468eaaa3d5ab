//! Packing: values into bytes.

use std::rc::Rc;
use std::sync::Arc;
use vstd::prelude::*;
use vstd::utf8::encode_utf8;
use crate::endian::{
    be_bytes, lemma_be_bytes_len, lemma_limits, to_unsigned, unsigned_image, write_be,
};

verus! {

/// Describes the ability to serialize a value into a sequential bytestream.
///
/// The bytes of a value are a function of the value alone. Implementors
/// choose them, and with them the order in which the parts of a structure
/// are written: a structure is packed by packing its parts one after the
/// other.
pub trait Pack {
    /// The bytes that stand for this value.
    spec fn packed(&self) -> Seq<u8>;

    /// Appends the bytes of this value to `writer` and returns how many
    /// there were.
    fn pack_into(&self, writer: &mut Vec<u8>) -> (written: usize)
        ensures
            final(writer)@ == old(writer)@ + self.packed(),
            written == self.packed().len(),
    ;

    /// The bytes of this value, in a buffer of their own.
    fn pack_to_vec(&self) -> (buffer: Vec<u8>)
        ensures
            buffer@ == self.packed(),
    {
        let mut buffer = Vec::new();
        self.pack_into(&mut buffer);
        buffer
    }
}

/// The four bytes that announce a payload of `count` bytes or items: the low
/// 32 bits of the count, most significant byte first.
pub open spec fn count_prefix(count: nat) -> Seq<u8> {
    be_bytes(count, 4)
}

/// The bytes of `items`, those of each item after those of the one before.
pub open spec fn joined<T: Pack>(items: Seq<T>) -> Seq<u8>
    decreases items.len(),
{
    if items.len() == 0 {
        Seq::empty()
    } else {
        joined(items.drop_last()) + items.last().packed()
    }
}

/// The bytes that stand for a sequence: the count of its items, then the
/// items.
pub open spec fn sequence_packed<T: Pack>(items: Seq<T>) -> Seq<u8> {
    count_prefix(items.len()) + joined(items)
}

/// The bytes that stand for a text: the count of its UTF-8 bytes, then
/// those bytes.
pub open spec fn text_packed(text: Seq<char>) -> Seq<u8> {
    count_prefix(encode_utf8(text).len()) + encode_utf8(text)
}

/// One byte: `0x00` for true, `0xFF` for false.
impl Pack for bool {
    open spec fn packed(&self) -> Seq<u8> {
        seq![if *self { 0x00u8 } else { 0xFFu8 }]
    }

    fn pack_into(&self, writer: &mut Vec<u8>) -> (written: usize) {
        let value: u8 = match *self {
            true => 0x00,
            false => 0xFF,
        };
        writer.push(value);
        assert(writer@ =~= old(writer)@ + self.packed());
        1
    }
}

impl Pack for u8 {
    open spec fn packed(&self) -> Seq<u8> {
        seq![*self]
    }

    fn pack_into(&self, writer: &mut Vec<u8>) -> (written: usize) {
        writer.push(*self);
        assert(writer@ =~= old(writer)@ + self.packed());
        1
    }
}

impl Pack for u16 {
    open spec fn packed(&self) -> Seq<u8> {
        be_bytes(*self as nat, 2)
    }

    fn pack_into(&self, writer: &mut Vec<u8>) -> (written: usize) {
        write_be(*self as u128, 2, writer);
        proof {
            lemma_be_bytes_len(*self as nat, 2);
        }
        2
    }
}

impl Pack for u32 {
    open spec fn packed(&self) -> Seq<u8> {
        be_bytes(*self as nat, 4)
    }

    fn pack_into(&self, writer: &mut Vec<u8>) -> (written: usize) {
        write_be(*self as u128, 4, writer);
        proof {
            lemma_be_bytes_len(*self as nat, 4);
        }
        4
    }
}

impl Pack for u64 {
    open spec fn packed(&self) -> Seq<u8> {
        be_bytes(*self as nat, 8)
    }

    fn pack_into(&self, writer: &mut Vec<u8>) -> (written: usize) {
        write_be(*self as u128, 8, writer);
        proof {
            lemma_be_bytes_len(*self as nat, 8);
        }
        8
    }
}

impl Pack for u128 {
    open spec fn packed(&self) -> Seq<u8> {
        be_bytes(*self as nat, 16)
    }

    fn pack_into(&self, writer: &mut Vec<u8>) -> (written: usize) {
        write_be(*self, 16, writer);
        proof {
            lemma_be_bytes_len(*self as nat, 16);
        }
        16
    }
}

impl Pack for i8 {
    open spec fn packed(&self) -> Seq<u8> {
        be_bytes(to_unsigned(*self as int, 1), 1)
    }

    fn pack_into(&self, writer: &mut Vec<u8>) -> (written: usize) {
        proof {
            lemma_limits();
            lemma_be_bytes_len(to_unsigned(*self as int, 1), 1);
        }
        write_be(unsigned_image(*self as i128, 0xFF), 1, writer);
        1
    }
}

impl Pack for i16 {
    open spec fn packed(&self) -> Seq<u8> {
        be_bytes(to_unsigned(*self as int, 2), 2)
    }

    fn pack_into(&self, writer: &mut Vec<u8>) -> (written: usize) {
        proof {
            lemma_limits();
            lemma_be_bytes_len(to_unsigned(*self as int, 2), 2);
        }
        write_be(unsigned_image(*self as i128, 0xFFFF), 2, writer);
        2
    }
}

impl Pack for i32 {
    open spec fn packed(&self) -> Seq<u8> {
        be_bytes(to_unsigned(*self as int, 4), 4)
    }

    fn pack_into(&self, writer: &mut Vec<u8>) -> (written: usize) {
        proof {
            lemma_limits();
            lemma_be_bytes_len(to_unsigned(*self as int, 4), 4);
        }
        write_be(unsigned_image(*self as i128, 0xFFFF_FFFF), 4, writer);
        4
    }
}

impl Pack for i64 {
    open spec fn packed(&self) -> Seq<u8> {
        be_bytes(to_unsigned(*self as int, 8), 8)
    }

    fn pack_into(&self, writer: &mut Vec<u8>) -> (written: usize) {
        proof {
            lemma_limits();
            lemma_be_bytes_len(to_unsigned(*self as int, 8), 8);
        }
        write_be(unsigned_image(*self as i128, 0xFFFF_FFFF_FFFF_FFFF), 8, writer);
        8
    }
}

impl Pack for i128 {
    open spec fn packed(&self) -> Seq<u8> {
        be_bytes(to_unsigned(*self as int, 16), 16)
    }

    fn pack_into(&self, writer: &mut Vec<u8>) -> (written: usize) {
        proof {
            lemma_limits();
            lemma_be_bytes_len(to_unsigned(*self as int, 16), 16);
        }
        write_be(unsigned_image(*self, u128::MAX), 16, writer);
        16
    }
}

/// A text: the count of its UTF-8 bytes, then the bytes.
impl Pack for str {
    open spec fn packed(&self) -> Seq<u8> {
        text_packed(self@)
    }

    fn pack_into(&self, writer: &mut Vec<u8>) -> (written: usize) {
        let buffer = self.as_bytes();
        write_be(buffer.len() as u128, 4, writer);
        writer.extend_from_slice(buffer);
        proof {
            lemma_be_bytes_len(buffer@.len(), 4);
            assert(writer@ =~= old(writer)@ + self.packed());
            assert(writer@.len() == writer.len());
        }
        4 + buffer.len()
    }
}

/// A sequence: the count of its items, then the items in order.
impl<T: Pack> Pack for [T] {
    open spec fn packed(&self) -> Seq<u8> {
        sequence_packed(self@)
    }

    fn pack_into(&self, writer: &mut Vec<u8>) -> (written: usize) {
        write_be(self.len() as u128, 4, writer);
        let mut written: usize = 4;
        proof {
            lemma_be_bytes_len(self@.len(), 4);
            assert(writer@ =~= old(writer)@ + count_prefix(self@.len()) + joined(self@.take(0)));
        }
        let mut i: usize = 0;
        while i < self.len()
            invariant
                i <= self@.len(),
                count_prefix(self@.len()).len() == 4,
                writer@ == old(writer)@ + count_prefix(self@.len()) + joined(self@.take(i as int)),
                written == 4 + joined(self@.take(i as int)).len(),
            decreases self@.len() - i,
        {
            let count = self[i].pack_into(writer);
            proof {
                assert(self@.take(i + 1).drop_last() =~= self@.take(i as int));
                assert(writer@ =~= old(writer)@ + count_prefix(self@.len()) + joined(
                    self@.take(i + 1),
                ));
                assert(writer@.len() == writer.len());
            }
            written += count;
            i += 1;
        }
        proof {
            assert(self@.take(i as int) =~= self@);
            assert(writer@ =~= old(writer)@ + self.packed());
        }
        written
    }
}

/// As the `str` that it holds.
impl Pack for String {
    open spec fn packed(&self) -> Seq<u8> {
        text_packed(self@)
    }

    fn pack_into(&self, writer: &mut Vec<u8>) -> (written: usize) {
        self.as_str().pack_into(writer)
    }
}

/// As the slice that it holds.
impl<T: Pack> Pack for Vec<T> {
    open spec fn packed(&self) -> Seq<u8> {
        sequence_packed(self@)
    }

    fn pack_into(&self, writer: &mut Vec<u8>) -> (written: usize) {
        self.as_slice().pack_into(writer)
    }
}

/// A boxed value is packed as the value, with no bytes of its own.
impl<T: Pack> Pack for Box<T> {
    open spec fn packed(&self) -> Seq<u8> {
        (**self).packed()
    }

    fn pack_into(&self, writer: &mut Vec<u8>) -> (written: usize) {
        (**self).pack_into(writer)
    }
}

/// A shared value is packed as the value, with no bytes of its own.
impl<T: Pack> Pack for Rc<T> {
    open spec fn packed(&self) -> Seq<u8> {
        (**self).packed()
    }

    fn pack_into(&self, writer: &mut Vec<u8>) -> (written: usize) {
        (**self).pack_into(writer)
    }
}

/// A value shared between threads is packed as the value, with no bytes
/// of its own.
impl<T: Pack> Pack for Arc<T> {
    open spec fn packed(&self) -> Seq<u8> {
        (**self).packed()
    }

    fn pack_into(&self, writer: &mut Vec<u8>) -> (written: usize) {
        (**self).pack_into(writer)
    }
}

} // verus!
