//! Unpacking: bytes into values.

use std::rc::Rc;
use std::sync::Arc;
use vstd::prelude::*;
use vstd::utf8::{decode_utf8, valid_utf8};
use crate::endian::{
    be_value, lemma_be_value_bound, lemma_limits, read_be, signed_value, to_signed,
};
use crate::error::{Error, ErrorKind};
use crate::source::take;

verus! {

/// What unpacking makes of a run of bytes.
pub enum Unpacked<V> {
    /// The value at the front of the bytes, and the count of bytes that it
    /// takes.
    Value(V, nat),
    /// The way in which unpacking fails, and the count of bytes that are
    /// taken all the same.
    Failure(ErrorKind, nat),
}

/// Describes the ability to deserialize a value from a sequential
/// bytesource.
///
/// The source is a slice of the bytes that are still unread. A value that
/// is unpacked leaves it shorter by the bytes that the value took. So does
/// a value that was read and then refused: the bytes that were read are
/// gone. Where the source runs out, the types of this crate take nothing.
/// Big-endian is assumed for all primitives.
pub trait Unpack: Sized {
    /// The mathematical value that a value of this type stands for.
    type Value;

    /// The mathematical value that this value stands for.
    spec fn value(&self) -> Self::Value;

    /// What unpacking makes of `bytes`: the value at their front, or the
    /// way in which unpacking fails, and with either the count of bytes
    /// that are taken.
    spec fn unpacked(bytes: Seq<u8>) -> Unpacked<Self::Value>;

    /// Unpacks the value at the front of `reader`.
    fn unpack_from(reader: &mut &[u8]) -> (result: Result<Self, Error>)
        ensures
            match Self::unpacked(old(reader)@) {
                Unpacked::Value(value, used) => {
                    &&& result matches Ok(item) && item.value() == value
                    &&& used <= old(reader)@.len()
                    &&& final(reader)@ == old(reader)@.skip(used as int)
                },
                Unpacked::Failure(kind, used) => {
                    &&& result matches Err(error) && error.kind() == kind
                    &&& used <= old(reader)@.len()
                    &&& final(reader)@ == old(reader)@.skip(used as int)
                },
            },
    ;
}

/// How many bytes of a text are moved at a time, however long the text.
pub const CHUNK: usize = 512;

/// The mathematical values that `items` stand for.
pub open spec fn values<T: Unpack>(items: Seq<T>) -> Seq<T::Value> {
    Seq::new(items.len(), |i: int| items[i].value())
}

/// What unpacking makes of `bytes` as `count` items in a row. The first
/// item that fails ends it, with the bytes of the items before it taken.
pub open spec fn unpacked_items<T: Unpack>(bytes: Seq<u8>, count: nat) -> Unpacked<Seq<T::Value>>
    decreases count,
{
    if count == 0 {
        Unpacked::Value(Seq::empty(), 0)
    } else {
        match T::unpacked(bytes) {
            Unpacked::Failure(kind, used) => Unpacked::Failure(kind, used),
            Unpacked::Value(first, used) => match unpacked_items::<T>(
                bytes.skip(used as int),
                (count - 1) as nat,
            ) {
                Unpacked::Failure(kind, more) => Unpacked::Failure(kind, used + more),
                Unpacked::Value(rest, more) => Unpacked::Value(seq![first] + rest, used + more),
            },
        }
    }
}

/// One byte: false where it is `0xFF`, true where it is anything else.
impl Unpack for bool {
    type Value = bool;

    open spec fn value(&self) -> bool {
        *self
    }

    open spec fn unpacked(bytes: Seq<u8>) -> Unpacked<bool> {
        if bytes.len() < 1 {
            Unpacked::Failure(ErrorKind::Source, 0)
        } else {
            Unpacked::Value(bytes[0] != 0xFF, 1)
        }
    }

    fn unpack_from(reader: &mut &[u8]) -> (result: Result<Self, Error>) {
        let bytes = take(reader, 1)?;
        Ok(bytes[0] != 0xFF)
    }
}

impl Unpack for u8 {
    type Value = u8;

    open spec fn value(&self) -> u8 {
        *self
    }

    open spec fn unpacked(bytes: Seq<u8>) -> Unpacked<u8> {
        if bytes.len() < 1 {
            Unpacked::Failure(ErrorKind::Source, 0)
        } else {
            Unpacked::Value(bytes[0], 1)
        }
    }

    fn unpack_from(reader: &mut &[u8]) -> (result: Result<Self, Error>) {
        let bytes = take(reader, 1)?;
        Ok(bytes[0])
    }
}

impl Unpack for u16 {
    type Value = u16;

    open spec fn value(&self) -> u16 {
        *self
    }

    open spec fn unpacked(bytes: Seq<u8>) -> Unpacked<u16> {
        if bytes.len() < 2 {
            Unpacked::Failure(ErrorKind::Source, 0)
        } else {
            Unpacked::Value(be_value(bytes.take(2)) as u16, 2)
        }
    }

    fn unpack_from(reader: &mut &[u8]) -> (result: Result<Self, Error>) {
        let bytes = take(reader, 2)?;
        proof {
            lemma_be_value_bound(bytes@);
            lemma_limits();
        }
        Ok(read_be(bytes) as u16)
    }
}

impl Unpack for u32 {
    type Value = u32;

    open spec fn value(&self) -> u32 {
        *self
    }

    open spec fn unpacked(bytes: Seq<u8>) -> Unpacked<u32> {
        if bytes.len() < 4 {
            Unpacked::Failure(ErrorKind::Source, 0)
        } else {
            Unpacked::Value(be_value(bytes.take(4)) as u32, 4)
        }
    }

    fn unpack_from(reader: &mut &[u8]) -> (result: Result<Self, Error>) {
        let bytes = take(reader, 4)?;
        proof {
            lemma_be_value_bound(bytes@);
            lemma_limits();
        }
        Ok(read_be(bytes) as u32)
    }
}

impl Unpack for u64 {
    type Value = u64;

    open spec fn value(&self) -> u64 {
        *self
    }

    open spec fn unpacked(bytes: Seq<u8>) -> Unpacked<u64> {
        if bytes.len() < 8 {
            Unpacked::Failure(ErrorKind::Source, 0)
        } else {
            Unpacked::Value(be_value(bytes.take(8)) as u64, 8)
        }
    }

    fn unpack_from(reader: &mut &[u8]) -> (result: Result<Self, Error>) {
        let bytes = take(reader, 8)?;
        proof {
            lemma_be_value_bound(bytes@);
            lemma_limits();
        }
        Ok(read_be(bytes) as u64)
    }
}

impl Unpack for u128 {
    type Value = u128;

    open spec fn value(&self) -> u128 {
        *self
    }

    open spec fn unpacked(bytes: Seq<u8>) -> Unpacked<u128> {
        if bytes.len() < 16 {
            Unpacked::Failure(ErrorKind::Source, 0)
        } else {
            Unpacked::Value(be_value(bytes.take(16)) as u128, 16)
        }
    }

    fn unpack_from(reader: &mut &[u8]) -> (result: Result<Self, Error>) {
        let bytes = take(reader, 16)?;
        proof {
            lemma_be_value_bound(bytes@);
            lemma_limits();
        }
        Ok(read_be(bytes))
    }
}

impl Unpack for i8 {
    type Value = i8;

    open spec fn value(&self) -> i8 {
        *self
    }

    open spec fn unpacked(bytes: Seq<u8>) -> Unpacked<i8> {
        if bytes.len() < 1 {
            Unpacked::Failure(ErrorKind::Source, 0)
        } else {
            Unpacked::Value(to_signed(be_value(bytes.take(1)), 1) as i8, 1)
        }
    }

    fn unpack_from(reader: &mut &[u8]) -> (result: Result<Self, Error>) {
        let bytes = take(reader, 1)?;
        proof {
            lemma_be_value_bound(bytes@);
            lemma_limits();
        }
        Ok(signed_value(read_be(bytes), 0xFF) as i8)
    }
}

impl Unpack for i16 {
    type Value = i16;

    open spec fn value(&self) -> i16 {
        *self
    }

    open spec fn unpacked(bytes: Seq<u8>) -> Unpacked<i16> {
        if bytes.len() < 2 {
            Unpacked::Failure(ErrorKind::Source, 0)
        } else {
            Unpacked::Value(to_signed(be_value(bytes.take(2)), 2) as i16, 2)
        }
    }

    fn unpack_from(reader: &mut &[u8]) -> (result: Result<Self, Error>) {
        let bytes = take(reader, 2)?;
        proof {
            lemma_be_value_bound(bytes@);
            lemma_limits();
        }
        Ok(signed_value(read_be(bytes), 0xFFFF) as i16)
    }
}

impl Unpack for i32 {
    type Value = i32;

    open spec fn value(&self) -> i32 {
        *self
    }

    open spec fn unpacked(bytes: Seq<u8>) -> Unpacked<i32> {
        if bytes.len() < 4 {
            Unpacked::Failure(ErrorKind::Source, 0)
        } else {
            Unpacked::Value(to_signed(be_value(bytes.take(4)), 4) as i32, 4)
        }
    }

    fn unpack_from(reader: &mut &[u8]) -> (result: Result<Self, Error>) {
        let bytes = take(reader, 4)?;
        proof {
            lemma_be_value_bound(bytes@);
            lemma_limits();
        }
        Ok(signed_value(read_be(bytes), 0xFFFF_FFFF) as i32)
    }
}

impl Unpack for i64 {
    type Value = i64;

    open spec fn value(&self) -> i64 {
        *self
    }

    open spec fn unpacked(bytes: Seq<u8>) -> Unpacked<i64> {
        if bytes.len() < 8 {
            Unpacked::Failure(ErrorKind::Source, 0)
        } else {
            Unpacked::Value(to_signed(be_value(bytes.take(8)), 8) as i64, 8)
        }
    }

    fn unpack_from(reader: &mut &[u8]) -> (result: Result<Self, Error>) {
        let bytes = take(reader, 8)?;
        proof {
            lemma_be_value_bound(bytes@);
            lemma_limits();
        }
        Ok(signed_value(read_be(bytes), 0xFFFF_FFFF_FFFF_FFFF) as i64)
    }
}

impl Unpack for i128 {
    type Value = i128;

    open spec fn value(&self) -> i128 {
        *self
    }

    open spec fn unpacked(bytes: Seq<u8>) -> Unpacked<i128> {
        if bytes.len() < 16 {
            Unpacked::Failure(ErrorKind::Source, 0)
        } else {
            Unpacked::Value(to_signed(be_value(bytes.take(16)), 16) as i128, 16)
        }
    }

    fn unpack_from(reader: &mut &[u8]) -> (result: Result<Self, Error>) {
        let bytes = take(reader, 16)?;
        proof {
            lemma_be_value_bound(bytes@);
            lemma_limits();
        }
        Ok(signed_value(read_be(bytes), u128::MAX))
    }
}

/// `String::from_utf8` of std. It succeeds on the bytes that are valid UTF-8
/// and on no others, and then gives the text that they encode. What is
/// valid, and what is encoded, is said by vstd's `valid_utf8` and
/// `decode_utf8`. This is taken on trust from std's documentation.
pub assume_specification[ String::from_utf8 ](bytes: Vec<u8>) -> (text: Result<
    String,
    std::string::FromUtf8Error,
>)
    ensures
        text is Ok <==> valid_utf8(bytes@),
        text matches Ok(string) ==> string@ == decode_utf8(bytes@),
;

/// A text: the count of its UTF-8 bytes, then the bytes. The bytes are moved
/// `CHUNK` at a time, and judged when all of them are there: a text that is
/// not valid UTF-8 is refused with its bytes taken.
impl Unpack for String {
    type Value = Seq<char>;

    open spec fn value(&self) -> Seq<char> {
        self@
    }

    open spec fn unpacked(bytes: Seq<u8>) -> Unpacked<Seq<char>> {
        if bytes.len() < 4 {
            Unpacked::Failure(ErrorKind::Source, 0)
        } else {
            let count = be_value(bytes.take(4));
            let text = bytes.subrange(4, 4 + count as int);
            if bytes.len() < 4 + count {
                Unpacked::Failure(ErrorKind::Source, 0)
            } else if !valid_utf8(text) {
                Unpacked::Failure(ErrorKind::Encoding, 4 + count)
            } else {
                Unpacked::Value(decode_utf8(text), 4 + count)
            }
        }
    }

    fn unpack_from(reader: &mut &[u8]) -> (result: Result<Self, Error>) {
        let start: &[u8] = *reader;
        let count = u32::unpack_from(reader)? as usize;
        proof {
            lemma_be_value_bound(start@.take(4));
            lemma_limits();
        }
        let mut bytes: Vec<u8> = Vec::new();
        let mut left: usize = count;
        while left > 0
            invariant
                start@ == old(reader)@,
                start@.len() >= 4,
                count == be_value(start@.take(4)),
                left <= count,
                4 + (count - left) <= start@.len(),
                bytes@ == start@.subrange(4, 4 + (count - left)),
                reader@ == start@.skip(4 + (count - left)),
            decreases left,
        {
            let step = if left > CHUNK {
                CHUNK
            } else {
                left
            };
            match take(reader, step) {
                Ok(chunk) => {
                    bytes.extend_from_slice(chunk);
                    left = left - step;
                    assert(bytes@ =~= start@.subrange(4, 4 + (count - left)));
                    assert(reader@ =~= start@.skip(4 + (count - left)));
                },
                Err(error) => {
                    *reader = start;
                    return Err(error);
                },
            }
        }
        match String::from_utf8(bytes) {
            Ok(text) => Ok(text),
            Err(cause) => Err(Error::UTF8(cause)),
        }
    }
}

/// A sequence: the count of its items, then the items. The first item that
/// fails makes the sequence fail in the same way, and no item is handed out.
/// Where the source has run out, nothing is taken; where an item is
/// refused, the bytes up to the end of what was read of it are.
impl<T: Unpack> Unpack for Vec<T> {
    type Value = Seq<T::Value>;

    open spec fn value(&self) -> Seq<T::Value> {
        values(self@)
    }

    open spec fn unpacked(bytes: Seq<u8>) -> Unpacked<Seq<T::Value>> {
        if bytes.len() < 4 {
            Unpacked::Failure(ErrorKind::Source, 0)
        } else {
            match unpacked_items::<T>(bytes.skip(4), be_value(bytes.take(4))) {
                Unpacked::Failure(ErrorKind::Source, _) => Unpacked::Failure(ErrorKind::Source, 0),
                Unpacked::Failure(kind, used) => Unpacked::Failure(kind, 4 + used),
                Unpacked::Value(items, used) => Unpacked::Value(items, 4 + used),
            }
        }
    }

    fn unpack_from(reader: &mut &[u8]) -> (result: Result<Self, Error>) {
        let start: &[u8] = *reader;
        let count = u32::unpack_from(reader)?;
        proof {
            lemma_be_value_bound(start@.take(4));
            lemma_limits();
        }
        let mut items: Vec<T> = Vec::new();
        let ghost body = start@.skip(4);
        let ghost mut used: nat = 0;
        let mut i: u32 = 0;
        while i < count
            invariant
                start@ == old(reader)@,
                start@.len() >= 4,
                count == be_value(start@.take(4)),
                body == start@.skip(4),
                i <= count,
                used <= body.len(),
                reader@ == body.skip(used as int),
                items@.len() == i,
                unpacked_items::<T>(body, count as nat) == match unpacked_items::<T>(
                    reader@,
                    (count - i) as nat,
                ) {
                    Unpacked::Failure(kind, more) => Unpacked::Failure(kind, used + more),
                    Unpacked::Value(rest, more) => Unpacked::Value(
                        items.value() + rest,
                        used + more,
                    ),
                },
            decreases count - i,
        {
            let ghost before = reader@;
            let ghost done = items.value();
            match T::unpack_from(reader) {
                Ok(item) => {
                    items.push(item);
                    proof {
                        let step = T::unpacked(before)->Value_1;
                        used = used + step;
                        assert(reader@ =~= body.skip(used as int));
                        assert(items.value() =~= done.push(item.value()));
                        assert forall|rest: Seq<T::Value>|
                            done + (seq![item.value()] + rest) == #[trigger] (items.value()
                                + rest) by {
                            assert(done + (seq![item.value()] + rest) =~= items.value() + rest);
                        }
                    }
                },
                Err(error) => {
                    match error.kind() {
                        ErrorKind::Source => {
                            *reader = start;
                        },
                        _ => {
                            proof {
                                let step = T::unpacked(before)->Failure_1;
                                assert(reader@ =~= start@.skip(4 + used + step as int));
                            }
                        },
                    }
                    return Err(error);
                },
            }
            i += 1;
        }
        proof {
            assert(items.value() + Seq::<T::Value>::empty() =~= items.value());
            assert(reader@ =~= start@.skip(4 + used as int));
        }
        Ok(items)
    }
}

/// A boxed value is unpacked as the value, and takes no bytes of its own.
impl<T: Unpack> Unpack for Box<T> {
    type Value = T::Value;

    open spec fn value(&self) -> T::Value {
        (**self).value()
    }

    open spec fn unpacked(bytes: Seq<u8>) -> Unpacked<T::Value> {
        T::unpacked(bytes)
    }

    fn unpack_from(reader: &mut &[u8]) -> (result: Result<Self, Error>) {
        Ok(Box::new(T::unpack_from(reader)?))
    }
}

/// A shared value is unpacked as the value, and takes no bytes of its own.
impl<T: Unpack> Unpack for Rc<T> {
    type Value = T::Value;

    open spec fn value(&self) -> T::Value {
        (**self).value()
    }

    open spec fn unpacked(bytes: Seq<u8>) -> Unpacked<T::Value> {
        T::unpacked(bytes)
    }

    fn unpack_from(reader: &mut &[u8]) -> (result: Result<Self, Error>) {
        Ok(Rc::new(T::unpack_from(reader)?))
    }
}

/// A value shared between threads is unpacked as the value, and takes no
/// bytes of its own.
impl<T: Unpack> Unpack for Arc<T> {
    type Value = T::Value;

    open spec fn value(&self) -> T::Value {
        (**self).value()
    }

    open spec fn unpacked(bytes: Seq<u8>) -> Unpacked<T::Value> {
        T::unpacked(bytes)
    }

    fn unpack_from(reader: &mut &[u8]) -> (result: Result<Self, Error>) {
        Ok(Arc::new(T::unpack_from(reader)?))
    }
}

} // verus!
