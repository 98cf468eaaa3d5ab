//! The laws that tie packing and unpacking together.

use std::rc::Rc;
use std::sync::Arc;
use vstd::prelude::*;
use vstd::utf8::{encode_utf8, encode_utf8_decode_utf8, encode_utf8_valid_utf8, valid_utf8};
use crate::endian::{
    be_value, lemma_be_bytes_len, lemma_be_value_at_front, lemma_limits,
    lemma_signed_of_unsigned, to_unsigned,
};
use crate::error::ErrorKind;
use crate::integer::Integer;
use crate::nonzero::NonZero;
use crate::pack::{count_prefix, joined, sequence_packed, text_packed, Pack};
use crate::unpack::{unpacked_items, values, Unpack, Unpacked};

verus! {

/// A type that packs and unpacks, and whose two halves agree.
pub trait Codec: Pack + Unpack {
    /// Whether the format can hold this value. It cannot hold a text or a
    /// sequence whose length does not fit in 32 bits, nor a zero where
    /// none is admitted.
    spec fn representable(&self) -> bool;

    /// Round trip: unpacking the bytes of a value gives the value back and
    /// takes exactly those bytes, whatever follows them.
    proof fn lemma_round_trip(&self, rest: Seq<u8>)
        requires
            self.representable(),
        ensures
            Self::unpacked(self.packed() + rest) == Unpacked::Value(
                self.value(),
                self.packed().len(),
            ),
    ;

    /// Truncated source: when the bytes of a value are cut short, unpacking
    /// fails, the failure is that of the source, and nothing is taken.
    proof fn lemma_truncated(&self, cut: int)
        requires
            self.representable(),
            0 <= cut < self.packed().len(),
        ensures
            Self::unpacked(self.packed().take(cut)) == Unpacked::<Self::Value>::Failure(
                ErrorKind::Source,
                0,
            ),
    ;
}

impl Codec for bool {
    open spec fn representable(&self) -> bool {
        true
    }

    proof fn lemma_round_trip(&self, rest: Seq<u8>) {
    }

    proof fn lemma_truncated(&self, cut: int) {
    }
}

impl Codec for u8 {
    open spec fn representable(&self) -> bool {
        true
    }

    proof fn lemma_round_trip(&self, rest: Seq<u8>) {
    }

    proof fn lemma_truncated(&self, cut: int) {
    }
}

impl Codec for u16 {
    open spec fn representable(&self) -> bool {
        true
    }

    proof fn lemma_round_trip(&self, rest: Seq<u8>) {
        lemma_limits();
        lemma_be_value_at_front(*self as nat, 2, rest);
    }

    proof fn lemma_truncated(&self, cut: int) {
        lemma_be_bytes_len(*self as nat, 2);
    }
}

impl Codec for u32 {
    open spec fn representable(&self) -> bool {
        true
    }

    proof fn lemma_round_trip(&self, rest: Seq<u8>) {
        lemma_limits();
        lemma_be_value_at_front(*self as nat, 4, rest);
    }

    proof fn lemma_truncated(&self, cut: int) {
        lemma_be_bytes_len(*self as nat, 4);
    }
}

impl Codec for u64 {
    open spec fn representable(&self) -> bool {
        true
    }

    proof fn lemma_round_trip(&self, rest: Seq<u8>) {
        lemma_limits();
        lemma_be_value_at_front(*self as nat, 8, rest);
    }

    proof fn lemma_truncated(&self, cut: int) {
        lemma_be_bytes_len(*self as nat, 8);
    }
}

impl Codec for u128 {
    open spec fn representable(&self) -> bool {
        true
    }

    proof fn lemma_round_trip(&self, rest: Seq<u8>) {
        lemma_limits();
        lemma_be_value_at_front(*self as nat, 16, rest);
    }

    proof fn lemma_truncated(&self, cut: int) {
        lemma_be_bytes_len(*self as nat, 16);
    }
}

impl Codec for i8 {
    open spec fn representable(&self) -> bool {
        true
    }

    proof fn lemma_round_trip(&self, rest: Seq<u8>) {
        lemma_limits();
        lemma_signed_of_unsigned(*self as int, 1);
        lemma_be_value_at_front(to_unsigned(*self as int, 1), 1, rest);
    }

    proof fn lemma_truncated(&self, cut: int) {
        lemma_be_bytes_len(to_unsigned(*self as int, 1), 1);
    }
}

impl Codec for i16 {
    open spec fn representable(&self) -> bool {
        true
    }

    proof fn lemma_round_trip(&self, rest: Seq<u8>) {
        lemma_limits();
        lemma_signed_of_unsigned(*self as int, 2);
        lemma_be_value_at_front(to_unsigned(*self as int, 2), 2, rest);
    }

    proof fn lemma_truncated(&self, cut: int) {
        lemma_be_bytes_len(to_unsigned(*self as int, 2), 2);
    }
}

impl Codec for i32 {
    open spec fn representable(&self) -> bool {
        true
    }

    proof fn lemma_round_trip(&self, rest: Seq<u8>) {
        lemma_limits();
        lemma_signed_of_unsigned(*self as int, 4);
        lemma_be_value_at_front(to_unsigned(*self as int, 4), 4, rest);
    }

    proof fn lemma_truncated(&self, cut: int) {
        lemma_be_bytes_len(to_unsigned(*self as int, 4), 4);
    }
}

impl Codec for i64 {
    open spec fn representable(&self) -> bool {
        true
    }

    proof fn lemma_round_trip(&self, rest: Seq<u8>) {
        lemma_limits();
        lemma_signed_of_unsigned(*self as int, 8);
        lemma_be_value_at_front(to_unsigned(*self as int, 8), 8, rest);
    }

    proof fn lemma_truncated(&self, cut: int) {
        lemma_be_bytes_len(to_unsigned(*self as int, 8), 8);
    }
}

impl Codec for i128 {
    open spec fn representable(&self) -> bool {
        true
    }

    proof fn lemma_round_trip(&self, rest: Seq<u8>) {
        lemma_limits();
        lemma_signed_of_unsigned(*self as int, 16);
        lemma_be_value_at_front(to_unsigned(*self as int, 16), 16, rest);
    }

    proof fn lemma_truncated(&self, cut: int) {
        lemma_be_bytes_len(to_unsigned(*self as int, 16), 16);
    }
}

impl<T: Integer> Codec for NonZero<T> {
    open spec fn representable(&self) -> bool {
        self@.representable() && !T::zero(self@.value())
    }

    proof fn lemma_round_trip(&self, rest: Seq<u8>) {
        self@.lemma_round_trip(rest);
    }

    proof fn lemma_truncated(&self, cut: int) {
        self@.lemma_truncated(cut);
    }
}

impl Codec for String {
    open spec fn representable(&self) -> bool {
        encode_utf8(self@).len() <= u32::MAX
    }

    proof fn lemma_round_trip(&self, rest: Seq<u8>) {
        lemma_text_round_trip(self@, rest);
    }

    proof fn lemma_truncated(&self, cut: int) {
        lemma_text_truncated(self@, cut);
    }
}

impl<T: Codec> Codec for Vec<T> {
    open spec fn representable(&self) -> bool {
        &&& self@.len() <= u32::MAX
        &&& forall|i: int| 0 <= i < self@.len() ==> (#[trigger] self@[i]).representable()
    }

    proof fn lemma_round_trip(&self, rest: Seq<u8>) {
        lemma_sequence_round_trip(self@, rest);
    }

    proof fn lemma_truncated(&self, cut: int) {
        lemma_sequence_truncated(self@, cut);
    }
}

impl<T: Codec> Codec for Box<T> {
    open spec fn representable(&self) -> bool {
        (**self).representable()
    }

    proof fn lemma_round_trip(&self, rest: Seq<u8>) {
        (**self).lemma_round_trip(rest);
    }

    proof fn lemma_truncated(&self, cut: int) {
        (**self).lemma_truncated(cut);
    }
}

impl<T: Codec> Codec for Rc<T> {
    open spec fn representable(&self) -> bool {
        (**self).representable()
    }

    proof fn lemma_round_trip(&self, rest: Seq<u8>) {
        (**self).lemma_round_trip(rest);
    }

    proof fn lemma_truncated(&self, cut: int) {
        (**self).lemma_truncated(cut);
    }
}

impl<T: Codec> Codec for Arc<T> {
    open spec fn representable(&self) -> bool {
        (**self).representable()
    }

    proof fn lemma_round_trip(&self, rest: Seq<u8>) {
        (**self).lemma_round_trip(rest);
    }

    proof fn lemma_truncated(&self, cut: int) {
        (**self).lemma_truncated(cut);
    }
}

/// Round trip of a text: its bytes unpack to the text, whatever follows.
pub proof fn lemma_text_round_trip(text: Seq<char>, rest: Seq<u8>)
    requires
        encode_utf8(text).len() <= u32::MAX,
    ensures
        String::unpacked(text_packed(text) + rest) == Unpacked::Value(
            text,
            text_packed(text).len(),
        ),
{
    let body = encode_utf8(text);
    let bytes = text_packed(text) + rest;
    lemma_limits();
    lemma_be_value_at_front(body.len(), 4, body + rest);
    assert(bytes =~= count_prefix(body.len()) + (body + rest));
    assert(bytes.subrange(4, 4 + body.len() as int) =~= body);
    encode_utf8_valid_utf8(text);
    encode_utf8_decode_utf8(text);
}

/// Truncated text: the bytes of a text, cut short, fail as the source does.
pub proof fn lemma_text_truncated(text: Seq<char>, cut: int)
    requires
        encode_utf8(text).len() <= u32::MAX,
        0 <= cut < text_packed(text).len(),
    ensures
        String::unpacked(text_packed(text).take(cut)) == Unpacked::<Seq<char>>::Failure(
            ErrorKind::Source,
            0,
        ),
{
    let body = encode_utf8(text);
    lemma_limits();
    lemma_be_bytes_len(body.len(), 4);
    if cut >= 4 {
        lemma_be_value_at_front(body.len(), 4, body.take(cut - 4));
        assert(text_packed(text).take(cut) =~= count_prefix(body.len()) + body.take(cut - 4));
    }
}

/// A text whose bytes end before its announced length fails as the source
/// does, whatever the bytes that are there, and nothing is taken.
pub proof fn lemma_text_short(bytes: Seq<u8>)
    requires
        bytes.len() < 4 || bytes.len() < 4 + be_value(bytes.take(4)),
    ensures
        String::unpacked(bytes) == Unpacked::<Seq<char>>::Failure(ErrorKind::Source, 0),
{
}

/// A text whose announced bytes are all there, but are not valid UTF-8, is
/// refused for its encoding, and the prefix and the announced bytes are
/// taken.
pub proof fn lemma_text_invalid(bytes: Seq<u8>)
    requires
        bytes.len() >= 4,
        bytes.len() >= 4 + be_value(bytes.take(4)),
        !valid_utf8(bytes.subrange(4, 4 + be_value(bytes.take(4)) as int)),
    ensures
        String::unpacked(bytes) == Unpacked::<Seq<char>>::Failure(
            ErrorKind::Encoding,
            4 + be_value(bytes.take(4)),
        ),
{
}

/// The bytes of a sequence begin with those of its first item.
pub proof fn lemma_joined_front<T: Pack>(items: Seq<T>)
    requires
        items.len() > 0,
    ensures
        joined(items) == items[0].packed() + joined(items.drop_first()),
    decreases items.len(),
{
    if items.len() == 1 {
        assert(joined(items.drop_last()) =~= Seq::<u8>::empty());
        assert(joined(items.drop_first()) =~= Seq::<u8>::empty());
        assert(joined(items) =~= items[0].packed() + joined(items.drop_first()));
    } else {
        lemma_joined_front(items.drop_last());
        assert(items.drop_first().drop_last() =~= items.drop_last().drop_first());
        assert(joined(items) =~= items[0].packed() + joined(items.drop_first()));
    }
}

/// The bytes of two sequences in a row are those of the one, then those of
/// the other.
pub proof fn lemma_joined_concat<T: Pack>(front: Seq<T>, back: Seq<T>)
    ensures
        joined(front + back) == joined(front) + joined(back),
    decreases back.len(),
{
    if back.len() == 0 {
        assert(front + back =~= front);
        assert(joined(front + back) =~= joined(front) + joined(back));
    } else {
        lemma_joined_concat(front, back.drop_last());
        assert((front + back).drop_last() =~= front + back.drop_last());
        assert(joined(front + back) =~= joined(front) + joined(back));
    }
}

/// Length prefix: the bytes of a sequence are the four bytes of its length,
/// and after them the bytes of each item in order, and nothing else.
pub proof fn lemma_length_prefix<T: Pack>(items: Seq<T>)
    requires
        items.len() <= u32::MAX,
    ensures
        sequence_packed(items).len() == 4 + joined(items).len(),
        sequence_packed(items).take(4) == (items.len() as u32).packed(),
        be_value(sequence_packed(items).take(4)) == items.len(),
        sequence_packed(items).skip(4) == joined(items),
        items.len() == 0 ==> joined(items) == Seq::<u8>::empty(),
        items.len() > 0 ==> joined(items) == joined(items.drop_last()) + items.last().packed(),
{
    lemma_limits();
    lemma_be_value_at_front(items.len(), 4, joined(items));
    assert(sequence_packed(items).skip(4) =~= joined(items));
}

/// Length prefix of a text: the bytes of a text are the four bytes of the
/// count of its UTF-8 bytes, and after them those bytes, and nothing else.
pub proof fn lemma_text_length_prefix(text: Seq<char>)
    requires
        encode_utf8(text).len() <= u32::MAX,
    ensures
        text_packed(text).len() == 4 + encode_utf8(text).len(),
        text_packed(text).take(4) == (encode_utf8(text).len() as u32).packed(),
        be_value(text_packed(text).take(4)) == encode_utf8(text).len(),
        text_packed(text).skip(4) == encode_utf8(text),
{
    lemma_limits();
    lemma_be_value_at_front(encode_utf8(text).len(), 4, encode_utf8(text));
    assert(text_packed(text).skip(4) =~= encode_utf8(text));
}

/// Round trip of the items of a sequence, without the length prefix.
pub proof fn lemma_items_round_trip<T: Codec>(items: Seq<T>, rest: Seq<u8>)
    requires
        forall|i: int| 0 <= i < items.len() ==> (#[trigger] items[i]).representable(),
    ensures
        unpacked_items::<T>(joined(items) + rest, items.len()) == Unpacked::Value(
            values(items),
            joined(items).len(),
        ),
    decreases items.len(),
{
    if items.len() > 0 {
        let first = items[0];
        let tail = items.drop_first();
        let after = joined(tail) + rest;
        lemma_joined_front(items);
        assert(joined(items) + rest =~= first.packed() + after);
        first.lemma_round_trip(after);
        assert((first.packed() + after).skip(first.packed().len() as int) =~= after);
        lemma_items_round_trip(tail, rest);
        assert(seq![first.value()] + values(tail) =~= values(items));
    } else {
        assert(values(items) =~= Seq::<T::Value>::empty());
    }
}

/// The items of a sequence, cut short, fail as the source does: the items
/// that are whole are taken, and nothing of the one that is not.
pub proof fn lemma_items_truncated<T: Codec>(items: Seq<T>, cut: int)
    requires
        forall|i: int| 0 <= i < items.len() ==> (#[trigger] items[i]).representable(),
        0 <= cut < joined(items).len(),
    ensures
        unpacked_items::<T>(joined(items).take(cut), items.len()) matches Unpacked::Failure(
            kind,
            used,
        ) && kind == ErrorKind::Source && used <= cut,
    decreases items.len(),
{
    let first = items[0];
    let tail = items.drop_first();
    let width = first.packed().len() as int;
    lemma_joined_front(items);
    if cut < width {
        assert(joined(items).take(cut) =~= first.packed().take(cut));
        first.lemma_truncated(cut);
    } else {
        let after = joined(tail).take(cut - width);
        assert(joined(items).take(cut) =~= first.packed() + after);
        first.lemma_round_trip(after);
        assert((first.packed() + after).skip(width) =~= after);
        lemma_items_truncated(tail, cut - width);
    }
}

/// Round trip of a sequence: its bytes unpack to the values of its items,
/// whatever follows.
pub proof fn lemma_sequence_round_trip<T: Codec>(items: Seq<T>, rest: Seq<u8>)
    requires
        items.len() <= u32::MAX,
        forall|i: int| 0 <= i < items.len() ==> (#[trigger] items[i]).representable(),
    ensures
        Vec::<T>::unpacked(sequence_packed(items) + rest) == Unpacked::Value(
            values(items),
            sequence_packed(items).len(),
        ),
{
    let bytes = sequence_packed(items) + rest;
    lemma_limits();
    lemma_be_value_at_front(items.len(), 4, joined(items) + rest);
    assert(bytes =~= count_prefix(items.len()) + (joined(items) + rest));
    assert(bytes.skip(4) =~= joined(items) + rest);
    lemma_items_round_trip(items, rest);
}

/// Truncated sequence: the bytes of a sequence, cut short, fail as the
/// source does, and nothing is taken.
pub proof fn lemma_sequence_truncated<T: Codec>(items: Seq<T>, cut: int)
    requires
        items.len() <= u32::MAX,
        forall|i: int| 0 <= i < items.len() ==> (#[trigger] items[i]).representable(),
        0 <= cut < sequence_packed(items).len(),
    ensures
        Vec::<T>::unpacked(sequence_packed(items).take(cut)) == Unpacked::<
            Seq<T::Value>,
        >::Failure(ErrorKind::Source, 0),
{
    lemma_limits();
    lemma_be_bytes_len(items.len(), 4);
    if cut >= 4 {
        let after = joined(items).take(cut - 4);
        lemma_be_value_at_front(items.len(), 4, after);
        assert(sequence_packed(items).take(cut) =~= count_prefix(items.len()) + after);
        assert(sequence_packed(items).take(cut).skip(4) =~= after);
        lemma_items_truncated(items, cut - 4);
    }
}

/// Truncated integer: fewer bytes than the integer is wide fail as the
/// source does, for the integer and for its never-zero companion, whatever
/// the bytes are, and nothing is taken.
pub proof fn lemma_short_refused<T: Integer>(bytes: Seq<u8>)
    requires
        bytes.len() < T::width(),
    ensures
        T::unpacked(bytes) == Unpacked::<T::Value>::Failure(ErrorKind::Source, 0),
        NonZero::<T>::unpacked(bytes) == Unpacked::<T::Value>::Failure(ErrorKind::Source, 0),
{
    T::lemma_unpacked_width(bytes);
}

/// Boolean asymmetry: true is the zero byte and false the byte of all
/// ones; the byte of all ones unpacks to false, and every other byte to true.
pub proof fn lemma_bool_bytes(byte: u8, rest: Seq<u8>)
    ensures
        true.packed() == seq![0x00u8],
        false.packed() == seq![0xFFu8],
        bool::unpacked(seq![byte] + rest) == Unpacked::Value(byte != 0xFF, 1),
{
}

/// Non-zero invariant: bytes that begin with as many zeros as the integer
/// is wide unpack to zero as the integer, and are refused as its never-zero
/// companion. Either way the zeros are taken: as many bytes as the integer
/// is wide.
pub proof fn lemma_zero_refused<T: Integer>(bytes: Seq<u8>)
    requires
        bytes.len() >= T::width(),
        forall|i: int| 0 <= i < T::width() ==> bytes[i] == 0,
    ensures
        T::unpacked(bytes) matches Unpacked::Value(value, used) && T::zero(value) && used
            == T::width(),
        NonZero::<T>::unpacked(bytes) == Unpacked::<T::Value>::Failure(
            ErrorKind::Invariant,
            T::width(),
        ),
{
    T::lemma_zero_bytes(bytes);
}

} // verus!
