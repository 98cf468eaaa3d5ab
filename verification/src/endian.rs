//! Big-endian numbers: what a number looks like as bytes, most significant
//! byte first, and how signed numbers map onto unsigned ones.

use vstd::prelude::*;

verus! {

/// How many numbers `width` bytes can tell apart: 256 to the power `width`.
pub open spec fn limit(width: nat) -> nat
    decreases width,
{
    if width == 0 {
        1
    } else {
        256 * limit((width - 1) as nat)
    }
}

/// The low `width` bytes of `value`, most significant byte first.
pub open spec fn be_bytes(value: nat, width: nat) -> Seq<u8>
    decreases width,
{
    if width == 0 {
        Seq::empty()
    } else {
        be_bytes(value / 256, (width - 1) as nat).push((value % 256) as u8)
    }
}

/// The number that `bytes` spell, most significant byte first.
pub open spec fn be_value(bytes: Seq<u8>) -> nat
    decreases bytes.len(),
{
    if bytes.len() == 0 {
        0
    } else {
        be_value(bytes.drop_last()) * 256 + bytes.last() as nat
    }
}

/// The two's complement image of `value` in `width` bytes.
pub open spec fn to_unsigned(value: int, width: nat) -> nat {
    if value < 0 {
        (value + limit(width)) as nat
    } else {
        value as nat
    }
}

/// The signed number whose two's complement image in `width` bytes is `image`.
pub open spec fn to_signed(image: nat, width: nat) -> int {
    if 2 * image >= limit(width) {
        image - limit(width)
    } else {
        image as int
    }
}

/// The limits of the widths that the fixed-width integers use.
pub proof fn lemma_limits()
    ensures
        limit(0) == 1,
        limit(1) == 0x100,
        limit(2) == 0x1_0000,
        limit(4) == 0x1_0000_0000,
        limit(8) == 0x1_0000_0000_0000_0000,
        limit(16) == 0x1_0000_0000_0000_0000_0000_0000_0000_0000,
{
    reveal_with_fuel(limit, 5);
    assert(limit(4) == 0x1_0000_0000);
    assert(limit(8) == 0x1_0000_0000 * limit(4));
    assert(limit(12) == 0x1_0000_0000 * limit(8));
    assert(limit(16) == 0x1_0000_0000 * limit(12));
}

/// A wider number has the larger limit.
pub proof fn lemma_limit_grows(narrow: nat, wide: nat)
    requires
        narrow <= wide,
    ensures
        limit(narrow) <= limit(wide),
        limit(narrow) > 0,
    decreases wide,
{
    if narrow < wide {
        lemma_limit_grows(narrow, (wide - 1) as nat);
    } else if wide > 0 {
        lemma_limit_grows((narrow - 1) as nat, (wide - 1) as nat);
    }
}

/// `be_bytes` yields exactly `width` bytes.
pub proof fn lemma_be_bytes_len(value: nat, width: nat)
    ensures
        be_bytes(value, width).len() == width,
    decreases width,
{
    if width > 0 {
        lemma_be_bytes_len(value / 256, (width - 1) as nat);
    }
}

/// A number spelled in bytes stays under the limit of their count.
pub proof fn lemma_be_value_bound(bytes: Seq<u8>)
    ensures
        be_value(bytes) < limit(bytes.len()),
    decreases bytes.len(),
{
    if bytes.len() > 0 {
        lemma_be_value_bound(bytes.drop_last());
    }
}

/// Reading back the bytes of a number that fits gives the number.
pub proof fn lemma_be_value_of_bytes(value: nat, width: nat)
    requires
        value < limit(width),
    ensures
        be_value(be_bytes(value, width)) == value,
    decreases width,
{
    if width > 0 {
        let head = be_bytes(value / 256, (width - 1) as nat);
        lemma_be_value_of_bytes(value / 256, (width - 1) as nat);
        assert(be_bytes(value, width).drop_last() =~= head);
    }
}

/// The bytes of a number that fits, read back at the front of a longer
/// run of bytes, give the number.
pub proof fn lemma_be_value_at_front(value: nat, width: nat, rest: Seq<u8>)
    requires
        value < limit(width),
    ensures
        (be_bytes(value, width) + rest).len() >= width,
        (be_bytes(value, width) + rest).take(width as int) == be_bytes(value, width),
        be_value((be_bytes(value, width) + rest).take(width as int)) == value,
{
    lemma_be_bytes_len(value, width);
    lemma_be_value_of_bytes(value, width);
    assert((be_bytes(value, width) + rest).take(width as int) =~= be_bytes(value, width));
}

/// Bytes that are all zero spell zero.
pub proof fn lemma_be_value_zero(bytes: Seq<u8>)
    requires
        forall|i: int| 0 <= i < bytes.len() ==> bytes[i] == 0,
    ensures
        be_value(bytes) == 0,
    decreases bytes.len(),
{
    if bytes.len() > 0 {
        lemma_be_value_zero(bytes.drop_last());
    }
}

/// Two's complement loses nothing: a signed number in range comes back
/// from its image, and the image fits the width.
pub proof fn lemma_signed_of_unsigned(value: int, width: nat)
    requires
        -limit(width) <= 2 * value < limit(width),
    ensures
        to_unsigned(value, width) < limit(width),
        to_signed(to_unsigned(value, width), width) == value,
{
}

/// Appends the low `width` bytes of `value` to `writer`, most significant
/// byte first.
pub fn write_be(value: u128, width: usize, writer: &mut Vec<u8>)
    ensures
        final(writer)@ == old(writer)@ + be_bytes(value as nat, width as nat),
    decreases width,
{
    if width > 0 {
        write_be(value / 256, width - 1, writer);
        writer.push((value % 256) as u8);
    }
    assert(writer@ =~= old(writer)@ + be_bytes(value as nat, width as nat));
}

/// The number that at most sixteen bytes spell, most significant byte first.
pub(crate) fn read_be(bytes: &[u8]) -> (value: u128)
    requires
        bytes@.len() <= 16,
    ensures
        value == be_value(bytes@),
{
    let mut value: u128 = 0;
    let mut i: usize = 0;
    while i < bytes.len()
        invariant
            i <= bytes@.len() <= 16,
            value == be_value(bytes@.take(i as int)),
        decreases bytes@.len() - i,
    {
        proof {
            let head = bytes@.take(i as int);
            let next = bytes@.take(i + 1);
            lemma_be_value_bound(head);
            lemma_be_value_bound(next);
            lemma_limit_grows((i + 1) as nat, 16);
            lemma_limits();
            assert(next.drop_last() =~= head);
        }
        value = value * 256 + bytes[i] as u128;
        i += 1;
    }
    assert(bytes@.take(i as int) =~= bytes@);
    value
}

/// The two's complement image of `value` among the numbers up to `top`,
/// where `top` is the largest of them: one less than a limit.
pub(crate) fn unsigned_image(value: i128, top: u128) -> (image: u128)
    requires
        -(top + 1) <= 2 * value < top + 1,
    ensures
        value >= 0 ==> image == value,
        value < 0 ==> image == value + top + 1,
{
    if value >= 0 {
        value as u128
    } else {
        top - (-(value + 1)) as u128
    }
}

/// The signed number whose two's complement image among the numbers up to
/// `top` is `image`.
pub(crate) fn signed_value(image: u128, top: u128) -> (value: i128)
    requires
        image <= top,
    ensures
        2 * image < top + 1 ==> value == image,
        2 * image >= top + 1 ==> value == image - top - 1,
{
    if image <= top / 2 {
        image as i128
    } else {
        -((top - image) as i128) - 1
    }
}

} // verus!
