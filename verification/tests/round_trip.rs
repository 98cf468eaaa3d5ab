use std::rc::Rc;
use std::sync::Arc;
use wirepack::{
    NonZero, NonZeroI128, NonZeroI16, NonZeroI32, NonZeroI64, NonZeroI8, NonZeroU128,
    NonZeroU16, NonZeroU32, NonZeroU64, NonZeroU8, Pack, Unpack,
};

fn unpacked_whole<T: Unpack>(bytes: &[u8]) -> T {
    let mut reader: &[u8] = bytes;
    let value = T::unpack_from(&mut reader).unwrap();
    assert!(reader.is_empty());
    value
}

#[test]
fn round_trip_bool() {
    for value in [true, false] {
        assert_eq!(unpacked_whole::<bool>(&value.pack_to_vec()), value);
    }
}

#[test]
fn round_trip_u8() {
    for value in [0u8, 1, 0x7F, 0x80, 0xFE, u8::MAX] {
        assert_eq!(unpacked_whole::<u8>(&value.pack_to_vec()), value);
    }
}

#[test]
fn round_trip_u16() {
    for value in [0u16, 1, 0xFF, 0x100, 0x7FFF, 0x8000, u16::MAX] {
        assert_eq!(unpacked_whole::<u16>(&value.pack_to_vec()), value);
    }
}

#[test]
fn round_trip_u32() {
    for value in [0u32, 1, 0xFFFF, 0x1_0000, 0x7FFF_FFFF, 0x8000_0000, u32::MAX] {
        assert_eq!(unpacked_whole::<u32>(&value.pack_to_vec()), value);
    }
}

#[test]
fn round_trip_u64() {
    for value in [0u64, 1, 0xFFFF_FFFF, 0x1_0000_0000, 0x0123_4567_89AB_CDEF, u64::MAX] {
        assert_eq!(unpacked_whole::<u64>(&value.pack_to_vec()), value);
    }
}

#[test]
fn round_trip_u128() {
    for value in [0u128, 1, u64::MAX as u128, u64::MAX as u128 + 1, u128::MAX - 1, u128::MAX] {
        assert_eq!(unpacked_whole::<u128>(&value.pack_to_vec()), value);
    }
}

#[test]
fn round_trip_i8() {
    for value in [i8::MIN, -2, -1, 0, 1, i8::MAX] {
        assert_eq!(unpacked_whole::<i8>(&value.pack_to_vec()), value);
    }
}

#[test]
fn round_trip_i16() {
    for value in [i16::MIN, -256, -1, 0, 1, 255, i16::MAX] {
        assert_eq!(unpacked_whole::<i16>(&value.pack_to_vec()), value);
    }
}

#[test]
fn round_trip_i32() {
    for value in [i32::MIN, -65536, -1, 0, 1, 65535, i32::MAX] {
        assert_eq!(unpacked_whole::<i32>(&value.pack_to_vec()), value);
    }
}

#[test]
fn round_trip_i64() {
    for value in [i64::MIN, i32::MIN as i64 - 1, -1, 0, 1, i32::MAX as i64 + 1, i64::MAX] {
        assert_eq!(unpacked_whole::<i64>(&value.pack_to_vec()), value);
    }
}

#[test]
fn round_trip_i128() {
    for value in [i128::MIN, i64::MIN as i128 - 1, -1, 0, 1, i64::MAX as i128 + 1, i128::MAX] {
        assert_eq!(unpacked_whole::<i128>(&value.pack_to_vec()), value);
    }
}

#[test]
fn round_trip_non_zero_unsigned() {
    let a = NonZeroU8::new(u8::MAX).unwrap();
    assert_eq!(unpacked_whole::<NonZeroU8>(&a.pack_to_vec()), a);
    let b = NonZeroU16::new(1).unwrap();
    assert_eq!(unpacked_whole::<NonZeroU16>(&b.pack_to_vec()), b);
    let c = NonZeroU32::new(0x0100_0000).unwrap();
    assert_eq!(unpacked_whole::<NonZeroU32>(&c.pack_to_vec()), c);
    let d = NonZeroU64::new(u64::MAX).unwrap();
    assert_eq!(unpacked_whole::<NonZeroU64>(&d.pack_to_vec()), d);
    let e = NonZeroU128::new(1 << 127).unwrap();
    assert_eq!(unpacked_whole::<NonZeroU128>(&e.pack_to_vec()), e);
}

#[test]
fn round_trip_non_zero_signed() {
    let a = NonZeroI8::new(i8::MIN).unwrap();
    assert_eq!(unpacked_whole::<NonZeroI8>(&a.pack_to_vec()), a);
    let b = NonZeroI16::new(i16::MAX).unwrap();
    assert_eq!(unpacked_whole::<NonZeroI16>(&b.pack_to_vec()), b);
    let c = NonZeroI32::new(-1).unwrap();
    assert_eq!(unpacked_whole::<NonZeroI32>(&c.pack_to_vec()), c);
    let d = NonZeroI64::new(i64::MIN).unwrap();
    assert_eq!(unpacked_whole::<NonZeroI64>(&d.pack_to_vec()), d);
    let e = NonZeroI128::new(i128::MAX).unwrap();
    assert_eq!(unpacked_whole::<NonZeroI128>(&e.pack_to_vec()), e);
}

#[test]
fn round_trip_float_bits() {
    for value in [0.0f32, -0.0, 1.5, f32::MIN, f32::MAX, f32::INFINITY, f32::NEG_INFINITY, f32::NAN]
    {
        let bytes = value.to_bits().pack_to_vec();
        let back = f32::from_bits(unpacked_whole::<u32>(&bytes));
        assert_eq!(back.to_bits(), value.to_bits());
    }
    for value in [0.0f64, -0.0, 1.5, f64::MIN, f64::MAX, f64::INFINITY, f64::NEG_INFINITY, f64::NAN]
    {
        let bytes = value.to_bits().pack_to_vec();
        let back = f64::from_bits(unpacked_whole::<u64>(&bytes));
        assert_eq!(back.to_bits(), value.to_bits());
    }
}

#[test]
fn round_trip_float_nan_payload() {
    let pattern: u32 = 0x7FC0_1234;
    let value = f32::from_bits(pattern);
    assert!(value.is_nan());
    let bytes = value.to_bits().pack_to_vec();
    assert_eq!(bytes, [0x7F, 0xC0, 0x12, 0x34]);
    assert_eq!(unpacked_whole::<u32>(&bytes), pattern);
}

#[test]
fn round_trip_sequence_of_float_bits() {
    let values = [1.5f64, -0.0, f64::INFINITY, f64::NAN];
    let bits: Vec<u64> = values.iter().map(|value| value.to_bits()).collect();
    let bytes = bits.pack_to_vec();
    assert_eq!(bytes.len(), 4 + 8 * 4);
    assert_eq!(&bytes[..12], [0, 0, 0, 4, 0x3F, 0xF8, 0, 0, 0, 0, 0, 0]);
    assert_eq!(unpacked_whole::<Vec<u64>>(&bytes), bits);
}

#[test]
fn round_trip_empty_string() {
    let bytes = "".pack_to_vec();
    assert_eq!(bytes, [0, 0, 0, 0]);
    assert_eq!(unpacked_whole::<String>(&bytes), "");
}

#[test]
fn round_trip_string_of_many_scripts() {
    let text = "zero \u{0} tab\t caf\u{e9} \u{4e16}\u{754c} \u{1F600}";
    let bytes = text.pack_to_vec();
    assert_eq!(bytes.len(), 4 + text.len());
    assert_eq!(unpacked_whole::<String>(&bytes), text);
}

#[test]
fn round_trip_string_longer_than_a_chunk() {
    for length in [511usize, 512, 513, 1024, 1025, 5000] {
        let text: String = (0..length).map(|i| char::from(b'a' + (i % 26) as u8)).collect();
        let bytes = text.pack_to_vec();
        assert_eq!(bytes.len(), 4 + length);
        assert_eq!(unpacked_whole::<String>(&bytes), text);
    }
}

#[test]
fn round_trip_string_with_wide_chars_across_chunks() {
    let text: String = (0..700).map(|_| '\u{4e16}').collect();
    assert_eq!(text.len(), 2100);
    let bytes = text.pack_to_vec();
    assert_eq!(&bytes[..4], [0x00, 0x00, 0x08, 0x34]);
    assert_eq!(unpacked_whole::<String>(&bytes), text);
}

#[test]
fn round_trip_owned_string() {
    let text = String::from("owned");
    assert_eq!(text.pack_to_vec(), "owned".pack_to_vec());
    assert_eq!(unpacked_whole::<String>(&text.pack_to_vec()), text);
}

#[test]
fn round_trip_empty_sequence() {
    let items: Vec<u32> = Vec::new();
    let bytes = items.pack_to_vec();
    assert_eq!(bytes, [0, 0, 0, 0]);
    assert_eq!(unpacked_whole::<Vec<u32>>(&bytes), items);
}

#[test]
fn round_trip_single_item_sequence() {
    let items: Vec<i16> = vec![-2];
    let bytes = items.pack_to_vec();
    assert_eq!(bytes, [0, 0, 0, 1, 0xFF, 0xFE]);
    assert_eq!(unpacked_whole::<Vec<i16>>(&bytes), items);
}

#[test]
fn round_trip_large_sequence() {
    let items: Vec<u16> = (0..3000).collect();
    let bytes = items.pack_to_vec();
    assert_eq!(bytes.len(), 4 + 2 * 3000);
    assert_eq!(&bytes[..4], [0x00, 0x00, 0x0B, 0xB8]);
    assert_eq!(unpacked_whole::<Vec<u16>>(&bytes), items);
}

#[test]
fn round_trip_sequence_of_strings() {
    let items = vec![String::from("a"), String::new(), String::from("\u{e9}t\u{e9}")];
    let bytes = items.pack_to_vec();
    assert_eq!(
        bytes,
        [
            0, 0, 0, 3, 0, 0, 0, 1, 0x61, 0, 0, 0, 0, 0, 0, 0, 5, 0xC3, 0xA9, 0x74, 0xC3, 0xA9
        ]
    );
    assert_eq!(unpacked_whole::<Vec<String>>(&bytes), items);
}

#[test]
fn round_trip_nested_sequences() {
    let items: Vec<Vec<NonZero<i64>>> = vec![
        vec![NonZeroI64::new(-1).unwrap(), NonZeroI64::new(i64::MAX).unwrap()],
        Vec::new(),
        vec![NonZeroI64::new(7).unwrap()],
    ];
    let bytes = items.pack_to_vec();
    assert_eq!(bytes.len(), 4 + (4 + 16) + 4 + (4 + 8));
    assert_eq!(unpacked_whole::<Vec<Vec<NonZero<i64>>>>(&bytes), items);
}

#[test]
fn round_trip_wrappers() {
    let boxed: Box<u32> = Box::new(0xDEAD_BEEF);
    assert_eq!(boxed.pack_to_vec(), [0xDE, 0xAD, 0xBE, 0xEF]);
    assert_eq!(unpacked_whole::<Box<u32>>(&boxed.pack_to_vec()), boxed);
    let shared: Rc<String> = Rc::new(String::from("rc"));
    assert_eq!(shared.pack_to_vec(), [0, 0, 0, 2, 0x72, 0x63]);
    assert_eq!(unpacked_whole::<Rc<String>>(&shared.pack_to_vec()), shared);
    let atomic: Arc<Vec<bool>> = Arc::new(vec![true, false]);
    assert_eq!(atomic.pack_to_vec(), [0, 0, 0, 2, 0x00, 0xFF]);
    assert_eq!(unpacked_whole::<Arc<Vec<bool>>>(&atomic.pack_to_vec()), atomic);
}

#[test]
fn wrappers_add_no_bytes() {
    let value: i64 = -3;
    let plain = value.pack_to_vec();
    assert_eq!(Box::new(value).pack_to_vec(), plain);
    assert_eq!(Rc::new(value).pack_to_vec(), plain);
    assert_eq!(Arc::new(value).pack_to_vec(), plain);
    assert_eq!(Box::new(Rc::new(Arc::new(value))).pack_to_vec(), plain);
}

#[test]
fn round_trip_with_bytes_after_the_value() {
    let mut bytes = 0x0102u16.pack_to_vec();
    bytes.push(0xAA);
    bytes.push(0xBB);
    let mut reader: &[u8] = &bytes;
    assert_eq!(u16::unpack_from(&mut reader).unwrap(), 0x0102);
    assert_eq!(reader, [0xAA, 0xBB]);
}

#[test]
fn values_in_a_row_unpack_in_order() {
    let mut bytes: Vec<u8> = Vec::new();
    let mut written = true.pack_into(&mut bytes);
    written += (-2i16).pack_into(&mut bytes);
    written += "hi".pack_into(&mut bytes);
    written += [7u8, 8].pack_into(&mut bytes);
    written += NonZeroU32::new(9).unwrap().pack_into(&mut bytes);
    assert_eq!(written, bytes.len());
    assert_eq!(written, 1 + 2 + 6 + 6 + 4);

    let mut reader: &[u8] = &bytes;
    assert_eq!(bool::unpack_from(&mut reader).unwrap(), true);
    assert_eq!(i16::unpack_from(&mut reader).unwrap(), -2);
    assert_eq!(String::unpack_from(&mut reader).unwrap(), "hi");
    assert_eq!(Vec::<u8>::unpack_from(&mut reader).unwrap(), [7, 8]);
    assert_eq!(NonZeroU32::unpack_from(&mut reader).unwrap().get(), 9);
    assert!(reader.is_empty());
}

#[test]
fn string_takes_only_its_own_bytes() {
    let mut bytes = "abc".pack_to_vec();
    bytes.extend_from_slice(&[0xFF, 0xFE]);
    let mut reader: &[u8] = &bytes;
    assert_eq!(String::unpack_from(&mut reader).unwrap(), "abc");
    assert_eq!(reader, [0xFF, 0xFE]);
}
