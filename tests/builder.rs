use std::borrow::Cow;
use string_capacity::{BytesAppendable, BytesBuilder, EndianBytesAppendable, StringAppendable, StringBuilder};

#[test]
fn bytes_builder_be_and_le() {
    let bytes = BytesBuilder::build(|builder| {
        builder.append_be(6i32);
        builder.append_le(8i32);
    })
    .unwrap();
    assert_eq!(bytes, vec![0, 0, 0, 6, 8, 0, 0, 0]);
}

#[test]
fn bytes_builder() {
    let bytes = BytesBuilder::build(|builder| {
        builder.append("Hello, ");
        builder.append("world!");
        builder.append("testing ");
    })
    .unwrap();
    assert_eq!(String::from_utf8(bytes).unwrap(), "Hello, world!testing ");
}

#[test]
fn string_builder_joins_slices() {
    let text = StringBuilder::build(|builder| {
        builder.append("Hello, ");
        builder.append("world!");
        builder.append("testing ");
    })
    .unwrap();
    assert_eq!(text, "Hello, world!testing ");
    assert_eq!(text.len(), 21);
    assert_eq!(text.capacity(), 21);
}

#[test]
fn string_builder_integers() {
    let text = StringBuilder::build(|builder| {
        builder.append(0i32);
        builder.append(1i32);
        builder.append(-5i32);
        builder.append(12345i32);
    })
    .unwrap();
    assert_eq!(text, "01-512345");
    assert_eq!(text.len(), 9);
    assert_eq!(text.capacity(), 9);
}

#[test]
fn string_builder_optional_values() {
    let text = StringBuilder::build(|builder| {
        builder.append(Some("x"));
        builder.append(None::<&str>);
        builder.append(Some("y"));
    })
    .unwrap();
    assert_eq!(text, "xy");
    assert_eq!(text.capacity(), 2);
}

#[test]
fn optional_lengths() {
    assert_eq!(StringAppendable::byte_len(&None::<&str>), 0);
    assert_eq!(StringAppendable::byte_len(&Some("abc")), 3);
    assert_eq!(BytesAppendable::byte_len(&None::<char>), 0);
    assert_eq!(BytesAppendable::byte_len(&Some('€')), 3);
    let mut text = String::from("a");
    StringAppendable::push_to(&None::<&str>, &mut text);
    assert_eq!(text, "a");
    let mut bytes = vec![1u8];
    BytesAppendable::push_to(&None::<&str>, &mut bytes);
    assert_eq!(bytes, vec![1u8]);
}

#[test]
fn digit_count_matches_formatting() {
    fn check<T: StringAppendable + ToString + Copy>(values: &[T]) {
        for v in values {
            let mut text = String::new();
            v.push_to(&mut text);
            assert_eq!(text, v.to_string());
            assert_eq!(StringAppendable::byte_len(v), v.to_string().len());
        }
    }
    check(&[0u8, 9, 10, 99, 100, u8::MAX]);
    check(&[0i8, -1, -9, -10, 127, i8::MIN]);
    check(&[0u16, 1000, u16::MAX]);
    check(&[i16::MIN, -1000, i16::MAX]);
    check(&[0u32, 999_999, 1_000_000, u32::MAX]);
    check(&[i32::MIN, -100, 0, i32::MAX]);
    check(&[0u64, 10_000_000_000, u64::MAX]);
    check(&[i64::MIN, -7, i64::MAX]);
    check(&[0u128, 1, u128::MAX]);
    check(&[i128::MIN, -1, i128::MAX]);
    check(&[0usize, 42, usize::MAX]);
    check(&[isize::MIN, -42, isize::MAX]);
}

#[test]
fn extreme_integers_as_text() {
    let text = StringBuilder::build(|builder| {
        builder.append(i128::MIN);
        builder.append(' ');
        builder.append(u128::MAX);
    })
    .unwrap();
    assert_eq!(
        text,
        "-170141183460469231731687303715884105728 340282366920938463463374607431768211455"
    );
    assert_eq!(text.capacity(), text.len());
}

#[test]
fn endian_round_trip() {
    let bytes = BytesBuilder::build(|builder| {
        builder.append_be(0x1234u16);
        builder.append_le(0x1234u16);
        builder.append_be(-2i64);
        builder.append_le(-2i64);
        builder.append_le(u128::MAX - 1);
        builder.append_be(7u8);
        builder.append_le(-1i8);
    })
    .unwrap();
    assert_eq!(&bytes[0..4], &[0x12, 0x34, 0x34, 0x12]);
    assert_eq!(i64::from_be_bytes(bytes[4..12].try_into().unwrap()), -2);
    assert_eq!(i64::from_le_bytes(bytes[12..20].try_into().unwrap()), -2);
    assert_eq!(u128::from_le_bytes(bytes[20..36].try_into().unwrap()), u128::MAX - 1);
    assert_eq!(&bytes[36..], &[7, 0xff]);
    assert_eq!(bytes.len(), 38);
    assert_eq!(bytes.capacity(), 38);
}

#[test]
fn endian_widths() {
    assert_eq!(EndianBytesAppendable::byte_len(&1u8), 1);
    assert_eq!(EndianBytesAppendable::byte_len(&1i16), 2);
    assert_eq!(EndianBytesAppendable::byte_len(&1u32), 4);
    assert_eq!(EndianBytesAppendable::byte_len(&1i64), 8);
    assert_eq!(EndianBytesAppendable::byte_len(&1u128), 16);
    assert_eq!(EndianBytesAppendable::byte_len(&1usize), std::mem::size_of::<usize>());
    let mut le = Vec::new();
    let mut be = Vec::new();
    0x0102_0304usize.push_le_to(&mut le);
    0x0102_0304usize.push_be_to(&mut be);
    assert_eq!(le, 0x0102_0304usize.to_le_bytes().to_vec());
    assert_eq!(be, 0x0102_0304usize.to_be_bytes().to_vec());
    let mut neg = Vec::new();
    (-3isize).push_be_to(&mut neg);
    assert_eq!(neg, (-3isize).to_be_bytes().to_vec());
}

#[test]
fn characters_in_text_and_bytes() {
    let text = StringBuilder::build(|builder| {
        builder.append('a');
        builder.append('é');
        builder.append('€');
        builder.append('𝄞');
    })
    .unwrap();
    assert_eq!(text, "aé€𝄞");
    assert_eq!(text.len(), 10);
    assert_eq!(text.capacity(), 10);
    let bytes = BytesBuilder::build(|builder| {
        builder.append('a');
        builder.append('é');
        builder.append('€');
        builder.append('𝄞');
    })
    .unwrap();
    assert_eq!(bytes, "aé€𝄞".as_bytes().to_vec());
    assert_eq!(StringAppendable::byte_len(&'𝄞'), 4);
    assert_eq!(BytesAppendable::byte_len(&'é'), 2);
}

#[test]
fn owned_and_copy_on_write_text() {
    let owned = String::from("owned ");
    let borrowed: Cow<str> = Cow::Borrowed("borrowed ");
    let cow_owned: Cow<str> = Cow::Owned(String::from("cow"));
    let text = StringBuilder::build(|builder| {
        builder.append(&owned);
        builder.append(&borrowed);
        builder.append(&cow_owned);
    })
    .unwrap();
    assert_eq!(text, "owned borrowed cow");
    let bytes = BytesBuilder::build(|builder| {
        builder.append(&owned);
        builder.append(&borrowed);
        builder.append(&cow_owned);
        builder.append(&&"!");
    })
    .unwrap();
    assert_eq!(bytes, b"owned borrowed cow!".to_vec());
}

#[test]
fn length_is_sum_of_parts() {
    let parts = ["ab", "ü", "", "日本"];
    let expected: usize = parts.iter().map(|p| StringAppendable::byte_len(p)).sum::<usize>()
        + StringAppendable::byte_len(&-42i16)
        + StringAppendable::byte_len(&'ß');
    let text = StringBuilder::build(|builder| {
        for p in parts.iter() {
            builder.append(p);
        }
        builder.append(-42i16);
        builder.append('ß');
    })
    .unwrap();
    assert_eq!(text.len(), expected);
    assert_eq!(text, "abü日本-42ß");
}

#[test]
fn building_twice_gives_the_same_result() {
    let recipe = |builder: &mut BytesBuilder| {
        builder.append("x");
        builder.append_be(300u16);
    };
    let first = BytesBuilder::build(recipe).unwrap();
    let second = BytesBuilder::build(recipe).unwrap();
    assert_eq!(first, second);
    assert_eq!(first, vec![b'x', 1, 44]);
}

#[test]
fn empty_recipe() {
    let text = StringBuilder::build(|_| {}).unwrap();
    assert_eq!(text, "");
    let bytes = BytesBuilder::build(|_| {}).unwrap();
    assert!(bytes.is_empty());
}
