use reader::byte_utils::{bits_to_u8, cast_bytes, col_from_buf, get_bit_slice, get_buffer_slice};
use reader::column_utils::get_len_from_columns;
use reader::schema::{BufferValue, DType};
use reader::value::{DecodeError, FieldValue};

fn field(name: &str, dtype: DType, offset: Option<usize>, length: usize) -> BufferValue {
    BufferValue {
        name: name.to_string(),
        dtype,
        offset,
        length,
        default: false,
        suppress: false,
    }
}

#[test]
fn width_is_largest_field_end() {
    let a = field("a", DType::UInt, Some(0), 4);
    let b = field("b", DType::Char, Some(4), 6);
    let c = field("c", DType::Byte, Some(2), 1);
    assert_eq!(get_len_from_columns(vec![&a, &b, &c]), 10);
}

#[test]
fn width_counts_fields_without_offset_from_zero() {
    let a = field("a", DType::UInt, None, 4);
    let b = field("b", DType::Byte, Some(1), 1);
    assert_eq!(get_len_from_columns(vec![&a, &b]), 4);
}

#[test]
fn bit_fields_are_right_justified_msb_first() {
    let buf = [0b1011_0010u8, 0xff];
    let col = field("f", DType::Bit, None, 3);
    let mut offset = 0usize;
    let mut bit = 0usize;
    let v = col_from_buf(&col, &buf, &mut offset, &mut bit, 4).unwrap();
    assert_eq!(v, FieldValue::Unsigned(5));
    assert_eq!((offset, bit), (0, 3));
    let v = col_from_buf(&col, &buf, &mut offset, &mut bit, 4).unwrap();
    assert_eq!(v, FieldValue::Unsigned(4));
    assert_eq!((offset, bit), (0, 6));
    let last = field("g", DType::Bit, None, 2);
    let v = col_from_buf(&last, &buf, &mut offset, &mut bit, 4).unwrap();
    assert_eq!(v, FieldValue::Unsigned(2));
    assert_eq!((offset, bit), (1, 0));
}

#[test]
fn byte_field_after_partial_bits_flushes_to_next_byte() {
    let buf = [0b1000_0000u8, 7];
    let bitcol = field("f", DType::Bit, None, 1);
    let bytecol = field("b", DType::Byte, None, 1);
    let mut offset = 0usize;
    let mut bit = 0usize;
    assert_eq!(col_from_buf(&bitcol, &buf, &mut offset, &mut bit, 1).unwrap(), FieldValue::Unsigned(1));
    assert_eq!((offset, bit), (0, 1));
    assert_eq!(col_from_buf(&bytecol, &buf, &mut offset, &mut bit, 1).unwrap(), FieldValue::Unsigned(7));
    assert_eq!((offset, bit), (2, 0));
}

#[test]
fn bit_field_crossing_a_byte_fails() {
    let buf = [0xffu8, 0xff];
    let col = field("f", DType::Bit, None, 4);
    let mut offset = 0usize;
    let mut bit = 6usize;
    assert_eq!(col_from_buf(&col, &buf, &mut offset, &mut bit, 1), Err(DecodeError::Conversion));
    assert_eq!((offset, bit), (0, 6));
    let wide = field("w", DType::Bit, None, 9);
    let mut bit = 0usize;
    assert_eq!(col_from_buf(&wide, &buf, &mut offset, &mut bit, 1), Err(DecodeError::Conversion));
}

#[test]
fn four_byte_field_at_two_realigns_to_four() {
    let buf = [0u8, 0, 9, 9, 0, 0, 1, 2];
    let col = field("v", DType::UInt, None, 4);
    let mut offset = 2usize;
    let mut bit = 0usize;
    let v = col_from_buf(&col, &buf, &mut offset, &mut bit, 4).unwrap();
    assert_eq!(v, FieldValue::Unsigned(258));
    assert_eq!(offset, 8);
}

#[test]
fn four_byte_field_at_three_realigns_to_four() {
    let buf = [0u8, 0, 0, 0, 0, 0, 0, 7, 0, 0];
    let col = field("v", DType::UInt, None, 4);
    let mut offset = 3usize;
    let mut bit = 0usize;
    let v = col_from_buf(&col, &buf, &mut offset, &mut bit, 4).unwrap();
    assert_eq!(v, FieldValue::Unsigned(7));
    assert_eq!(offset, 8);
}

#[test]
fn four_byte_field_at_one_realigns_to_four() {
    let buf = [0u8, 0, 0, 0, 0, 0, 1, 0];
    let col = field("v", DType::UInt, None, 4);
    let mut offset = 1usize;
    let mut bit = 0usize;
    assert_eq!(col_from_buf(&col, &buf, &mut offset, &mut bit, 4).unwrap(), FieldValue::Unsigned(256));
    assert_eq!(offset, 8);
}

#[test]
fn no_padding_when_length_is_not_a_multiple() {
    let buf = [0u8, 1, 2, 3];
    let col = field("v", DType::Byte, None, 1);
    let mut offset = 1usize;
    let mut bit = 0usize;
    assert_eq!(col_from_buf(&col, &buf, &mut offset, &mut bit, 4).unwrap(), FieldValue::Unsigned(1));
    assert_eq!(offset, 2);
}

#[test]
fn fixed_offset_overrides_cursor() {
    let buf = [1u8, 2, 3, 4, 5, 6];
    let col = field("v", DType::Short, Some(4), 2);
    let mut offset = 1usize;
    let mut bit = 0usize;
    assert_eq!(col_from_buf(&col, &buf, &mut offset, &mut bit, 2).unwrap(), FieldValue::Signed(0x0506));
    assert_eq!(offset, 6);
}

#[test]
fn short_buffer_is_a_conversion_error() {
    let buf = [1u8, 2, 3];
    let col = field("v", DType::UInt, None, 4);
    let mut offset = 0usize;
    let mut bit = 0usize;
    assert_eq!(col_from_buf(&col, &buf, &mut offset, &mut bit, 1), Err(DecodeError::Conversion));
    assert_eq!(offset, 0);
}

#[test]
fn casts_are_big_endian() {
    assert_eq!(cast_bytes(&[0x01, 0x02, 0x03, 0x04], &DType::UInt), Ok(FieldValue::Unsigned(0x01020304)));
    assert_eq!(cast_bytes(&[0xff, 0xfe], &DType::Short), Ok(FieldValue::Signed(-2)));
    assert_eq!(cast_bytes(&[0x7f, 0xff], &DType::Short), Ok(FieldValue::Signed(32767)));
    assert_eq!(cast_bytes(&[0xff, 0xff, 0xff, 0xff], &DType::SInt), Ok(FieldValue::Signed(-1)));
    assert_eq!(cast_bytes(&[0x80, 0, 0, 0], &DType::SInt), Ok(FieldValue::Signed(-2147483648)));
    assert_eq!(cast_bytes(&[200], &DType::Byte), Ok(FieldValue::Unsigned(200)));
    assert_eq!(cast_bytes(&[0], &DType::Bool), Ok(FieldValue::Bool(false)));
    assert_eq!(cast_bytes(&[3], &DType::Bool), Ok(FieldValue::Bool(true)));
    assert_eq!(cast_bytes(&[1, 2, 3], &DType::Pad), Ok(FieldValue::Null));
}

#[test]
fn float_keeps_its_bit_pattern() {
    let bytes = 2.5f64.to_be_bytes();
    assert_eq!(cast_bytes(&bytes, &DType::Float), Ok(FieldValue::Float(2.5f64.to_bits())));
    assert_eq!(cast_bytes(&f64::NAN.to_be_bytes(), &DType::Float), Err(DecodeError::Conversion));
    assert_eq!(cast_bytes(&f64::INFINITY.to_be_bytes(), &DType::Float), Err(DecodeError::Conversion));
}

#[test]
fn text_is_decoded_lossily() {
    assert_eq!(cast_bytes(b"Saumil", &DType::Char), Ok(FieldValue::Text("Saumil".to_string())));
    assert_eq!(
        cast_bytes(&[b'a', 0xff, b'b'], &DType::Char),
        Ok(FieldValue::Text("a\u{fffd}b".to_string()))
    );
}

#[test]
fn wrong_length_casts_fail() {
    assert_eq!(cast_bytes(&[1, 2], &DType::Byte), Err(DecodeError::Conversion));
    assert_eq!(cast_bytes(&[1, 2, 3], &DType::UInt), Err(DecodeError::Conversion));
    assert_eq!(cast_bytes(&[], &DType::Bool), Err(DecodeError::Conversion));
    assert_eq!(cast_bytes(&[1, 2, 3, 4], &DType::Float), Err(DecodeError::Conversion));
}

#[test]
fn bit_slice_and_packing() {
    let mut out = [9u8; 8];
    get_bit_slice(0b1011_0010, 2, 4, &mut out);
    assert_eq!(out, [1, 1, 0, 0, 9, 9, 9, 9]);
    assert_eq!(bits_to_u8([1, 0, 1, 1, 0, 0, 1, 0]), 0b1011_0010);
    assert_eq!(cast_bytes(&[0, 0, 0, 0, 0, 1, 0, 1], &DType::Bit), Ok(FieldValue::Unsigned(5)));
}

#[test]
fn buffer_slice_advances_offset() {
    let buf = [1u8, 2, 3, 4, 5];
    let mut offset = 1usize;
    let s = get_buffer_slice(&buf, 3, &mut offset);
    assert_eq!(s, &[2, 3, 4]);
    assert_eq!(offset, 4);
}

#[test]
fn length_that_disagrees_with_kind_is_a_config_error() {
    let buf = [0u8; 8];
    let col = field("v", DType::UInt, None, 3);
    let mut offset = 0usize;
    let mut bit = 0usize;
    assert_eq!(col_from_buf(&col, &buf, &mut offset, &mut bit, 1), Err(DecodeError::Config));
    let col = field("b", DType::Bool, Some(0), 2);
    assert_eq!(col_from_buf(&col, &buf, &mut offset, &mut bit, 1), Err(DecodeError::Config));
}
