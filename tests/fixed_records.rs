use std::collections::HashMap;

use reader::native::NativeAdapter;
use reader::schema::{
    BufferValue, CompressionType, Config, DType, NativeSettings, PacketHeader, PacketInfo,
};
use reader::value::{DecodeError, FieldValue, Record};

fn field(name: &str, dtype: DType, offset: Option<usize>, length: usize) -> BufferValue {
    BufferValue {
        name: name.to_string(),
        dtype,
        offset,
        length,
        default: false,
        suppress: false,
    }
}

fn empty_settings() -> NativeSettings {
    NativeSettings {
        packet_header: PacketHeader {
            packet_size: field("packet_size", DType::UInt, Some(0), 4),
            timestamp: field("timestamp", DType::UInt, Some(4), 4),
        },
        packet_info: PacketInfo {
            no_of_packets: field("n", DType::Byte, None, 1),
            compressed_packet_size: field("c", DType::Pad, None, 0),
            compression_type: CompressionType::Lzo,
            packet_size: field("s", DType::Byte, None, 1),
            packet_identifier: field("i", DType::Byte, None, 1),
            column_details: HashMap::new(),
        },
        packing: 1,
        max_frame_size: 1024,
        decompress_capacity: 2048,
    }
}

fn config(columns: Vec<BufferValue>) -> Config {
    Config {
        all_columns: true,
        selected_columns: vec![],
        native_columns: columns,
        native: empty_settings(),
        use_default_columns: false,
        default_columns: vec![],
    }
}

/// id: i32, name: 6 chars, active: bool, points: f64 — 19 bytes a record.
fn people_columns() -> Vec<BufferValue> {
    vec![
        field("id", DType::SInt, Some(0), 4),
        field("name", DType::Char, Some(4), 6),
        field("active", DType::Bool, Some(10), 1),
        field("points", DType::Float, Some(11), 8),
    ]
}

fn person(id: i32, name: &str, active: bool, points: f64) -> Vec<u8> {
    let mut out = id.to_be_bytes().to_vec();
    out.extend_from_slice(name.as_bytes());
    out.push(if active { 1 } else { 0 });
    out.extend_from_slice(&points.to_be_bytes());
    out
}

fn people(n: usize) -> Vec<u8> {
    let mut data = vec![];
    for i in 0..n {
        data.extend(person(i as i32, "Saumil", i % 2 == 0, 2.5));
    }
    data
}

fn value<'a>(r: &'a Record, name: &str) -> Option<&'a FieldValue> {
    r.entries.iter().rev().find(|(n, _)| n == name).map(|(_, v)| v)
}

#[test]
fn reads_every_field_of_a_record() {
    let data = person(1, "Saumil", true, 2.5);
    let cfg = config(people_columns());
    let rs = NativeAdapter {}.read(&data, &cfg, None, 10).unwrap();
    assert_eq!(rs.len(), 1);
    assert_eq!(value(&rs[0], "id"), Some(&FieldValue::Signed(1)));
    assert_eq!(value(&rs[0], "name"), Some(&FieldValue::Text("Saumil".to_string())));
    assert_eq!(value(&rs[0], "active"), Some(&FieldValue::Bool(true)));
    assert_eq!(value(&rs[0], "points"), Some(&FieldValue::Float(2.5f64.to_bits())));
    assert_eq!(rs[0].entries.len(), 4);
}

#[test]
fn window_inside_the_source() {
    let data = people(6);
    let cfg = config(people_columns());
    let rs = NativeAdapter {}.read(&data, &cfg, Some(2), 3).unwrap();
    assert_eq!(rs.len(), 3);
    assert_eq!(value(&rs[0], "id"), Some(&FieldValue::Signed(2)));
    assert_eq!(value(&rs[2], "id"), Some(&FieldValue::Signed(4)));
}

#[test]
fn window_past_the_end_is_shortened() {
    let data = people(4);
    let cfg = config(people_columns());
    let rs = NativeAdapter {}.read(&data, &cfg, Some(3), 5).unwrap();
    assert_eq!(rs.len(), 1);
    assert_eq!(value(&rs[0], "id"), Some(&FieldValue::Signed(3)));
    assert_eq!(NativeAdapter {}.read(&data, &cfg, Some(4), 5).unwrap().len(), 0);
    assert_eq!(NativeAdapter {}.read(&data, &cfg, Some(9), 5).unwrap().len(), 0);
    assert_eq!(NativeAdapter {}.read(&data, &cfg, None, 0).unwrap().len(), 0);
}

#[test]
fn trailing_partial_record_is_a_clean_end() {
    let mut data = people(2);
    data.extend_from_slice(&[1, 2, 3]);
    let cfg = config(people_columns());
    assert_eq!(NativeAdapter {}.read(&data, &cfg, None, 10).unwrap().len(), 2);
}

#[test]
fn empty_schema_is_a_config_error() {
    let cfg = config(vec![]);
    assert_eq!(NativeAdapter {}.read(&[1, 2, 3], &cfg, None, 10), Err(DecodeError::Config));
}

#[test]
fn bad_float_fails_the_whole_read() {
    let mut data = people(1);
    data.extend(person(1, "Ramesh", false, f64::NAN));
    let cfg = config(people_columns());
    assert_eq!(NativeAdapter {}.read(&data, &cfg, None, 10), Err(DecodeError::Conversion));
    assert_eq!(NativeAdapter {}.read(&data, &cfg, None, 1).unwrap().len(), 1);
}

#[test]
fn inconsistent_field_is_a_config_error() {
    let data = people(2);
    let mut cols = people_columns();
    cols[0].length = 2;
    assert_eq!(NativeAdapter {}.read(&data, &config(cols), None, 10), Err(DecodeError::Config));
}
