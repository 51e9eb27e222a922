use std::collections::HashMap;

use reader::multi_native::{Action, MultiNative, Phase};
use reader::schema::{
    BufferValue, CompressionType, DType, NativeSettings, PacketColumns, PacketHeader, PacketInfo,
};
use reader::value::{DecodeError, FieldValue, Record};

fn field(name: &str, dtype: DType, offset: Option<usize>, length: usize) -> BufferValue {
    BufferValue {
        name: name.to_string(),
        dtype,
        offset,
        length,
        default: false,
        suppress: false,
    }
}

fn value_columns() -> PacketColumns {
    PacketColumns {
        expected_size: 4,
        skip_bytes: 2,
        columns: vec![field("value", DType::UInt, None, 4)],
    }
}

fn settings(table: HashMap<u64, PacketColumns>) -> NativeSettings {
    NativeSettings {
        packet_header: PacketHeader {
            timestamp: field("timestamp", DType::UInt, Some(0), 4),
            packet_size: field("packet_size", DType::UInt, Some(4), 4),
        },
        packet_info: PacketInfo {
            no_of_packets: field("no_of_packets", DType::Byte, None, 1),
            compressed_packet_size: field("compressed", DType::Byte, None, 1),
            compression_type: CompressionType::Lzo,
            packet_size: field("packet_size", DType::Byte, None, 1),
            packet_identifier: field("packet_identifier", DType::Byte, None, 1),
            column_details: table,
        },
        packing: 1,
        max_frame_size: 1024,
        decompress_capacity: 64,
    }
}

fn default_settings() -> NativeSettings {
    let mut table = HashMap::new();
    table.insert(1u64, value_columns());
    settings(table)
}

/// An uncompressed sub-packet: compressed size 0, identifier, size, value. The size covers
/// the value and the byte after the identifier, so that with the skip prefix of 2 the next
/// sub-packet follows directly.
fn raw_subpacket(id: u8, value: u32) -> Vec<u8> {
    let mut out = vec![0u8, id, 5];
    out.extend_from_slice(&value.to_be_bytes());
    out
}

fn frame(timestamp: u32, subpackets: &[Vec<u8>]) -> Vec<u8> {
    let mut body = vec![subpackets.len() as u8];
    for s in subpackets {
        body.extend_from_slice(s);
    }
    let mut out = timestamp.to_be_bytes().to_vec();
    out.extend_from_slice(&(body.len() as u32).to_be_bytes());
    out.extend(body);
    out
}

fn run(
    data: &[u8],
    settings: &NativeSettings,
    from: Option<usize>,
    len: usize,
    expand: &dyn Fn(&[u8]) -> Option<Vec<u8>>,
) -> (Result<Vec<Record>, DecodeError>, MultiNative) {
    let mut decoder = MultiNative::new(from, len);
    loop {
        match decoder.step(data, settings) {
            Action::Continue => {}
            Action::Expand { from, to, .. } => {
                let out = expand(&data[from..to]);
                decoder.resume(out, settings);
            }
            Action::Done => {
                let records = decoder.records.clone();
                return (Ok(records), decoder);
            }
            Action::Fail(e) => return (Err(e), decoder),
        }
    }
}

fn no_expansion(_: &[u8]) -> Option<Vec<u8>> {
    None
}

fn value<'a>(r: &'a Record, name: &str) -> Option<&'a FieldValue> {
    r.entries.iter().rev().find(|(n, _)| n == name).map(|(_, v)| v)
}

/// Four frames of three sub-packets each; each value is the sub-packet's global position.
fn twelve_positions() -> (Vec<u8>, usize) {
    let mut data = vec![];
    let mut frame_len = 0;
    for f in 0..4u32 {
        let subs: Vec<Vec<u8>> = (0..3u32).map(|k| raw_subpacket(1, f * 3 + k)).collect();
        let fr = frame(100 + f, &subs);
        frame_len = fr.len();
        data.extend(fr);
    }
    (data, frame_len)
}

#[test]
fn window_five_to_seven() {
    let (data, frame_len) = twelve_positions();
    let (r, decoder) = run(&data, &default_settings(), Some(5), 3, &no_expansion);
    let rs = r.unwrap();
    let values: Vec<&FieldValue> = rs.iter().map(|r| value(r, "value").unwrap()).collect();
    assert_eq!(
        values,
        vec![&FieldValue::Unsigned(5), &FieldValue::Unsigned(6), &FieldValue::Unsigned(7)]
    );
    assert_eq!(value(&rs[0], "timestamp"), Some(&FieldValue::Unsigned(101)));
    assert_eq!(value(&rs[1], "timestamp"), Some(&FieldValue::Unsigned(102)));
    assert_eq!(decoder.position, 8);
    assert_eq!(decoder.next_frame, 3 * frame_len);
    assert!(matches!(decoder.phase, Phase::Finished));
}

#[test]
fn window_cut_short_by_end_of_stream() {
    let (data, _) = twelve_positions();
    let (r, _) = run(&data, &default_settings(), Some(10), 5, &no_expansion);
    let rs = r.unwrap();
    assert_eq!(rs.len(), 2);
    assert_eq!(value(&rs[1], "value"), Some(&FieldValue::Unsigned(11)));
}

#[test]
fn whole_stream_from_the_start() {
    let (data, _) = twelve_positions();
    let (r, _) = run(&data, &default_settings(), None, 100, &no_expansion);
    assert_eq!(r.unwrap().len(), 12);
    let (r, _) = run(&data, &default_settings(), None, 0, &no_expansion);
    assert_eq!(r.unwrap().len(), 0);
}

#[test]
fn record_holds_timestamp_then_columns() {
    let data = frame(42, &[raw_subpacket(1, 7)]);
    let (r, _) = run(&data, &default_settings(), None, 10, &no_expansion);
    let rs = r.unwrap();
    assert_eq!(
        rs[0].entries,
        vec![
            ("timestamp".to_string(), FieldValue::Unsigned(42)),
            ("value".to_string(), FieldValue::Unsigned(7)),
        ]
    );
}

#[test]
fn truncated_frame_body_is_an_io_error() {
    let mut data = frame(1, &[raw_subpacket(1, 1)]);
    data.truncate(data.len() - 2);
    let (r, _) = run(&data, &default_settings(), None, 10, &no_expansion);
    assert_eq!(r, Err(DecodeError::Io));
}

#[test]
fn partial_header_is_a_clean_end() {
    let mut data = frame(1, &[raw_subpacket(1, 1)]);
    data.extend_from_slice(&[0, 0, 0]);
    let (r, _) = run(&data, &default_settings(), None, 10, &no_expansion);
    assert_eq!(r.unwrap().len(), 1);
}

#[test]
fn oversized_frame_is_a_config_error() {
    let mut s = default_settings();
    s.max_frame_size = 4;
    let data = frame(1, &[raw_subpacket(1, 1)]);
    let (r, _) = run(&data, &s, None, 10, &no_expansion);
    assert_eq!(r, Err(DecodeError::Config));
}

#[test]
fn unknown_identifier_without_fallback_fails() {
    let data = frame(1, &[raw_subpacket(1, 1), raw_subpacket(9, 2), raw_subpacket(1, 3)]);
    let (r, decoder) = run(&data, &default_settings(), None, 10, &no_expansion);
    assert_eq!(r, Err(DecodeError::Schema { identifier: 9, position: 1 }));
    assert!(matches!(decoder.phase, Phase::Failed(_)));
    assert!(decoder.records.is_empty());
}

#[test]
fn unknown_identifier_uses_fallback() {
    let mut table = HashMap::new();
    table.insert(0u64, value_columns());
    let data = frame(1, &[raw_subpacket(9, 77)]);
    let (r, _) = run(&data, &settings(table), None, 10, &no_expansion);
    assert_eq!(value(&r.unwrap()[0], "value"), Some(&FieldValue::Unsigned(77)));
}

#[test]
fn null_and_suppressed_columns_are_left_out() {
    let mut suppressed = field("hidden", DType::Byte, None, 1);
    suppressed.suppress = true;
    let cols = PacketColumns {
        expected_size: 4,
        skip_bytes: 2,
        columns: vec![
            field("a", DType::Byte, None, 1),
            field("gap", DType::Pad, None, 1),
            suppressed,
            field("c", DType::Byte, None, 1),
        ],
    };
    let mut table = HashMap::new();
    table.insert(1u64, cols);
    let data = frame(5, &[vec![0u8, 1, 5, 10, 11, 12, 13]]);
    let (r, _) = run(&data, &settings(table), None, 10, &no_expansion);
    assert_eq!(
        r.unwrap()[0].entries,
        vec![
            ("timestamp".to_string(), FieldValue::Unsigned(5)),
            ("a".to_string(), FieldValue::Unsigned(10)),
            ("c".to_string(), FieldValue::Unsigned(13)),
        ]
    );
}

/// The expansion a test stands in for: a sub-packet of identifier 1 whose value is the
/// payload's first byte.
fn fake_expansion(payload: &[u8]) -> Option<Vec<u8>> {
    let mut out = vec![1u8, 5, 0, 0, 0, payload[0]];
    out.resize(64, 0);
    Some(out)
}

#[test]
fn compressed_subpacket_advances_by_its_compressed_size() {
    // compressed size 10; the next sub-packet starts 10 bytes after this one
    let mut subs = vec![10u8, 200, 1, 2, 3, 4, 5, 6, 7, 8];
    subs.extend(raw_subpacket(1, 33));
    let data = frame(9, &[subs[..].to_vec(), vec![]]);
    let (r, _) = run(&data, &default_settings(), None, 10, &fake_expansion);
    let rs = r.unwrap();
    assert_eq!(rs.len(), 2);
    assert_eq!(value(&rs[0], "value"), Some(&FieldValue::Unsigned(200)));
    assert_eq!(value(&rs[1], "value"), Some(&FieldValue::Unsigned(33)));
}

#[test]
fn compressed_step_asks_for_the_payload() {
    let mut subs = vec![3u8, 7, 8, 9];
    subs.extend(raw_subpacket(1, 1));
    let data = frame(9, &[subs]);
    let s = default_settings();
    let mut decoder = MultiNative::new(None, 10);
    assert_eq!(decoder.step(&data, &s), Action::Continue);
    let frame_body = 8 + 1;
    assert_eq!(
        decoder.step(&data, &s),
        Action::Expand { from: frame_body + 1, to: frame_body + 4, capacity: 64 }
    );
}

#[test]
fn failed_expansion_is_a_compression_error() {
    let mut subs = vec![3u8, 7, 8, 9];
    subs.extend(raw_subpacket(1, 1));
    let data = frame(9, &[subs]);
    let (r, _) = run(&data, &default_settings(), None, 10, &no_expansion);
    assert_eq!(r, Err(DecodeError::Compression));
}
