//! Field descriptors and the schemas built from them.

use std::collections::HashMap;
use vstd::prelude::*;

verus! {

/// The kind of value a field decodes to.
#[derive(Debug, Clone, Copy, PartialEq, Eq, Structural)]
pub enum DType {
    /// A UTF-8 string, decoded lossily from the raw span.
    Char,
    /// An unsigned big-endian 32-bit integer.
    UInt,
    /// A signed big-endian 16-bit integer.
    Short,
    /// A signed big-endian 32-bit integer.
    SInt,
    /// A big-endian IEEE-754 double.
    Float,
    /// A byte that is true when nonzero.
    Bool,
    /// An unsigned 8-bit integer.
    Byte,
    /// One to eight bits of a single byte, most significant bit first.
    Bit,
    /// Padding: always decodes to null.
    Pad,
}

/// One scalar field of a buffer: where it is, how long it is, what it holds.
#[derive(Debug, Clone)]
pub struct BufferValue {
    pub name: String,
    pub dtype: DType,
    /// A fixed byte offset that overrides the running cursor for this field.
    pub offset: Option<usize>,
    /// Length in bytes, or in bits for `DType::Bit`.
    pub length: usize,
    /// Whether the column is selected by default in a column listing.
    pub default: bool,
    /// Whether the column is left out of decoded records.
    pub suppress: bool,
}

/// The two fields read at the start of every outer frame.
#[derive(Debug)]
pub struct PacketHeader {
    pub packet_size: BufferValue,
    pub timestamp: BufferValue,
}

/// The column layout used for sub-packets with one identifier.
#[derive(Debug)]
pub struct PacketColumns {
    pub expected_size: u32,
    /// A fixed prefix of the sub-packet buffer that precedes the columns.
    pub skip_bytes: u32,
    pub columns: Vec<BufferValue>,
}

/// How compressed sub-packets are encoded.
#[derive(Debug, Clone, Copy, PartialEq, Eq, Structural)]
pub enum CompressionType {
    Lzo,
}

/// The per-sub-packet fields and the identifier to column-set table.
#[derive(Debug)]
pub struct PacketInfo {
    pub no_of_packets: BufferValue,
    pub compressed_packet_size: BufferValue,
    pub compression_type: CompressionType,
    pub packet_size: BufferValue,
    pub packet_identifier: BufferValue,
    /// Column sets by sub-packet identifier; identifier 0 is the fallback.
    pub column_details: HashMap<u64, PacketColumns>,
}

/// Everything the framed multi-packet decoder needs.
#[derive(Debug)]
pub struct NativeSettings {
    pub packet_header: PacketHeader,
    pub packet_info: PacketInfo,
    /// Alignment unit of multi-byte fields; 0 turns alignment off.
    pub packing: usize,
    /// Largest outer frame body accepted.
    pub max_frame_size: usize,
    /// Size of the buffer that a compressed sub-packet is expanded into.
    pub decompress_capacity: usize,
}

/// The kinds of source a reader handles.
#[derive(Debug, Clone, Copy, PartialEq, Eq, Structural)]
pub enum Type {
    Json,
    JsonArray,
    JsonLines,
    Csv,
    Native,
    MultiNative,
}

/// The configuration of a reader.
#[derive(Debug)]
pub struct Config {
    /// Whether all columns are selected.
    pub all_columns: bool,
    /// The columns selected for display.
    pub selected_columns: Vec<String>,
    /// The fields of a fixed-width record.
    pub native_columns: Vec<BufferValue>,
    /// The layout of a framed multi-packet source.
    pub native: NativeSettings,
    /// Whether text sources use `default_columns` as their column names.
    pub use_default_columns: bool,
    /// Column names for text sources that carry none.
    pub default_columns: Vec<String>,
}

} // verus!
