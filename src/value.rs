//! Decoded values, records and the errors of a decode call.

use vstd::prelude::*;

verus! {

/// A value decoded from one field.
#[derive(Debug, Clone, PartialEq)]
pub enum FieldValue {
    Null,
    Bool(bool),
    Unsigned(u64),
    Signed(i64),
    /// The IEEE-754 bit pattern of a finite double.
    Float(u64),
    Text(String),
}

/// The mathematical model of a `FieldValue`.
pub ghost enum ValueModel {
    Null,
    Bool(bool),
    Unsigned(u64),
    Signed(i64),
    Float(u64),
    Text(Seq<char>),
}

impl View for FieldValue {
    type V = ValueModel;

    open spec fn view(&self) -> ValueModel {
        match self {
            FieldValue::Null => ValueModel::Null,
            FieldValue::Bool(b) => ValueModel::Bool(*b),
            FieldValue::Unsigned(n) => ValueModel::Unsigned(*n),
            FieldValue::Signed(n) => ValueModel::Signed(*n),
            FieldValue::Float(n) => ValueModel::Float(*n),
            FieldValue::Text(s) => ValueModel::Text(s@),
        }
    }
}

impl FieldValue {
    /// A copy with the same model.
    pub fn duplicate(&self) -> (r: FieldValue)
        ensures
            r@ == self@,
    {
        match self {
            FieldValue::Null => FieldValue::Null,
            FieldValue::Bool(b) => FieldValue::Bool(*b),
            FieldValue::Unsigned(n) => FieldValue::Unsigned(*n),
            FieldValue::Signed(n) => FieldValue::Signed(*n),
            FieldValue::Float(n) => FieldValue::Float(*n),
            FieldValue::Text(s) => FieldValue::Text(s.clone()),
        }
    }

    pub fn is_null(&self) -> (r: bool)
        ensures
            r == (self@ == ValueModel::Null),
    {
        match self {
            FieldValue::Null => true,
            _ => false,
        }
    }
}

/// One decoded record: names with their values, in the order they were produced.
/// A later entry with a name already present stands for that name.
#[derive(Debug, Clone, PartialEq)]
pub struct Record {
    pub entries: Vec<(String, FieldValue)>,
}

/// The model of one record entry.
pub type EntryModel = (Seq<char>, ValueModel);

impl View for Record {
    type V = Seq<EntryModel>;

    open spec fn view(&self) -> Seq<EntryModel> {
        self.entries@.map_values(|e: (String, FieldValue)| (e.0@, e.1@))
    }
}

/// The models of a sequence of records.
pub open spec fn records_view(rs: Seq<Record>) -> Seq<Seq<EntryModel>> {
    rs.map_values(|r: Record| r@)
}

/// Why a decode call failed.
#[derive(Debug, Clone, Copy, PartialEq, Eq, Structural)]
pub enum DecodeError {
    /// The source ended inside a frame, a header or a record.
    Io,
    /// The schema is empty or contradictory, or a size exceeds its configured capacity.
    Config,
    /// A byte span is too short or too long for its kind, or cannot be cast.
    Conversion,
    /// A sub-packet identifier has no column set and there is no fallback.
    Schema { identifier: u64, position: usize },
    /// A compressed sub-packet could not be expanded.
    Compression,
}

} // verus!
