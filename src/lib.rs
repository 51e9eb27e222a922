//! Schema-driven decoding of binary packet dumps into named records.
//!
//! A fixed-record source is decoded by [`native::NativeAdapter`]; a framed multi-packet
//! source by the step-wise [`multi_native::MultiNative`], whose caller expands compressed
//! sub-packets when a step asks for it. Text sources share the windowing rules of
//! [`text::JsonAdapter`] and its siblings.

pub mod byte_utils;
pub mod column_utils;
pub mod listing;
pub mod multi_native;
pub mod native;
pub mod schema;
pub mod subpacket;
pub mod text;
pub mod value;

pub use schema::{
    BufferValue, CompressionType, Config, DType, NativeSettings, PacketColumns, PacketHeader,
    PacketInfo, Type,
};

use listing::{
    column_named, column_selected, contains_name, distinct_names, fields_set, listed, listing_view,
    names_set, raise_all_sets, selected, set_column,
};
use vstd::prelude::*;

verus! {

/// A source to read: its configuration, its path and its kind.
pub struct Reader {
    pub config: Config,
    pub file_path: String,
    pub _type: Type,
}

impl Reader {
    pub fn new_with_config(config: Config, file_path: String, _type: Type) -> (r: Reader)
        ensures
            r.config == config,
            r.file_path == file_path,
            r._type == _type,
    {
        Reader { config, file_path, _type }
    }

    /// Selects or deselects all columns.
    pub fn all_columns(&mut self, all_columns: bool)
        ensures
            final(self).config.all_columns == all_columns,
            final(self).config.selected_columns == old(self).config.selected_columns,
            final(self).config.native_columns == old(self).config.native_columns,
            final(self).config.native == old(self).config.native,
            final(self).config.use_default_columns == old(self).config.use_default_columns,
            final(self).config.default_columns == old(self).config.default_columns,
            final(self).file_path == old(self).file_path,
            final(self)._type == old(self)._type,
    {
        self.config.all_columns = all_columns;
    }

    /// The columns a source of kind `_type` offers, each with whether it is selected by default:
    /// for text sources with default column names, those names, selected when listed among the
    /// selected columns; for fixed records, the field names with their defaults; for the framed
    /// kind, every column name of every column set once, selected when some column of that
    /// name is selected by default (in no stated order); else none.
    pub fn get_columns(config: &Config, _type: Type) -> (r: Vec<(String, bool)>)
        ensures
            _type != Type::MultiNative ==> listing_view(r@) == (if (_type == Type::Csv || _type == Type::JsonArray) && config.use_default_columns {
                names_set(Seq::empty(), config.default_columns@, config.selected_columns@, config.default_columns@.len() as int)
            } else if _type == Type::Native {
                fields_set(Seq::empty(), config.native_columns@, config.native_columns@.len() as int)
            } else {
                Seq::empty()
            }),
            _type == Type::MultiNative ==> {
                let table = config.native.packet_info.column_details@;
                &&& distinct_names(listing_view(r@))
                &&& forall|n: Seq<char>| #[trigger] listed(listing_view(r@), n) <==> exists|pc: PacketColumns|
                    table.values().contains(pc) && #[trigger] column_named(pc, n)
                &&& forall|n: Seq<char>| #[trigger] selected(listing_view(r@), n) <==> exists|pc: PacketColumns|
                    table.values().contains(pc) && #[trigger] column_selected(pc, n)
            },
    {
        let mut l: Vec<(String, bool)> = Vec::new();
        proof {
            assert(listing_view(l@) =~= Seq::<(Seq<char>, bool)>::empty());
        }
        let text_kind = match _type {
            Type::Csv | Type::JsonArray => true,
            _ => false,
        };
        let native_kind = match _type {
            Type::Native => true,
            _ => false,
        };
        let framed_kind = match _type {
            Type::MultiNative => true,
            _ => false,
        };
        if text_kind && config.use_default_columns {
            let names = &config.default_columns;
            let mut i: usize = 0;
            while i < names.len()
                invariant
                    i <= names@.len(),
                    names@ == config.default_columns@,
                    listing_view(l@) == names_set(Seq::empty(), names@, config.selected_columns@, i as int),
                decreases names@.len() - i,
            {
                let sel = contains_name(&config.selected_columns, &names[i]);
                set_column(&mut l, &names[i], sel);
                i += 1;
            }
        } else if native_kind {
            let cols = &config.native_columns;
            let mut i: usize = 0;
            while i < cols.len()
                invariant
                    i <= cols@.len(),
                    cols@ == config.native_columns@,
                    listing_view(l@) == fields_set(Seq::empty(), cols@, i as int),
                decreases cols@.len() - i,
            {
                set_column(&mut l, &cols[i].name, cols[i].default);
                i += 1;
            }
        } else if framed_kind {
            raise_all_sets(&mut l, &config.native.packet_info.column_details);
        }
        l
    }
}

} // verus!
