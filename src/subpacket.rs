//! Decoding the inside of one sub-packet: its identifier, its size and its columns.

use crate::byte_utils::{col_from_buf, field_next, field_spec};
use crate::schema::{BufferValue, PacketColumns, PacketInfo};
use crate::value::{DecodeError, EntryModel, FieldValue, ValueModel};
use std::collections::HashMap;
use vstd::prelude::*;

verus! {

broadcast use vstd::std_specs::hash::group_hash_axioms;

/// The non-negative integer a decoded value stands for, if it is one.
pub open spec fn count_of(v: ValueModel) -> Option<nat> {
    match v {
        ValueModel::Unsigned(n) => Some(n as nat),
        ValueModel::Signed(n) => if n >= 0 {
            Some(n as nat)
        } else {
            None
        },
        _ => None,
    }
}

/// Reads a decoded value as a non-negative integer.
pub fn as_count(v: &FieldValue) -> (r: Option<u64>)
    ensures
        match count_of(v@) {
            Some(n) => r == Some(n as u64) && n <= u64::MAX,
            None => r is None,
        },
{
    match v {
        FieldValue::Unsigned(n) => Some(*n),
        FieldValue::Signed(n) => {
            if *n >= 0 {
                Some(*n as u64)
            } else {
                None
            }
        },
        _ => None,
    }
}

/// The column set for an identifier: its own entry, else the entry of identifier 0.
pub open spec fn lookup_spec(table: Map<u64, PacketColumns>, id: u64) -> Option<PacketColumns> {
    if table.contains_key(id) {
        Some(table[id])
    } else if table.contains_key(0) {
        Some(table[0])
    } else {
        None
    }
}

/// Puts `acc` in front of a successful list of entries.
pub open spec fn prepend(acc: Seq<EntryModel>, r: Result<Seq<EntryModel>, DecodeError>) -> Result<
    Seq<EntryModel>,
    DecodeError,
> {
    match r {
        Ok(s) => Ok(acc + s),
        Err(e) => Err(e),
    }
}

/// The entries decoded from columns `i..` of `cols`, starting at cursor `(off, bit)`.
/// Unless `keep_all`, a column that decodes to null, or that is suppressed, gives no entry.
pub open spec fn columns_spec(
    cols: Seq<BufferValue>,
    buf: Seq<u8>,
    i: int,
    off: int,
    bit: int,
    packing: int,
    keep_all: bool,
) -> Result<Seq<EntryModel>, DecodeError>
    decreases cols.len() - i,
{
    if i < 0 || i >= cols.len() {
        Ok(Seq::empty())
    } else {
        match field_spec(cols[i], buf, off, bit, packing) {
            Err(e) => Err(e),
            Ok(v) => {
                let next = field_next(cols[i], off, bit, packing);
                let head = if !keep_all && (v == ValueModel::Null || cols[i].suppress) {
                    Seq::empty()
                } else {
                    seq![(cols[i].name@, v)]
                };
                prepend(head, columns_spec(cols, buf, i + 1, next.0, next.1, packing, keep_all))
            },
        }
    }
}

/// The entries of `all` (one per column, from column `i` on) that survive suppression:
/// those whose value is not null and whose column is not suppressed, in the same order.
pub open spec fn unsuppressed(cols: Seq<BufferValue>, all: Seq<EntryModel>, i: int) -> Seq<EntryModel>
    decreases all.len(),
{
    if all.len() == 0 {
        Seq::empty()
    } else {
        let head = if all[0].1 == ValueModel::Null || (0 <= i < cols.len() && cols[i].suppress) {
            Seq::empty()
        } else {
            seq![all[0]]
        };
        head + unsuppressed(cols, all.drop_first(), i + 1)
    }
}

/// Suppression: decoding columns with suppression gives exactly the entries of decoding every
/// column, less those that are null and those of suppressed columns, in the same order; and
/// the two decodes fail alike.
pub proof fn lemma_suppression(
    cols: Seq<BufferValue>,
    buf: Seq<u8>,
    i: int,
    off: int,
    bit: int,
    packing: int,
)
    requires
        0 <= i,
    ensures
        columns_spec(cols, buf, i, off, bit, packing, false) == match columns_spec(
            cols,
            buf,
            i,
            off,
            bit,
            packing,
            true,
        ) {
            Ok(all) => Ok::<Seq<EntryModel>, DecodeError>(unsuppressed(cols, all, i)),
            Err(e) => Err(e),
        },
    decreases cols.len() - i,
{
    if i < cols.len() {
        match field_spec(cols[i], buf, off, bit, packing) {
            Err(_) => {},
            Ok(v) => {
                let next = field_next(cols[i], off, bit, packing);
                lemma_suppression(cols, buf, i + 1, next.0, next.1, packing);
                match columns_spec(cols, buf, i + 1, next.0, next.1, packing, true) {
                    Ok(rest) => {
                        let all = seq![(cols[i].name@, v)] + rest;
                        assert(all.drop_first() =~= rest);
                        assert(all[0] == (cols[i].name@, v));
                    },
                    Err(_) => {},
                }
            },
        }
    }
}

/// The model of a list of entries.
pub open spec fn entries_view(es: Seq<(String, FieldValue)>) -> Seq<EntryModel> {
    es.map_values(|e: (String, FieldValue)| (e.0@, e.1@))
}

proof fn lemma_prepend_assoc(a: Seq<EntryModel>, b: Seq<EntryModel>, r: Result<Seq<EntryModel>, DecodeError>)
    ensures
        prepend(a, prepend(b, r)) == prepend(a + b, r),
{
    match r {
        Ok(s) => {
            assert(a + (b + s) =~= (a + b) + s);
        },
        Err(_) => {},
    }
}

/// Decodes columns in order, threading one cursor through them from the start of `buf`.
pub fn decode_columns(columns: &Vec<BufferValue>, buf: &[u8], packing: usize, keep_all: bool) -> (r: Result<
    Vec<(String, FieldValue)>,
    DecodeError,
>)
    ensures
        match r {
            Ok(es) => columns_spec(columns@, buf@, 0, 0, 0, packing as int, keep_all) == Ok::<
                Seq<EntryModel>,
                DecodeError,
            >(entries_view(es@)),
            Err(e) => columns_spec(columns@, buf@, 0, 0, 0, packing as int, keep_all) == Err::<
                Seq<EntryModel>,
                DecodeError,
            >(e),
        },
{
    let mut entries: Vec<(String, FieldValue)> = Vec::new();
    let mut offset: usize = 0;
    let mut bit_offset: usize = 0;
    let mut i: usize = 0;
    proof {
        assert(entries_view(entries@) =~= Seq::<EntryModel>::empty());
        assert(Seq::<EntryModel>::empty() + Seq::<EntryModel>::empty() =~= Seq::<EntryModel>::empty());
        match columns_spec(columns@, buf@, 0, 0, 0, packing as int, keep_all) {
            Ok(s) => {
                assert(Seq::<EntryModel>::empty() + s =~= s);
            },
            Err(_) => {},
        }
    }
    while i < columns.len()
        invariant
            i <= columns@.len(),
            columns_spec(columns@, buf@, 0, 0, 0, packing as int, keep_all) == prepend(
                entries_view(entries@),
                columns_spec(columns@, buf@, i as int, offset as int, bit_offset as int, packing as int, keep_all),
            ),
        decreases columns@.len() - i,
    {
        let column = &columns[i];
        let ghost off0 = offset as int;
        let ghost bit0 = bit_offset as int;
        let ghost before = entries_view(entries@);
        let v = match col_from_buf(column, buf, &mut offset, &mut bit_offset, packing) {
            Ok(v) => v,
            Err(e) => {
                return Err(e);
            },
        };
        let keep = keep_all || !(v.is_null() || column.suppress);
        let ghost head: Seq<EntryModel> = if keep {
            seq![(column.name@, v@)]
        } else {
            Seq::empty()
        };
        if keep {
            let name = column.name.clone();
            entries.push((name, v));
        }
        proof {
            assert(entries_view(entries@) =~= before + head);
            lemma_prepend_assoc(
                before,
                head,
                columns_spec(columns@, buf@, i + 1, offset as int, bit_offset as int, packing as int, keep_all),
            );
        }
        i += 1;
    }
    proof {
        assert(entries_view(entries@) + Seq::<EntryModel>::empty() =~= entries_view(entries@));
    }
    Ok(entries)
}

/// What the inside of one sub-packet decodes to: its entries, its declared size and the
/// skip prefix of its column set. `position` is the sub-packet's place in the whole stream.
pub open spec fn body_spec(info: PacketInfo, buf: Seq<u8>, packing: int, position: int) -> Result<
    (Seq<EntryModel>, nat, nat),
    DecodeError,
> {
    match field_spec(info.packet_identifier, buf, 0, 0, packing) {
        Err(e) => Err(e),
        Ok(idv) => match count_of(idv) {
            None => Err(DecodeError::Conversion),
            Some(id) => {
                let o = field_next(info.packet_identifier, 0, 0, packing).0;
                match field_spec(info.packet_size, buf, o, 0, packing) {
                    Err(e) => Err(e),
                    Ok(sv) => match count_of(sv) {
                        None => Err(DecodeError::Conversion),
                        Some(size) => match lookup_spec(info.column_details@, id as u64) {
                            None => Err(
                                DecodeError::Schema { identifier: id as u64, position: position as usize },
                            ),
                            Some(pc) => if pc.skip_bytes > buf.len() {
                                Err(DecodeError::Conversion)
                            } else {
                                match columns_spec(
                                    pc.columns@,
                                    buf.subrange(pc.skip_bytes as int, buf.len() as int),
                                    0,
                                    0,
                                    0,
                                    packing,
                                    false,
                                ) {
                                    Err(e) => Err(e),
                                    Ok(es) => Ok((es, size, pc.skip_bytes as nat)),
                                }
                            },
                        },
                    },
                }
            },
        },
    }
}

/// Finds the column set for an identifier, falling back to identifier 0.
fn lookup_columns<'a>(table: &'a HashMap<u64, PacketColumns>, id: u64) -> (r: Option<&'a PacketColumns>)
    ensures
        match lookup_spec(table@, id) {
            Some(pc) => r == Some(&pc),
            None => r is None,
        },
{
    match table.get(&id) {
        Some(pc) => Some(pc),
        None => table.get(&0),
    }
}

/// Decodes the inside of one sub-packet: identifier, size, then the columns of the column set
/// that the identifier selects, after its skip prefix.
pub fn decode_body(info: &PacketInfo, buf: &[u8], packing: usize, position: usize) -> (r: Result<
    (Vec<(String, FieldValue)>, u64, u32),
    DecodeError,
>)
    ensures
        match r {
            Ok((es, size, skip)) => body_spec(*info, buf@, packing as int, position as int) == Ok::<
                (Seq<EntryModel>, nat, nat),
                DecodeError,
            >((entries_view(es@), size as nat, skip as nat)),
            Err(e) => body_spec(*info, buf@, packing as int, position as int) == Err::<
                (Seq<EntryModel>, nat, nat),
                DecodeError,
            >(e),
        },
{
    let mut offset: usize = 0;
    let mut bit_offset: usize = 0;
    let idv = col_from_buf(&info.packet_identifier, buf, &mut offset, &mut bit_offset, packing)?;
    let id = match as_count(&idv) {
        Some(n) => n,
        None => {
            return Err(DecodeError::Conversion);
        },
    };
    let mut fresh_bit: usize = 0;
    let sv = col_from_buf(&info.packet_size, buf, &mut offset, &mut fresh_bit, packing)?;
    let size = match as_count(&sv) {
        Some(n) => n,
        None => {
            return Err(DecodeError::Conversion);
        },
    };
    let pc = match lookup_columns(&info.column_details, id) {
        Some(pc) => pc,
        None => {
            return Err(DecodeError::Schema { identifier: id, position });
        },
    };
    if pc.skip_bytes as usize > buf.len() {
        return Err(DecodeError::Conversion);
    }
    let rest = &buf[pc.skip_bytes as usize..buf.len()];
    let es = decode_columns(&pc.columns, rest, packing, false)?;
    Ok((es, size, pc.skip_bytes))
}

} // verus!
