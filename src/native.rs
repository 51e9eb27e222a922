//! The fixed-record decoder: back-to-back records of one width.

use crate::byte_utils::{cast_spec, field_next, field_spec};
use crate::column_utils::{ends_fit, field_end, get_len_from_columns, max_end};
use crate::schema::{BufferValue, Config, DType};
use crate::subpacket::{columns_spec, decode_columns, entries_view};
use crate::value::{DecodeError, EntryModel, Record, ValueModel, records_view};
use vstd::prelude::*;

verus! {

/// The width of a fixed record: the largest end of any of its fields.
pub open spec fn record_width(cols: Seq<BufferValue>) -> int {
    max_end(cols, cols.len() as int)
}

/// How many records a read of `count` records from index `start` returns, when the source
/// holds `n` whole records.
pub open spec fn window_len(n: int, start: int, count: int) -> int {
    if start >= n {
        0
    } else if count < n - start {
        count
    } else {
        n - start
    }
}

/// The bytes of the record at index `k` of a source of fixed records of width `w`.
pub open spec fn record_bytes(data: Seq<u8>, w: int, k: int) -> Seq<u8> {
    data.subrange(k * w, (k + 1) * w)
}

/// The record at index `k` of a source of fixed records of width `w`.
pub open spec fn fixed_record(data: Seq<u8>, cols: Seq<BufferValue>, packing: int, w: int, k: int) -> Result<
    Seq<EntryModel>,
    DecodeError,
> {
    columns_spec(cols, record_bytes(data, w, k), 0, 0, 0, packing, true)
}

/// The first `k` records read from index `start`; the first failure among them if any.
pub open spec fn fixed_records(
    data: Seq<u8>,
    cols: Seq<BufferValue>,
    packing: int,
    w: int,
    start: int,
    k: int,
) -> Result<Seq<Seq<EntryModel>>, DecodeError>
    decreases k,
{
    if k <= 0 {
        Ok(Seq::empty())
    } else {
        match fixed_records(data, cols, packing, w, start, k - 1) {
            Err(e) => Err(e),
            Ok(rs) => match fixed_record(data, cols, packing, w, start + k - 1) {
                Err(e) => Err(e),
                Ok(r) => Ok(rs.push(r)),
            },
        }
    }
}

/// What a read of `count` records from index `start` returns.
pub open spec fn fixed_spec(data: Seq<u8>, cols: Seq<BufferValue>, packing: int, start: int, count: int) -> Result<
    Seq<Seq<EntryModel>>,
    DecodeError,
> {
    if cols.len() == 0 || !ends_fit(cols) || record_width(cols) == 0 {
        Err(DecodeError::Config)
    } else {
        let w = record_width(cols);
        fixed_records(data, cols, packing, w, start, window_len((data.len() as int) / w, start, count))
    }
}

proof fn lemma_fixed_records_err(
    data: Seq<u8>,
    cols: Seq<BufferValue>,
    packing: int,
    w: int,
    start: int,
    k: int,
    j: int,
    e: DecodeError,
)
    requires
        0 <= k <= j,
        fixed_records(data, cols, packing, w, start, k) == Err::<Seq<Seq<EntryModel>>, DecodeError>(e),
    ensures
        fixed_records(data, cols, packing, w, start, j) == Err::<Seq<Seq<EntryModel>>, DecodeError>(e),
    decreases j - k,
{
    if j > k {
        lemma_fixed_records_err(data, cols, packing, w, start, k, j - 1, e);
    }
}

/// The declared byte span of a field with a fixed offset.
pub open spec fn declared_span(c: BufferValue, buf: Seq<u8>) -> Seq<u8> {
    buf.subrange(c.offset->0 as int, c.offset->0 + c.length)
}

/// Decoding every column from `i` on, when it succeeds, gives one entry per column, named
/// after it; a byte-aligned column with a fixed offset holds the cast of its declared span.
proof fn lemma_every_column(
    cols: Seq<BufferValue>,
    buf: Seq<u8>,
    i: int,
    off: int,
    bit: int,
    packing: int,
    es: Seq<EntryModel>,
)
    requires
        0 <= i <= cols.len(),
        columns_spec(cols, buf, i, off, bit, packing, true) == Ok::<Seq<EntryModel>, DecodeError>(es),
    ensures
        es.len() == cols.len() - i,
        forall|j: int|
            i <= j < cols.len() ==> (#[trigger] es[j - i]).0 == cols[j].name@ && (cols[j].offset is Some
                && cols[j].dtype != DType::Bit ==> cast_spec(declared_span(cols[j], buf), cols[j].dtype)
                == Ok::<ValueModel, DecodeError>(es[j - i].1)),
    decreases cols.len() - i,
{
    if i < cols.len() {
        match field_spec(cols[i], buf, off, bit, packing) {
            Err(_) => {},
            Ok(v) => {
                let next = field_next(cols[i], off, bit, packing);
                match columns_spec(cols, buf, i + 1, next.0, next.1, packing, true) {
                    Ok(rest) => {
                        lemma_every_column(cols, buf, i + 1, next.0, next.1, packing, rest);
                        assert(es == seq![(cols[i].name@, v)] + rest);
                        assert forall|j: int| i < j < cols.len() implies #[trigger] es[j - i] == rest[j - (i + 1)] by {}
                    },
                    Err(_) => {},
                }
            },
        }
    }
}

proof fn lemma_fixed_records_ok(
    data: Seq<u8>,
    cols: Seq<BufferValue>,
    packing: int,
    w: int,
    start: int,
    k: int,
    rs: Seq<Seq<EntryModel>>,
)
    requires
        0 <= k,
        fixed_records(data, cols, packing, w, start, k) == Ok::<Seq<Seq<EntryModel>>, DecodeError>(rs),
    ensures
        rs.len() == k,
        forall|i: int|
            0 <= i < k ==> fixed_record(data, cols, packing, w, start + i) == Ok::<Seq<EntryModel>, DecodeError>(
                #[trigger] rs[i],
            ),
    decreases k,
{
    if k > 0 {
        match fixed_records(data, cols, packing, w, start, k - 1) {
            Ok(prev) => {
                lemma_fixed_records_ok(data, cols, packing, w, start, k - 1, prev);
                assert forall|i: int| 0 <= i < k - 1 implies rs[i] == prev[i] by {}
            },
            Err(_) => {},
        }
    }
}

/// A read of fixed records returns `min(count, n - start)` records (none when `start >= n`),
/// where `n` is the number of whole records in the source; each record has one entry per
/// field, named after it, and a byte-aligned field with a fixed offset holds the big-endian
/// or text cast of its declared span in that record.
pub proof fn lemma_fixed_read(
    data: Seq<u8>,
    cols: Seq<BufferValue>,
    packing: int,
    start: int,
    count: int,
    rs: Seq<Seq<EntryModel>>,
)
    requires
        0 <= start,
        0 <= count,
        fixed_spec(data, cols, packing, start, count) == Ok::<Seq<Seq<EntryModel>>, DecodeError>(rs),
    ensures
        record_width(cols) > 0,
        rs.len() == window_len((data.len() as int) / record_width(cols), start, count),
        forall|k: int| 0 <= k < rs.len() ==> (#[trigger] rs[k]).len() == cols.len(),
        forall|k: int, j: int|
            0 <= k < rs.len() && 0 <= j < cols.len() ==> (#[trigger] rs[k][j]).0 == cols[j].name@,
        forall|k: int, j: int|
            0 <= k < rs.len() && 0 <= j < cols.len() && cols[j].offset is Some && cols[j].dtype != DType::Bit
                ==> cast_spec(declared_span(cols[j], record_bytes(data, record_width(cols), start + k)), cols[j].dtype)
                == Ok::<ValueModel, DecodeError>(#[trigger] rs[k][j].1),
{
    let w = record_width(cols);
    let n = window_len((data.len() as int) / w, start, count);
    assert(n >= 0);
    lemma_fixed_records_ok(data, cols, packing, w, start, n, rs);
    assert forall|k: int| 0 <= k < rs.len() implies fixed_record(data, cols, packing, w, start + k) == Ok::<
        Seq<EntryModel>,
        DecodeError,
    >(#[trigger] rs[k]) && rs[k].len() == cols.len() && (forall|j: int|
        0 <= j < cols.len() ==> (#[trigger] rs[k][j]).0 == cols[j].name@ && (cols[j].offset is Some
            && cols[j].dtype != DType::Bit ==> cast_spec(declared_span(cols[j], record_bytes(data, w, start + k)), cols[j].dtype)
            == Ok::<ValueModel, DecodeError>(rs[k][j].1))) by {
        lemma_every_column(cols, record_bytes(data, w, start + k), 0, 0, 0, packing, rs[k]);
        assert forall|j: int| 0 <= j < cols.len() implies rs[k][j - 0] == #[trigger] rs[k][j] by {}
    }
}

/// The fixed-record source kind.
pub struct NativeAdapter {}

impl NativeAdapter {
    /// Reads the records at indices `[from, from + len)` (`from` defaults to 0) of `data`,
    /// each decoded field by field from a fresh cursor. A source that ends inside a record
    /// ends the records cleanly.
    pub fn read(&self, data: &[u8], config: &Config, from: Option<usize>, len: usize) -> (r: Result<
        Vec<Record>,
        DecodeError,
    >)
        ensures
            match r {
                Ok(rs) => fixed_spec(
                    data@,
                    config.native_columns@,
                    config.native.packing as int,
                    match from {
                        Some(f) => f as int,
                        None => 0,
                    },
                    len as int,
                ) == Ok::<Seq<Seq<EntryModel>>, DecodeError>(records_view(rs@)),
                Err(e) => fixed_spec(
                    data@,
                    config.native_columns@,
                    config.native.packing as int,
                    match from {
                        Some(f) => f as int,
                        None => 0,
                    },
                    len as int,
                ) == Err::<Seq<Seq<EntryModel>>, DecodeError>(e),
            },
    {
        let cols = &config.native_columns;
        let packing = config.native.packing;
        let start: usize = match from {
            Some(f) => f,
            None => 0,
        };
        assert(start as int == match from {
            Some(f) => f as int,
            None => 0int,
        });
        if cols.len() == 0 {
            return Err(DecodeError::Config);
        }
        let mut refs: Vec<&BufferValue> = Vec::new();
        let mut i: usize = 0;
        while i < cols.len()
            invariant
                i <= cols@.len(),
                refs@.len() == i,
                start == (match from {
                    Some(f) => f,
                    None => 0usize,
                }),
                packing == config.native.packing,
                cols@ == config.native_columns@,
                forall|k: int| 0 <= k < i ==> *#[trigger] refs@[k] == cols@[k],
                forall|k: int| 0 <= k < i ==> field_end(#[trigger] cols@[k]) <= usize::MAX,
            decreases cols@.len() - i,
        {
            let c = &cols[i];
            let fits = match c.offset {
                Some(x) => c.length <= usize::MAX - x,
                None => true,
            };
            if !fits {
                proof {
                    assert(field_end(cols@[i as int]) > usize::MAX);
                    assert(!ends_fit(cols@));
                    assert(fixed_spec(data@, cols@, packing as int, start as int, len as int) == Err::<
                        Seq<Seq<EntryModel>>,
                        DecodeError,
                    >(DecodeError::Config));
                }
                return Err(DecodeError::Config);
            }
            refs.push(c);
            i += 1;
        }
        proof {
            assert(refs@.map_values(|c: &BufferValue| *c) =~= cols@);
        }
        let w = get_len_from_columns(refs);
        if w == 0 {
            return Err(DecodeError::Config);
        }
        let n_total = data.len() / w;
        let n: usize = if start >= n_total {
            0
        } else if len < n_total - start {
            len
        } else {
            n_total - start
        };
        let ghost cs = cols@;
        let ghost wi = w as int;
        let mut records: Vec<Record> = Vec::new();
        let mut k: usize = 0;
        proof {
            assert(ends_fit(cs));
            assert(record_width(cs) == wi);
            assert(window_len((data@.len() as int) / wi, start as int, len as int) == n as int);
            assert(records_view(records@) =~= Seq::<Seq<EntryModel>>::empty());
        }
        while k < n
            invariant
                k <= n,
                n > 0 ==> start + n <= n_total,
                data@.len() <= usize::MAX,
                n_total == (data@.len() as int) / (w as int),
                w > 0,
                wi == w as int,
                start == (match from {
                    Some(f) => f,
                    None => 0usize,
                }),
                packing == config.native.packing,
                cs == config.native_columns@,
                cols@ == cs,
                fixed_spec(data@, cs, packing as int, start as int, len as int) == fixed_records(
                    data@,
                    cs,
                    packing as int,
                    wi,
                    start as int,
                    n as int,
                ),
                fixed_records(data@, cs, packing as int, wi, start as int, k as int) == Ok::<
                    Seq<Seq<EntryModel>>,
                    DecodeError,
                >(records_view(records@)),
            decreases n - k,
        {
            let idx: usize = start + k;
            proof {
                assert((idx + 1) * w <= n_total * w) by (nonlinear_arith)
                    requires
                        idx + 1 <= n_total,
                        w > 0,
                ;
                assert(n_total * w <= data@.len()) by (nonlinear_arith)
                    requires
                        n_total == (data@.len() as int) / (w as int),
                        w > 0,
                ;
                assert(idx * w + w == (idx + 1) * w) by (nonlinear_arith);
            }
            let lo = idx * w;
            let hi = lo + w;
            let rec = &data[lo..hi];
            proof {
                assert(lo == idx as int * wi && hi == (idx as int + 1) * wi);
                assert(rec@ == data@.subrange(idx as int * wi, (idx as int + 1) * wi));
                assert(fixed_record(data@, cs, packing as int, wi, idx as int) == columns_spec(
                    cs,
                    rec@,
                    0,
                    0,
                    0,
                    packing as int,
                    true,
                ));
                assert(start as int + (k + 1) as int - 1 == idx as int);
            }
            match decode_columns(cols, rec, packing, true) {
                Err(e) => {
                    proof {
                        assert(fixed_records(data@, cs, packing as int, wi, start as int, k + 1) == Err::<
                            Seq<Seq<EntryModel>>,
                            DecodeError,
                        >(e));
                        lemma_fixed_records_err(data@, cs, packing as int, wi, start as int, k + 1, n as int, e);
                    }
                    return Err(e);
                },
                Ok(es) => {
                    let ghost before = records_view(records@);
                    records.push(Record { entries: es });
                    proof {
                        assert(records_view(records@) =~= before.push(entries_view(es@)));
                    }
                },
            }
            k += 1;
        }
        Ok(records)
    }
}

} // verus!
