//! Extents of field lists.

use crate::schema::BufferValue;
use vstd::prelude::*;

verus! {

/// Where a field's bytes end when it is read at its fixed offset (0 when it has none).
pub open spec fn field_end(c: BufferValue) -> int {
    match c.offset {
        Some(x) => x + c.length,
        None => c.length as int,
    }
}

/// The largest end of the first `n` fields.
pub open spec fn max_end(cs: Seq<BufferValue>, n: int) -> int
    decreases n,
{
    if n <= 0 {
        0
    } else if field_end(cs[n - 1]) > max_end(cs, n - 1) {
        field_end(cs[n - 1])
    } else {
        max_end(cs, n - 1)
    }
}

/// Whether every field's end fits in a `usize`.
pub open spec fn ends_fit(cs: Seq<BufferValue>) -> bool {
    forall|i: int| 0 <= i < cs.len() ==> #[trigger] field_end(cs[i]) <= usize::MAX
}

/// The width of a buffer that holds all the given fields: the largest end of any of them.
pub fn get_len_from_columns(columns: Vec<&BufferValue>) -> (r: usize)
    requires
        columns@.len() > 0,
        forall|i: int| 0 <= i < columns@.len() ==> #[trigger] field_end(*columns@[i]) <= usize::MAX,
    ensures
        r == max_end(columns@.map_values(|c: &BufferValue| *c), columns@.len() as int),
{
    let ghost cs = columns@.map_values(|c: &BufferValue| *c);
    let mut best: usize = 0;
    let mut i: usize = 0;
    while i < columns.len()
        invariant
            i <= columns@.len(),
            cs == columns@.map_values(|c: &BufferValue| *c),
            forall|k: int| 0 <= k < columns@.len() ==> #[trigger] field_end(*columns@[k]) <= usize::MAX,
            best == max_end(cs, i as int),
        decreases columns@.len() - i,
    {
        let c = columns[i];
        assert(cs[i as int] == *c);
        assert(field_end(*columns@[i as int]) <= usize::MAX);
        let end: usize = match c.offset {
            Some(x) => x + c.length,
            None => c.length,
        };
        if end > best {
            best = end;
        }
        i += 1;
    }
    best
}

} // verus!
