//! Windowing rules of the text sources, whose rows are parsed outside this crate.

use vstd::prelude::*;

verus! {

/// `min(a, b)`.
pub open spec fn min_int(a: int, b: int) -> int {
    if a < b {
        a
    } else {
        b
    }
}

/// The rows `[from, to)` of `total` rows that a read of `len` rows from `from` selects.
pub open spec fn window_spec(total: int, from: int, len: int) -> (int, int) {
    let f = min_int(from, total);
    (f, min_int(f + len, total))
}

fn window_of(total: usize, from: Option<usize>, len: usize) -> (r: (usize, usize))
    ensures
        (r.0 as int, r.1 as int) == window_spec(
            total as int,
            match from {
                Some(f) => f as int,
                None => 0,
            },
            len as int,
        ),
{
    let f0 = match from {
        Some(f) => f,
        None => 0,
    };
    let f = if f0 < total {
        f0
    } else {
        total
    };
    let t = if len < total - f {
        f + len
    } else {
        total
    };
    (f, t)
}

/// A source that is one JSON document holding an array of objects.
pub struct JsonAdapter {}

impl JsonAdapter {
    /// The rows `[from, to)` of `total` parsed objects that a read selects.
    pub fn window(&self, total: usize, from: Option<usize>, len: usize) -> (r: (usize, usize))
        ensures
            (r.0 as int, r.1 as int) == window_spec(
                total as int,
                match from {
                    Some(f) => f as int,
                    None => 0,
                },
                len as int,
            ),
            r.0 <= r.1 <= total,
    {
        window_of(total, from, len)
    }
}

/// A source of delimited text.
pub struct CsvAdapter {}

impl CsvAdapter {
    /// The records `[from, to)` of `total` data records that a read selects.
    pub fn window(&self, total: usize, from: Option<usize>, len: usize) -> (r: (usize, usize))
        ensures
            (r.0 as int, r.1 as int) == window_spec(
                total as int,
                match from {
                    Some(f) => f as int,
                    None => 0,
                },
                len as int,
            ),
            r.0 <= r.1 <= total,
    {
        window_of(total, from, len)
    }
}

/// A source with one JSON object per line.
pub struct JsonLineAdapter {}

impl JsonLineAdapter {
    /// The lines `[from, to)` of `total` lines that a read selects.
    pub fn window(&self, total: usize, from: Option<usize>, len: usize) -> (r: (usize, usize))
        ensures
            (r.0 as int, r.1 as int) == window_spec(
                total as int,
                match from {
                    Some(f) => f as int,
                    None => 0,
                },
                len as int,
            ),
            r.0 <= r.1 <= total,
    {
        window_of(total, from, len)
    }
}

/// A source that is one JSON document holding an array of rows, each an array of values.
/// Unless default column names are configured, its first row holds the column names.
pub struct JsonArrayAdapter {}

/// The rows `[from, to)` of `total` rows that a read selects, past the header row when
/// there is one.
pub open spec fn array_window_spec(total: int, from: int, len: int, header_row: bool) -> (int, int) {
    let w = window_spec(total, from, len);
    if header_row {
        (min_int(w.0 + 1, total), min_int(w.1 + 1, total))
    } else {
        w
    }
}

impl JsonArrayAdapter {
    /// The rows `[from, to)` of `total` rows that a read selects.
    pub fn window(&self, total: usize, from: Option<usize>, len: usize, header_row: bool) -> (r: (usize, usize))
        ensures
            (r.0 as int, r.1 as int) == array_window_spec(
                total as int,
                match from {
                    Some(f) => f as int,
                    None => 0,
                },
                len as int,
                header_row,
            ),
            r.0 <= r.1 <= total,
    {
        let (f, t) = window_of(total, from, len);
        if header_row {
            let f1 = if f < total {
                f + 1
            } else {
                total
            };
            let t1 = if t < total {
                t + 1
            } else {
                total
            };
            (f1, t1)
        } else {
            (f, t)
        }
    }
}

} // verus!
