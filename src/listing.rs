//! The column listing offered to a user interface: each column name once, with whether it is
//! selected by default.

use crate::schema::{BufferValue, PacketColumns};
use std::collections::HashMap;
use vstd::std_specs::iter::IteratorSpec;
use vstd::prelude::*;

verus! {

/// The model of a listing: names with their selection, in order of first appearance.
pub type ListingModel = Seq<(Seq<char>, bool)>;

pub open spec fn listing_view(l: Seq<(String, bool)>) -> ListingModel {
    l.map_values(|e: (String, bool)| (e.0@, e.1))
}

/// The index of the first entry of `s` named `name` at or after `i`, or -1.
pub open spec fn index_from(s: ListingModel, name: Seq<char>, i: int) -> int
    decreases s.len() - i,
{
    if i < 0 || i >= s.len() {
        -1
    } else if s[i].0 == name {
        i
    } else {
        index_from(s, name, i + 1)
    }
}

/// `s` with `name` set to `v`: in place when present, else appended.
pub open spec fn listing_set(s: ListingModel, name: Seq<char>, v: bool) -> ListingModel {
    let i = index_from(s, name, 0);
    if i >= 0 {
        s.update(i, (name, v))
    } else {
        s.push((name, v))
    }
}

/// `s` with `name` raised by `v`: a name already selected stays selected.
pub open spec fn listing_raise(s: ListingModel, name: Seq<char>, v: bool) -> ListingModel {
    let i = index_from(s, name, 0);
    if i >= 0 && s[i].1 {
        s
    } else {
        listing_set(s, name, v)
    }
}

/// The listing of the first `k` fields, each setting its name to its default.
pub open spec fn fields_set(s: ListingModel, cols: Seq<BufferValue>, k: int) -> ListingModel
    decreases k,
{
    if k <= 0 {
        s
    } else {
        listing_set(fields_set(s, cols, k - 1), cols[k - 1].name@, cols[k - 1].default)
    }
}

/// The listing of the first `k` fields, each raising its name by its default.
pub open spec fn fields_raise(s: ListingModel, cols: Seq<BufferValue>, k: int) -> ListingModel
    decreases k,
{
    if k <= 0 {
        s
    } else {
        listing_raise(fields_raise(s, cols, k - 1), cols[k - 1].name@, cols[k - 1].default)
    }
}

/// The listing of the first `k` names, each selected when `selected` holds it.
pub open spec fn names_set(s: ListingModel, names: Seq<String>, selected: Seq<String>, k: int) -> ListingModel
    decreases k,
{
    if k <= 0 {
        s
    } else {
        listing_set(
            names_set(s, names, selected, k - 1),
            names[k - 1]@,
            exists|j: int| 0 <= j < selected.len() && #[trigger] selected[j]@ == names[k - 1]@,
        )
    }
}

fn index_of(l: &Vec<(String, bool)>, name: &String) -> (r: Option<usize>)
    ensures
        match r {
            Some(i) => index_from(listing_view(l@), name@, 0) == i as int && i < l@.len(),
            None => index_from(listing_view(l@), name@, 0) == -1,
        },
{
    let ghost s = listing_view(l@);
    let mut i: usize = 0;
    while i < l.len()
        invariant
            i <= l@.len(),
            s == listing_view(l@),
            index_from(s, name@, 0) == index_from(s, name@, i as int),
        decreases l@.len() - i,
    {
        if l[i].0 == *name {
            return Some(i);
        }
        i += 1;
    }
    None
}

/// Sets `name` to `v` in the listing.
pub fn set_column(l: &mut Vec<(String, bool)>, name: &String, v: bool)
    ensures
        listing_view(final(l)@) == listing_set(listing_view(old(l)@), name@, v),
{
    match index_of(l, name) {
        Some(i) => {
            l.set(i, (name.clone(), v));
            proof {
                assert(listing_view(l@) =~= listing_view(old(l)@).update(i as int, (name@, v)));
            }
        },
        None => {
            l.push((name.clone(), v));
            proof {
                assert(listing_view(l@) =~= listing_view(old(l)@).push((name@, v)));
            }
        },
    }
}

/// Raises `name` by `v` in the listing: it is set to `v` unless it is already selected.
pub fn raise_column(l: &mut Vec<(String, bool)>, name: &String, v: bool)
    ensures
        listing_view(final(l)@) == listing_raise(listing_view(old(l)@), name@, v),
{
    match index_of(l, name) {
        Some(i) => {
            if !l[i].1 {
                set_column(l, name, v);
            }
        },
        None => {
            set_column(l, name, v);
        },
    }
}

pub(crate) fn contains_name(names: &Vec<String>, name: &String) -> (r: bool)
    ensures
        r == exists|j: int| 0 <= j < names@.len() && #[trigger] names@[j]@ == name@,
{
    let mut i: usize = 0;
    while i < names.len()
        invariant
            i <= names@.len(),
            forall|j: int| 0 <= j < i ==> #[trigger] names@[j]@ != name@,
        decreases names@.len() - i,
    {
        if names[i] == *name {
            return true;
        }
        i += 1;
    }
    false
}

/// Raises each field of a column set by its default, in order.
pub fn raise_fields(l: &mut Vec<(String, bool)>, set: &PacketColumns)
    ensures
        listing_view(final(l)@) == fields_raise(listing_view(old(l)@), set.columns@, set.columns@.len() as int),
{
    let mut i: usize = 0;
    while i < set.columns.len()
        invariant
            i <= set.columns@.len(),
            listing_view(l@) == fields_raise(listing_view(old(l)@), set.columns@, i as int),
        decreases set.columns@.len() - i,
    {
        let c = &set.columns[i];
        raise_column(l, &c.name, c.default);
        i += 1;
    }
}

/// The listing after raising the fields of the first `k` column sets, in order.
pub open spec fn sets_raise(s: ListingModel, sets: Seq<PacketColumns>, k: int) -> ListingModel
    decreases k,
{
    if k <= 0 {
        s
    } else {
        let prev = sets_raise(s, sets, k - 1);
        fields_raise(prev, sets[k - 1].columns@, sets[k - 1].columns@.len() as int)
    }
}

/// Whether no name is listed twice.
pub open spec fn distinct_names(s: ListingModel) -> bool {
    forall|i: int, j: int| 0 <= i < j < s.len() ==> #[trigger] s[i].0 != #[trigger] s[j].0
}

/// Whether `n` is listed.
pub open spec fn listed(s: ListingModel, n: Seq<char>) -> bool {
    exists|i: int| 0 <= i < s.len() && #[trigger] s[i].0 == n
}

/// Whether `n` is listed as selected.
pub open spec fn selected(s: ListingModel, n: Seq<char>) -> bool {
    exists|i: int| 0 <= i < s.len() && #[trigger] s[i].0 == n && s[i].1
}

/// Whether a column of `pc` is named `n`.
pub open spec fn column_named(pc: PacketColumns, n: Seq<char>) -> bool {
    exists|j: int| 0 <= j < pc.columns@.len() && #[trigger] pc.columns@[j].name@ == n
}

/// Whether a column of `pc` named `n` is selected by default.
pub open spec fn column_selected(pc: PacketColumns, n: Seq<char>) -> bool {
    exists|j: int| 0 <= j < pc.columns@.len() && #[trigger] pc.columns@[j].name@ == n && pc.columns@[j].default
}

proof fn lemma_index_from(s: ListingModel, name: Seq<char>, i: int)
    requires
        0 <= i,
    ensures
        index_from(s, name, i) == -1 ==> forall|k: int| i <= k < s.len() ==> #[trigger] s[k].0 != name,
        index_from(s, name, i) != -1 ==> i <= index_from(s, name, i) < s.len() && s[index_from(
            s,
            name,
            i,
        )].0 == name,
    decreases s.len() - i,
{
    if i < s.len() && s[i].0 != name {
        lemma_index_from(s, name, i + 1);
    }
}

proof fn lemma_raise(s: ListingModel, name: Seq<char>, v: bool)
    requires
        distinct_names(s),
    ensures
        distinct_names(listing_raise(s, name, v)),
        forall|n: Seq<char>| #[trigger] listed(listing_raise(s, name, v), n) <==> listed(s, n) || n == name,
        forall|n: Seq<char>|
            #[trigger] selected(listing_raise(s, name, v), n) <==> if n == name {
                selected(s, n) || v
            } else {
                selected(s, n)
            },
{
    let r = listing_raise(s, name, v);
    let idx = index_from(s, name, 0);
    lemma_index_from(s, name, 0);
    if idx >= 0 && s[idx].1 {
        assert forall|n: Seq<char>| #[trigger] selected(r, n) <==> if n == name {
            selected(s, n) || v
        } else {
            selected(s, n)
        } by {
            if n == name {
                assert(s[idx].0 == n);
            }
        }
        assert forall|n: Seq<char>| #[trigger] listed(r, n) <==> listed(s, n) || n == name by {
            if n == name {
                assert(s[idx].0 == n);
            }
        }
    } else if idx >= 0 {
        assert(r == s.update(idx, (name, v)));
        assert forall|i: int, j: int| 0 <= i < j < r.len() implies #[trigger] r[i].0 != #[trigger] r[j].0 by {
            assert(r[i].0 == s[i].0 && r[j].0 == s[j].0);
        }
        assert forall|n: Seq<char>| #[trigger] listed(r, n) <==> listed(s, n) || n == name by {
            if listed(s, n) {
                let i = choose|i: int| 0 <= i < s.len() && #[trigger] s[i].0 == n;
                assert(r[i].0 == n);
            }
            if n == name {
                assert(r[idx].0 == n);
            }
        }
        assert forall|n: Seq<char>| #[trigger] selected(r, n) <==> if n == name {
            selected(s, n) || v
        } else {
            selected(s, n)
        } by {
            if n == name {
                if selected(s, n) {
                    let i = choose|i: int| 0 <= i < s.len() && #[trigger] s[i].0 == n && s[i].1;
                    assert(i == idx);
                }
                if v {
                    assert(r[idx].0 == n && r[idx].1);
                }
                if selected(r, n) {
                    let i = choose|i: int| 0 <= i < r.len() && #[trigger] r[i].0 == n && r[i].1;
                    assert(i == idx);
                }
            } else {
                if selected(s, n) {
                    let i = choose|i: int| 0 <= i < s.len() && #[trigger] s[i].0 == n && s[i].1;
                    assert(r[i] == s[i]);
                }
                if selected(r, n) {
                    let i = choose|i: int| 0 <= i < r.len() && #[trigger] r[i].0 == n && r[i].1;
                    assert(r[i] == s[i]);
                }
            }
        }
    } else {
        assert(r == s.push((name, v)));
        assert forall|i: int, j: int| 0 <= i < j < r.len() implies #[trigger] r[i].0 != #[trigger] r[j].0 by {
            if j == s.len() {
                assert(s[i].0 != name);
            } else {
                assert(r[i].0 == s[i].0 && r[j].0 == s[j].0);
            }
        }
        assert forall|n: Seq<char>| #[trigger] listed(r, n) <==> listed(s, n) || n == name by {
            if listed(s, n) {
                let i = choose|i: int| 0 <= i < s.len() && #[trigger] s[i].0 == n;
                assert(r[i].0 == n);
            }
            if n == name {
                assert(r[s.len() as int].0 == n);
            }
            if listed(r, n) && n != name {
                let i = choose|i: int| 0 <= i < r.len() && #[trigger] r[i].0 == n;
                assert(i < s.len());
                assert(s[i].0 == n);
            }
        }
        assert forall|n: Seq<char>| #[trigger] selected(r, n) <==> if n == name {
            selected(s, n) || v
        } else {
            selected(s, n)
        } by {
            if selected(s, n) {
                let i = choose|i: int| 0 <= i < s.len() && #[trigger] s[i].0 == n && s[i].1;
                assert(r[i] == s[i]);
            }
            if n == name && v {
                assert(r[s.len() as int].0 == n && r[s.len() as int].1);
            }
            if selected(r, n) {
                let i = choose|i: int| 0 <= i < r.len() && #[trigger] r[i].0 == n && r[i].1;
                if i < s.len() {
                    assert(s[i] == r[i]);
                }
            }
        }
    }
}

proof fn lemma_fields_raise(s: ListingModel, cols: Seq<BufferValue>, k: int)
    requires
        distinct_names(s),
        0 <= k <= cols.len(),
    ensures
        distinct_names(fields_raise(s, cols, k)),
        forall|n: Seq<char>| #[trigger] listed(fields_raise(s, cols, k), n) <==> listed(s, n) || exists|j: int|
            0 <= j < k && #[trigger] cols[j].name@ == n,
        forall|n: Seq<char>| #[trigger] selected(fields_raise(s, cols, k), n) <==> selected(s, n) || exists|j: int|
            0 <= j < k && #[trigger] cols[j].name@ == n && cols[j].default,
    decreases k,
{
    if k > 0 {
        lemma_fields_raise(s, cols, k - 1);
        let prev = fields_raise(s, cols, k - 1);
        lemma_raise(prev, cols[k - 1].name@, cols[k - 1].default);
        assert forall|n: Seq<char>| #[trigger] listed(fields_raise(s, cols, k), n) <==> listed(s, n) || exists|j: int|
            0 <= j < k && #[trigger] cols[j].name@ == n by {
            if exists|j: int| 0 <= j < k && #[trigger] cols[j].name@ == n {
                let j = choose|j: int| 0 <= j < k && #[trigger] cols[j].name@ == n;
                if j < k - 1 {
                    assert(listed(prev, n));
                }
            }
        }
        assert forall|n: Seq<char>| #[trigger] selected(fields_raise(s, cols, k), n) <==> selected(s, n) || exists|j: int|
            0 <= j < k && #[trigger] cols[j].name@ == n && cols[j].default by {
            if exists|j: int| 0 <= j < k && #[trigger] cols[j].name@ == n && cols[j].default {
                let j = choose|j: int| 0 <= j < k && #[trigger] cols[j].name@ == n && cols[j].default;
                if j < k - 1 {
                    assert(selected(prev, n));
                }
            }
        }
    }
}

proof fn lemma_sets_raise(s: ListingModel, sets: Seq<PacketColumns>, k: int)
    requires
        distinct_names(s),
        0 <= k <= sets.len(),
    ensures
        distinct_names(sets_raise(s, sets, k)),
        forall|n: Seq<char>| #[trigger] listed(sets_raise(s, sets, k), n) <==> listed(s, n) || exists|i: int|
            0 <= i < k && column_named(#[trigger] sets[i], n),
        forall|n: Seq<char>| #[trigger] selected(sets_raise(s, sets, k), n) <==> selected(s, n) || exists|i: int|
            0 <= i < k && column_selected(#[trigger] sets[i], n),
    decreases k,
{
    if k > 0 {
        lemma_sets_raise(s, sets, k - 1);
        let prev = sets_raise(s, sets, k - 1);
        let cols = sets[k - 1].columns@;
        lemma_fields_raise(prev, cols, cols.len() as int);
        assert forall|n: Seq<char>| #[trigger] listed(sets_raise(s, sets, k), n) <==> listed(s, n) || exists|i: int|
            0 <= i < k && column_named(#[trigger] sets[i], n) by {
            if exists|i: int| 0 <= i < k && column_named(#[trigger] sets[i], n) {
                let i = choose|i: int| 0 <= i < k && column_named(#[trigger] sets[i], n);
                if i < k - 1 {
                    assert(listed(prev, n));
                } else {
                    let j = choose|j: int| 0 <= j < cols.len() && #[trigger] cols[j].name@ == n;
                }
            }
            if exists|j: int| 0 <= j < cols.len() && #[trigger] cols[j].name@ == n {
                assert(column_named(sets[k - 1], n));
            }
        }
        assert forall|n: Seq<char>| #[trigger] selected(sets_raise(s, sets, k), n) <==> selected(s, n) || exists|i: int|
            0 <= i < k && column_selected(#[trigger] sets[i], n) by {
            if exists|i: int| 0 <= i < k && column_selected(#[trigger] sets[i], n) {
                let i = choose|i: int| 0 <= i < k && column_selected(#[trigger] sets[i], n);
                if i < k - 1 {
                    assert(selected(prev, n));
                } else {
                    let j = choose|j: int| 0 <= j < cols.len() && #[trigger] cols[j].name@ == n && cols[j].default;
                }
            }
            if exists|j: int| 0 <= j < cols.len() && #[trigger] cols[j].name@ == n && cols[j].default {
                assert(column_selected(sets[k - 1], n));
            }
        }
    }
}

/// Raises the fields of every column set of `table`. The walk order of the table is not
/// fixed, so what is stated is order-free: a name is listed when it was, or when a column of
/// some set bears it, and selected when it was, or when such a column is selected by default.
pub fn raise_all_sets(l: &mut Vec<(String, bool)>, table: &HashMap<u64, PacketColumns>)
    requires
        distinct_names(listing_view(old(l)@)),
    ensures
        distinct_names(listing_view(final(l)@)),
        forall|n: Seq<char>| #[trigger] listed(listing_view(final(l)@), n) <==> listed(listing_view(old(l)@), n) || exists|pc: PacketColumns|
            table@.values().contains(pc) && #[trigger] column_named(pc, n),
        forall|n: Seq<char>| #[trigger] selected(listing_view(final(l)@), n) <==> selected(listing_view(old(l)@), n) || exists|pc: PacketColumns|
            table@.values().contains(pc) && #[trigger] column_selected(pc, n),
{
    broadcast use vstd::std_specs::hash::group_hash_axioms;

    let ghost start = listing_view(l@);
    let ghost order = vstd::std_specs::hash::spec_values_iter(table).remaining().unref();
    for set in it: table.values()
        invariant
            it.seq().unref() == order,
            order.to_set() == table@.values(),
            listing_view(l@) == sets_raise(start, order, it.index() as int),
    {
        raise_fields(l, set);
        proof {
            assert(it.seq().unref()[it.index() as int] == *set);
        }
    }
    proof {
        lemma_sets_raise(start, order, order.len() as int);
        assert forall|n: Seq<char>| #[trigger] listed(listing_view(l@), n) <==> listed(start, n) || exists|pc: PacketColumns|
            table@.values().contains(pc) && #[trigger] column_named(pc, n) by {
            if exists|i: int| 0 <= i < order.len() && column_named(#[trigger] order[i], n) {
                let i = choose|i: int| 0 <= i < order.len() && column_named(#[trigger] order[i], n);
                assert(order.to_set().contains(order[i]));
            }
            if exists|pc: PacketColumns| table@.values().contains(pc) && #[trigger] column_named(pc, n) {
                let pc = choose|pc: PacketColumns| table@.values().contains(pc) && #[trigger] column_named(pc, n);
                assert(order.to_set().contains(pc));
                let i = choose|i: int| 0 <= i < order.len() && order[i] == pc;
                assert(column_named(order[i], n));
            }
        }
        assert forall|n: Seq<char>| #[trigger] selected(listing_view(l@), n) <==> selected(start, n) || exists|pc: PacketColumns|
            table@.values().contains(pc) && #[trigger] column_selected(pc, n) by {
            if exists|i: int| 0 <= i < order.len() && column_selected(#[trigger] order[i], n) {
                let i = choose|i: int| 0 <= i < order.len() && column_selected(#[trigger] order[i], n);
                assert(order.to_set().contains(order[i]));
            }
            if exists|pc: PacketColumns| table@.values().contains(pc) && #[trigger] column_selected(pc, n) {
                let pc = choose|pc: PacketColumns| table@.values().contains(pc) && #[trigger] column_selected(pc, n);
                assert(order.to_set().contains(pc));
                let i = choose|i: int| 0 <= i < order.len() && order[i] == pc;
                assert(column_selected(order[i], n));
            }
        }
    }
}

} // verus!
