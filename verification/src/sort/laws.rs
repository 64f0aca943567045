//! What holds of the container primitives together.

use vstd::prelude::*;

use crate::ast::ExprView;
use crate::sort::map::{
    keys_rebuilt, map_term, rebuilt_to, some_key_changes, some_value_changes, vals_rebuilt,
};
use crate::sort::numbering::{distinct, distinct_items, same_shape_iff_same_aliasing, shape_of};
use crate::sort::renaming::{
    compatible, entries_exist, entries_of, is_entries, is_greatest_key, united, Renaming,
};
use crate::sort::vec::{
    all_mapped, applied, first_half, has_mapping, ints, is_dense, is_mapping, joined,
    joined_lengths, same_lengths, second_half, vec_term,
};
use crate::sort::{Rebuilder, Value};

verus! {

// ---------------------------------------------------------------------------
// Vectors as renamings
// ---------------------------------------------------------------------------
/// Where the items of one vector stand among the items of all.
pub proof fn joined_at(vecs: Seq<Vec<i64>>, i: int)
    requires
        0 <= i < vecs.len(),
    ensures
        joined(vecs.take(i)).len() + vecs[i]@.len() <= joined(vecs).len(),
        forall|p: int|
            0 <= p < vecs[i]@.len() ==> joined(vecs)[joined(vecs.take(i)).len() + p] == (
            #[trigger] vecs[i]@[p]),
    decreases vecs.len(),
{
    let rest = vecs.drop_last();
    if i < rest.len() {
        joined_at(rest, i);
        assert(rest.take(i) =~= vecs.take(i));
        assert(rest[i] == vecs[i]);
        assert forall|p: int| 0 <= p < vecs[i]@.len() implies joined(vecs)[joined(
            vecs.take(i),
        ).len() + p] == (#[trigger] vecs[i]@[p]) by {
            assert(rest[i]@[p] == vecs[i]@[p]);
        }
    } else {
        assert(vecs.take(i) =~= rest);
    }
}

/// Applying what `find-mapping` gives to each renaming of the second node yields
/// the renaming of the first node at the same place.
pub proof fn find_mapping_renames_second_to_first(args: Seq<Vec<i64>>, r: Seq<i64>, i: int)
    requires
        has_mapping(args),
        is_mapping(args, r),
        0 <= i < args.len() / 2,
    ensures
        all_mapped(second_half(args)[i]@, r),
        applied(second_half(args)[i]@, r) == first_half(args)[i]@,
{
    let first = first_half(args);
    let second = second_half(args);
    joined_at(first, i);
    joined_at(second, i);
    assert forall|j: int| 0 <= j < i implies (#[trigger] first.take(i)[j])@.len() == second.take(
        i,
    )[j]@.len() by {
        assert(first[j]@.len() == second[j]@.len());
    }
    joined_lengths(first.take(i), second.take(i));
    let offset = joined(second.take(i)).len() as int;
    assert(first[i]@.len() == second[i]@.len());
    assert forall|p: int| 0 <= p < second[i]@.len() implies 0 <= (#[trigger] second[i]@[p])
        < r.len() && r[second[i]@[p] as int] == first[i]@[p] by {
        assert(joined(second)[offset + p] == second[i]@[p]);
        assert(joined(first)[offset + p] == first[i]@[p]);
        assert(joined(second).contains(second[i]@[p]));
    }
    assert(applied(second[i]@, r) =~= first[i]@);
}

/// `find-mapping` only succeeds on renamings of the same shape.
pub proof fn find_mapping_needs_equal_shapes(args: Seq<Vec<i64>>)
    requires
        has_mapping(args),
    ensures
        shape_of(joined(first_half(args))) == shape_of(joined(second_half(args))),
{
    same_shape_iff_same_aliasing(joined(second_half(args)), joined(first_half(args)));
}

/// `find-mapping` succeeds on renamings of the same lengths and the same shape
/// when those of the second node are their own shape.
pub proof fn find_mapping_succeeds_on_shapes(args: Seq<Vec<i64>>)
    requires
        same_lengths(first_half(args), second_half(args)),
        shape_of(joined(first_half(args))) == shape_of(joined(second_half(args))),
        ints(joined(second_half(args))) == shape_of(joined(second_half(args))),
    ensures
        has_mapping(args),
{
    let second = joined(second_half(args));
    same_shape_iff_same_aliasing(second, joined(first_half(args)));
    distinct_items(second);
    assert forall|v: i64| #[trigger] second.contains(v) <==> 0 <= v < distinct(second).len() by {
        if second.contains(v) {
            let i = second.index_of(v);
            assert(distinct(second).contains(second[i]));
            assert(ints(second)[i] == v as int);
            assert(shape_of(second)[i] == v as int);
        }
        if 0 <= v < distinct(second).len() {
            let x = distinct(second)[v as int];
            assert(distinct(second).contains(x));
            let i = second.index_of(x);
            assert(second[i] == x);
            assert(distinct(second).index_of(x) == v);
            assert(shape_of(second)[i] == v as int);
            assert(ints(second)[i] == v as int);
            assert(second[i] == v);
        }
    }
}

/// What `find-mapping` gives never sends two values to one, so it can be
/// inverted.
pub proof fn found_mapping_is_injective(args: Seq<Vec<i64>>, r: Seq<i64>)
    requires
        has_mapping(args),
        is_mapping(args, r),
    ensures
        r.no_duplicates(),
{
    let first = joined(first_half(args));
    let second = joined(second_half(args));
    assert forall|v: int, w: int| 0 <= v < r.len() && 0 <= w < r.len() && v != w implies r[v]
        != r[w] by {
        different_in_dense(second, v);
        different_in_dense(second, w);
        let i = second.index_of(v as i64);
        let j = second.index_of(w as i64);
        assert(second[i] == v && second[j] == w);
        assert(r[second[i] as int] == first[i] && r[second[j] as int] == first[j]);
    }
}

/// What `find-mapping` gives is the only vector that it could give.
pub proof fn found_mapping_is_unique(args: Seq<Vec<i64>>, r: Seq<i64>, other: Seq<i64>)
    requires
        has_mapping(args),
        is_mapping(args, r),
        is_mapping(args, other),
    ensures
        r == other,
{
    let second = joined(second_half(args));
    assert forall|v: int| 0 <= v < r.len() implies r[v] == other[v] by {
        different_in_dense(second, v);
        let i = second.index_of(v as i64);
        assert(second[i] == v);
    }
    assert(r =~= other);
}

/// Each number below the count of dense items is one of them.
proof fn different_in_dense(s: Seq<i64>, v: int)
    requires
        is_dense(s),
        0 <= v < distinct(s).len(),
    ensures
        v <= i64::MAX,
        s.contains(v as i64),
{
    distinct_items(s);
    if v > i64::MAX {
        let d = distinct(s);
        assert forall|i: int| 0 <= i < d.len() implies 0 <= #[trigger] d[i] < i64::MAX + 1 by {
            assert(d.contains(d[i]));
            assert(s.contains(d[i]));
        }
        crate::sort::vec::different_in_range(d, 0, i64::MAX + 1);
    }
}

// ---------------------------------------------------------------------------
// Printing and reading back
// ---------------------------------------------------------------------------
/// The items that a term for a vector stands for, given the values of the terms
/// of its items.
pub open spec fn read_vec(term: ExprView, value: spec_fn(ExprView) -> Value) -> Option<
    Seq<Value>,
> {
    match term {
        ExprView::Call(_, head, args) => if head == "vec-empty"@ && args.len() == 0 {
            Some(Seq::empty())
        } else if head == "vec-of"@ {
            Some(args.map_values(value))
        } else {
            None
        },
        _ => None,
    }
}

/// The map that a term for a map stands for, given the values of the terms of
/// its keys and values.
pub open spec fn read_map(term: ExprView, value: spec_fn(ExprView) -> Value) -> Option<Renaming>
    decreases term,
{
    match term {
        ExprView::Call(_, head, args) => if head == "map-empty"@ && args.len() == 0 {
            Some(Map::empty())
        } else if head == "map-insert"@ && args.len() == 3 {
            match read_map(args[0], value) {
                Some(m) => Some(m.insert(value(args[1]), value(args[2]))),
                None => None,
            }
        } else {
            None
        },
        _ => None,
    }
}

/// The term that a vector is printed as stands for that vector.
pub proof fn printed_vec_reads_back(
    data: Seq<Value>,
    elements: Seq<ExprView>,
    value: spec_fn(ExprView) -> Value,
)
    requires
        elements.map_values(value) == data,
    ensures
        read_vec(vec_term(elements), value) == Some(data),
{
    if elements.len() == 0 {
        assert(data =~= Seq::empty());
    }
}

/// The term that a map is printed as stands for that map.
pub proof fn printed_map_reads_back(
    m: Renaming,
    elements: Seq<ExprView>,
    value: spec_fn(ExprView) -> Value,
)
    requires
        m.dom().finite(),
        elements.map_values(value) == crate::sort::map::flattened(entries_of(m)),
    ensures
        read_map(map_term(elements, entries_of(m).len()), value) == Some(m),
{
    entries_exist(m);
    let all = entries_of(m);
    assert(elements.map_values(value).len() == crate::sort::map::flattened(all).len());
    assert forall|i: int| 0 <= i < all.len() implies value(elements[2 * i]) == (
    #[trigger] all[i]).0 && value(elements[2 * i + 1]) == all[i].1 by {
        let flat = crate::sort::map::flattened(all);
        assert(elements.map_values(value)[2 * i] == flat[2 * i]);
        assert(elements.map_values(value)[2 * i + 1] == flat[2 * i + 1]);
        assert((2 * i) / 2 == i && (2 * i + 1) / 2 == i);
    }
    inserted_prefix(m, elements, value, all.len());
    let whole = inserted(all, all.len());
    assert forall|k: Value| #[trigger] whole.contains_key(k) == m.contains_key(k) && (
    m.contains_key(k) ==> whole[k] == m[k]) by {
        inserted_entries(all, m, all.len(), k);
        if m.contains_key(k) {
            assert(all.contains((k, m[k])));
            let i = all.index_of((k, m[k]));
            assert(all[i].0 == k);
        }
    }
    assert(whole =~= m);
}

/// The first `n` entries, inserted one by one into the empty map.
spec fn inserted(all: Seq<(Value, Value)>, n: nat) -> Renaming
    decreases n,
{
    if n == 0 {
        Map::empty()
    } else {
        inserted(all, (n - 1) as nat).insert(all[n - 1].0, all[n - 1].1)
    }
}

/// The inserted entries are those of the map.
proof fn inserted_entries(all: Seq<(Value, Value)>, m: Renaming, n: nat, k: Value)
    requires
        is_entries(all, m),
        n <= all.len(),
    ensures
        inserted(all, n).contains_key(k) <==> exists|i: int|
            0 <= i < n && (#[trigger] all[i]).0 == k,
        inserted(all, n).contains_key(k) ==> m.contains_key(k) && inserted(all, n)[k] == m[k],
    decreases n,
{
    if n > 0 {
        inserted_entries(all, m, (n - 1) as nat, k);
        assert(m.contains_key(all[n - 1].0));
    }
}

/// Reading the printed prefix of a map gives the entries inserted so far.
proof fn inserted_prefix(
    m: Renaming,
    elements: Seq<ExprView>,
    value: spec_fn(ExprView) -> Value,
    n: nat,
)
    requires
        n <= entries_of(m).len(),
        elements.len() == 2 * entries_of(m).len(),
        forall|i: int|
            0 <= i < entries_of(m).len() ==> value(elements[2 * i]) == (
            #[trigger] entries_of(m)[i]).0 && value(elements[2 * i + 1]) == entries_of(m)[i].1,
    ensures
        read_map(map_term(elements, n), value) == Some(inserted(entries_of(m), n)),
    decreases n,
{
    reveal_strlit("map-empty");
    reveal_strlit("map-insert");
    if n > 0 {
        inserted_prefix(m, elements, value, (n - 1) as nat);
        assert(entries_of(m)[n - 1].0 == value(elements[2 * (n - 1)]));
    }
}

// ---------------------------------------------------------------------------
// Rebuilding
// ---------------------------------------------------------------------------
/// Whether every leader leads itself.
pub open spec fn leaders_are_final(rebuilder: Rebuilder) -> bool {
    forall|v: Value| #[trigger]
        rebuilder.rebuilt(rebuilder.rebuilt(v)) == rebuilder.rebuilt(v)
}

/// Rebuilding a vector that was just rebuilt changes nothing.
pub proof fn rebuilding_items_is_idempotent(rebuilder: Rebuilder, values: Seq<Value>)
    requires
        leaders_are_final(rebuilder),
    ensures
        rebuilder.all_rebuilt(rebuilder.all_rebuilt(values)) == rebuilder.all_rebuilt(values),
{
    assert forall|i: int| 0 <= i < values.len() implies rebuilder.rebuilt(
        #[trigger] rebuilder.all_rebuilt(values)[i],
    ) == rebuilder.all_rebuilt(values)[i] by {
        assert(rebuilder.rebuilt(rebuilder.rebuilt(values[i])) == rebuilder.rebuilt(values[i]));
    }
    assert(rebuilder.all_rebuilt(rebuilder.all_rebuilt(values)) =~= rebuilder.all_rebuilt(values));
}

/// Rebuilding the keys of a map whose keys were just rebuilt changes nothing.
pub proof fn rebuilding_keys_is_idempotent(rebuilder: Rebuilder, m: Renaming)
    requires
        leaders_are_final(rebuilder),
    ensures
        !some_key_changes(keys_rebuilt(m, rebuilder), rebuilder),
        keys_rebuilt(keys_rebuilt(m, rebuilder), rebuilder) == keys_rebuilt(m, rebuilder),
{
    let once = keys_rebuilt(m, rebuilder);
    assert forall|k: Value| #[trigger] once.contains_key(k) implies rebuilder.rebuilt(k) == k by {
        let old_key = choose|o: Value| #[trigger] m.contains_key(o) && rebuilder.rebuilt(o) == k;
        assert(rebuilder.rebuilt(rebuilder.rebuilt(old_key)) == rebuilder.rebuilt(old_key));
    }
    let twice = keys_rebuilt(once, rebuilder);
    assert forall|k: Value| #[trigger] twice.contains_key(k) == once.contains_key(k) && (
    once.contains_key(k) ==> twice[k] == once[k]) by {
        let p = rebuilt_to(rebuilder, k);
        if once.contains_key(k) {
            assert(rebuilder.rebuilt(k) == k);
            assert(is_greatest_key(once, p, k));
            crate::sort::renaming::greatest_key_is(once, p, k);
        }
    }
    assert(twice =~= once);
}

/// Rebuilding the values of a map whose values were just rebuilt changes
/// nothing.
pub proof fn rebuilding_values_is_idempotent(rebuilder: Rebuilder, m: Renaming)
    requires
        leaders_are_final(rebuilder),
    ensures
        !some_value_changes(vals_rebuilt(m, rebuilder), rebuilder),
        vals_rebuilt(vals_rebuilt(m, rebuilder), rebuilder) == vals_rebuilt(m, rebuilder),
{
    let once = vals_rebuilt(m, rebuilder);
    assert forall|k: Value| #[trigger] once.contains_key(k) implies rebuilder.rebuilt(once[k])
        == once[k] by {
        assert(rebuilder.rebuilt(rebuilder.rebuilt(m[k])) == rebuilder.rebuilt(m[k]));
    }
    assert(vals_rebuilt(once, rebuilder) =~= once);
}

// ---------------------------------------------------------------------------
// Unions
// ---------------------------------------------------------------------------
/// The union of two maps, where there is one, has the keys of both and agrees
/// with both; the order of the two does not matter.
pub proof fn union_agrees_with_both(a: Renaming, b: Renaming)
    ensures
        united(a, b) == united(b, a),
        united(a, b) matches Some(both) ==> both.dom() == a.dom().union(b.dom())
            && a.submap_of(both) && b.submap_of(both),
{
    assert(compatible(a, b) == compatible(b, a)) by {
        if compatible(a, b) {
            assert forall|k: Value| #[trigger] b.contains_key(k) && a.contains_key(k) implies b[k]
                == a[k] by {
                assert(a.contains_key(k));
            }
        }
        if compatible(b, a) {
            assert forall|k: Value| #[trigger] a.contains_key(k) && b.contains_key(k) implies a[k]
                == b[k] by {
                assert(b.contains_key(k));
            }
        }
    }
    if compatible(a, b) {
        assert(a.union_prefer_right(b) =~= b.union_prefer_right(a));
        assert(a.union_prefer_right(b).dom() =~= a.dom().union(b.dom()));
    }
}

} // verus!
