//! What the operations on containers do, item by item and call by call.

use std::collections::BTreeMap;
use vstd::prelude::*;

use crate::sort::map::{
    flattened, halves, halves_are_maps, is_numbering, keys_rebuilt, pair_views, rebuilt_to,
    slot_values, some_key_changes, some_value_changes, sorted_values, vals_rebuilt, MapContainer,
    SlotMap,
};
use crate::sort::numbering::shape_of;
use crate::sort::renaming::{
    by_slot, composed, entries_of, forced, forced_at, forced_mapping_renames_second_to_first,
    greatest_key, greatest_key_exists, inverted, is_forced_mapping, is_greatest_key, is_injective,
    is_ordered, mappable, ordered_is, renaming_implies_forced_mapping, united, Renaming,
};
use crate::sort::vec::{
    all_mapped, appended, applied, defined, first_half, has_mapping, is_mapping, joined, paired,
    range_end, second_half, VecContainer,
};
use crate::sort::{function_sorts, sort_named, ArcSort, FunctionSort, Rebuilder, Sort, Value};

verus! {

// ---------------------------------------------------------------------------
// Renamings
// ---------------------------------------------------------------------------
/// A composition sends a key where the outer renaming sends what the inner one
/// sends it to, and has no other keys.
pub proof fn composition_renames_twice(outer: Renaming, inner: Renaming, k: Value)
    ensures
        composed(outer, inner).contains_key(k) <==> inner.contains_key(k) && outer.contains_key(
            inner[k],
        ),
        composed(outer, inner).contains_key(k) ==> composed(outer, inner)[k] == outer[inner[k]],
{
}

/// An inverse has a key for each value of the renaming, and sends it back to the
/// greatest key that has it.
pub proof fn inverse_goes_back(m: Renaming, v: Value)
    ensures
        inverted(m).contains_key(v) <==> exists|k: Value| #[trigger] m.contains_key(k) && m[k] == v,
        inverted(m).contains_key(v) ==> m.contains_key(inverted(m)[v]) && m[inverted(m)[v]] == v,
        inverted(m).contains_key(v) ==> forall|k: Value| #[trigger]
            m.contains_key(k) && m[k] == v ==> k <= inverted(m)[v],
{
    if m.contains_value(v) {
        greatest_key_exists(m, v);
        let top = inverted(m)[v];
        let p = crate::sort::renaming::sent_to(m, v);
        assert(is_greatest_key(m, p, top));
        assert forall|k: Value| #[trigger] m.contains_key(k) && m[k] == v implies k <= top by {
            assert(p(k));
        }
    }
    if exists|k: Value| #[trigger] m.contains_key(k) && m[k] == v {
        assert(m.contains_value(v));
    }
}

/// Two renamings have no union exactly where they send a key to different values.
pub proof fn union_fails_on_conflicts(a: Renaming, b: Renaming)
    ensures
        united(a, b) is None <==> exists|k: Value| #[trigger]
            a.contains_key(k) && b.contains_key(k) && a[k] != b[k],
        united(a, b) matches Some(both) ==> forall|k: Value| #[trigger]
            both.contains_key(k) <==> a.contains_key(k) || b.contains_key(k),
        united(a, b) matches Some(both) ==> forall|k: Value| #[trigger]
            a.contains_key(k) ==> both[k] == a[k],
        united(a, b) matches Some(both) ==> forall|k: Value| #[trigger]
            b.contains_key(k) ==> both[k] == b[k],
{
}

// ---------------------------------------------------------------------------
// The renaming between two nodes
// ---------------------------------------------------------------------------
/// `find-mapping` on maps compares each argument of the first half with the one at
/// the same place of the second half. What it gives, composed with an argument of
/// the second half, is the argument of the first half at the same place. It is
/// injective and mentions only values of the second half.
pub proof fn found_map_turns_second_into_first(
    args: Seq<Option<MapContainer>>,
    m: Renaming,
    i: int,
)
    requires
        halves_are_maps(args),
        mappable(halves(args)),
        is_forced_mapping(halves(args), m),
        0 <= i < args.len() / 2,
    ensures
        args[i] is Some && args[args.len() / 2 + i] is Some,
        composed(m, args[args.len() / 2 + i]->0.data@) == args[i]->0.data@,
        is_injective(m),
        forall|v: Value| #[trigger]
            m.contains_key(v) ==> exists|j: int, k: Value|
                0 <= j < args.len() / 2 && #[trigger] args[args.len() / 2
                    + j]->0.data@.contains_key(k) && args[args.len() / 2 + j]->0.data@[k] == v,
{
    let pairs = halves(args);
    let h = (args.len() / 2) as int;
    assert(args[i] is Some && args[h + i] is Some);
    forced_mapping_renames_second_to_first(pairs, m);
    assert(pairs[i] == (args[i]->0.data@, args[h + i]->0.data@));
    assert forall|v: Value| #[trigger] m.contains_key(v) implies exists|j: int, k: Value|
        0 <= j < h && #[trigger] args[h + j]->0.data@.contains_key(k) && args[h
            + j]->0.data@[k] == v by {
        assert(forced(pairs, v, m[v]));
        let (j, k) = choose|j: int, k: Value| forced_at(pairs, j, k, v, m[v]);
        assert(pairs[j] == (args[j]->0.data@, args[h + j]->0.data@));
        assert(args[h + j]->0.data@.contains_key(k));
    }
}

/// `find-mapping` on maps succeeds wherever all paired arguments are maps and some
/// injective renaming, defined on all values of the second half, turns each of the
/// second half into the one at the same place of the first.
pub proof fn maps_equal_up_to_renaming_are_found(args: Seq<Option<MapContainer>>, r: Renaming)
    requires
        forall|i: int| 0 <= i < 2 * (args.len() / 2) ==> (#[trigger] args[i]) is Some,
        is_injective(r),
        forall|i: int|
            0 <= i < args.len() / 2 ==> composed(
                r,
                args[args.len() / 2 + i]->0.data@,
            ) == (#[trigger] args[i])->0.data@,
        forall|i: int, k: Value|
            args.len() / 2 <= i < 2 * (args.len() / 2) && #[trigger] args[i]->0.data@.contains_key(
                k,
            ) ==> r.contains_key(args[i]->0.data@[k]),
    ensures
        halves_are_maps(args),
        mappable(halves(args)),
{
    let pairs = halves(args);
    let h = (args.len() / 2) as int;
    assert forall|i: int| 0 <= i < pairs.len() implies composed(r, (#[trigger] pairs[i]).1)
        == pairs[i].0 by {
        assert(composed(r, args[h + i]->0.data@) == args[i]->0.data@);
    }
    assert forall|i: int, k: Value|
        0 <= i < pairs.len() && #[trigger] pairs[i].1.contains_key(k) implies r.contains_key(
        pairs[i].1[k],
    ) by {
        assert(args[h + i]->0.data@.contains_key(k));
    }
    renaming_implies_forced_mapping(pairs, r);
}

/// Where one of the paired arguments is no map, or the maps at the same place of the
/// two halves have different keys, `find-mapping` finds nothing.
pub proof fn nothing_is_found_between_different_keys(args: Seq<Option<MapContainer>>, i: int)
    requires
        0 <= i < args.len() / 2,
        args[i] is None || args[args.len() / 2 + i] is None || args[i]->0.data@.dom() != args[
        args.len() / 2 + i]->0.data@.dom(),
    ensures
        !(halves_are_maps(args) && mappable(halves(args))),
{
    let h = (args.len() / 2) as int;
    if halves_are_maps(args) {
        assert(args[i] is Some && args[h + i] is Some);
        assert(halves(args)[i] == (args[i]->0.data@, args[h + i]->0.data@));
    }
}

/// The same renaming is found between maps that are given in pairs.
pub proof fn found_data_turns_second_into_first(
    pairs: Seq<(&BTreeMap<Value, Value>, &BTreeMap<Value, Value>)>,
    m: Renaming,
    i: int,
)
    requires
        mappable(pair_views(pairs)),
        is_forced_mapping(pair_views(pairs), m),
        0 <= i < pairs.len(),
    ensures
        composed(m, pairs[i].1@) == pairs[i].0@,
        is_injective(m),
{
    forced_mapping_renames_second_to_first(pair_views(pairs), m);
    assert(pair_views(pairs)[i] == (pairs[i].0@, pairs[i].1@));
}

/// `find-mapping` on vectors pairs the arguments in the same way: replacing each
/// item of an argument of the second half by what the result has at it gives the
/// argument of the first half at the same place.
pub proof fn found_vector_turns_second_into_first(args: Seq<Vec<i64>>, r: Seq<i64>, i: int)
    requires
        has_mapping(args),
        is_mapping(args, r),
        0 <= i < args.len() / 2,
    ensures
        args[i]@.len() == args[args.len() / 2 + i]@.len(),
        forall|p: int|
            0 <= p < args[i]@.len() ==> 0 <= (#[trigger] args[args.len() / 2 + i]@[p]) < r.len()
                && r[args[args.len() / 2 + i]@[p] as int] == args[i]@[p],
{
    let h = (args.len() / 2) as int;
    let second = second_half(args)[i];
    let first = first_half(args)[i];
    assert(second == args[h + i] && first == args[i]);
    assert(first@.len() == second@.len());
    crate::sort::laws::find_mapping_renames_second_to_first(args, r, i);
    assert forall|p: int| 0 <= p < args[i]@.len() implies 0 <= (#[trigger] args[h + i]@[p])
        < r.len() && r[args[h + i]@[p] as int] == args[i]@[p] by {
        assert(0 <= second@[p] < r.len());
        assert(applied(second@, r)[p] == first@[p]);
    }
}

/// `find-mapping` on vectors only succeeds where each two paired arguments have the
/// same length and repeat their items at the same places, within one argument and
/// across arguments.
pub proof fn paired_vectors_alias_alike(args: Seq<Vec<i64>>, i: int, p: int, j: int, q: int)
    requires
        has_mapping(args),
        0 <= i < args.len() / 2,
        0 <= j < args.len() / 2,
        0 <= p < args[i]@.len(),
        0 <= q < args[j]@.len(),
    ensures
        args[i]@.len() == args[args.len() / 2 + i]@.len(),
        args[j]@.len() == args[args.len() / 2 + j]@.len(),
        args[i]@[p] == args[j]@[q] <==> args[args.len() / 2 + i]@[p] == args[args.len() / 2
            + j]@[q],
{
    let h = (args.len() / 2) as int;
    let first = first_half(args);
    let second = second_half(args);
    assert(first[i] == args[i] && second[i] == args[h + i]);
    assert(first[j] == args[j] && second[j] == args[h + j]);
    assert(first[i]@.len() == second[i]@.len() && first[j]@.len() == second[j]@.len());
    same_offsets(args, i);
    same_offsets(args, j);
    crate::sort::laws::joined_at(first, i);
    crate::sort::laws::joined_at(second, i);
    crate::sort::laws::joined_at(first, j);
    crate::sort::laws::joined_at(second, j);
    let x = joined(first.take(i)).len() + p;
    let y = joined(first.take(j)).len() + q;
    assert(joined(first)[x] == first[i]@[p] && joined(first)[y] == first[j]@[q]);
    assert(joined(second)[x] == second[i]@[p] && joined(second)[y] == second[j]@[q]);
}

/// The items of paired arguments stand at the same places of the two halves.
proof fn same_offsets(args: Seq<Vec<i64>>, i: int)
    requires
        has_mapping(args),
        0 <= i < args.len() / 2,
    ensures
        joined(first_half(args).take(i)).len() == joined(second_half(args).take(i)).len(),
{
    let first = first_half(args);
    let second = second_half(args);
    assert forall|j: int| 0 <= j < i implies (#[trigger] first.take(i)[j])@.len() == second.take(
        i,
    )[j]@.len() by {
        assert(first[j]@.len() == second[j]@.len());
    }
    crate::sort::vec::joined_lengths(first.take(i), second.take(i));
}

/// The halves of the arguments of `find-mapping` on vectors, and their items, one
/// vector after the other.
pub proof fn halves_are_read_in_order(args: Seq<Vec<i64>>, last: Vec<i64>, i: int)
    requires
        0 <= i < args.len() / 2,
    ensures
        first_half(args).len() == args.len() / 2 && second_half(args).len() == args.len() / 2,
        first_half(args)[i] == args[i],
        second_half(args)[i] == args[args.len() / 2 + i],
        joined(Seq::empty()) == Seq::<i64>::empty(),
        joined(args.push(last)) == joined(args) + last@,
{
    assert(args.push(last).drop_last() =~= args);
}

/// `apply-mapping` replaces each item by what the mapping has at it.
pub proof fn applying_replaces_each_item(map: Seq<i64>, mapping: Seq<i64>, i: int)
    requires
        all_mapped(map, mapping),
        0 <= i < map.len(),
    ensures
        applied(map, mapping).len() == map.len(),
        0 <= map[i] < mapping.len(),
        applied(map, mapping)[i] == mapping[map[i] as int],
{
}

// ---------------------------------------------------------------------------
// Shapes
// ---------------------------------------------------------------------------
/// `shape2` reads the maps one after the other, and each of them by increasing
/// slot.
pub proof fn slots_are_read_in_order(
    args: Seq<Option<SlotMap>>,
    last: SlotMap,
    entries: Seq<(i64, Value)>,
)
    requires
        last.wf(),
        forall|i: int, j: int|
            0 <= i < j < entries.len() ==> (#[trigger] entries[i]).0 < (#[trigger] entries[j]).0,
        forall|i: int|
            0 <= i < entries.len() ==> exists|j: int|
                0 <= j < last.slots@.len() && (#[trigger] entries[i]) == (
                #[trigger] last.slots@[j], entries_of(last.map.data@)[j].1),
        forall|j: int|
            0 <= j < last.slots@.len() ==> exists|i: int|
                0 <= i < entries.len() && (#[trigger] entries[i]).0 == #[trigger] last.slots@[j],
    ensures
        slot_values(Seq::empty()) == Seq::<Value>::empty(),
        slot_values(args.push(Some(last))) == slot_values(args) + entries.map_values(
            |e: (i64, Value)| e.1,
        ),
{
    let m = last.by_slots();
    let slots = last.slots@;
    assert forall|j: int| 0 <= j < slots.len() implies m.contains_key(#[trigger] slots[j])
        && m[slots[j]] == entries_of(last.map.data@)[j].1 by {
        assert(slots.contains(slots[j]));
        assert(slots.index_of(slots[j]) == j);
    }
    assert forall|i: int| 0 <= i < entries.len() implies m.contains_key((#[trigger] entries[i]).0)
        && m[entries[i].0] == entries[i].1 by {
        let j = choose|j: int|
            0 <= j < slots.len() && entries[i] == (
            #[trigger] slots[j], entries_of(last.map.data@)[j].1);
        assert(m.contains_key(slots[j]));
    }
    assert forall|k: i64| #[trigger] m.contains_key(k) implies entries.contains((k, m[k])) by {
        let j = slots.index_of(k);
        assert(slots[j] == k);
        let i = choose|i: int| 0 <= i < entries.len() && (#[trigger] entries[i]).0 == slots[j];
        assert(entries[i] == (k, m[k]));
    }
    assert forall|i: int, j: int| 0 <= i < j < entries.len() implies by_slot()(
        (#[trigger] entries[i]).0,
    ) < by_slot()((#[trigger] entries[j]).0) by {}
    assert(is_ordered(entries, m, by_slot()));
    ordered_is(entries, m, by_slot());
    assert(args.push(Some(last)).drop_last() =~= args);
}

/// A numbering numbers exactly the items, each by its number in the shape.
pub proof fn numbering_gives_the_shape(m: Map<Value, i64>, s: Seq<Value>, i: int)
    requires
        is_numbering(m, s),
        0 <= i < s.len(),
    ensures
        m.contains_key(s[i]) && m[s[i]] == shape_of(s)[i],
        forall|v: Value| #[trigger] m.contains_key(v) ==> s.contains(v),
{
    assert(s.contains(s[i]));
    assert(m.contains_key(s[i]) == s.contains(s[i]));
}

/// The items of vectors are read one vector after the other.
pub proof fn vectors_are_read_in_order(xs: Seq<VecContainer>, last: VecContainer)
    ensures
        appended(Seq::empty()) == Seq::<Value>::empty(),
        appended(xs.push(last)) == appended(xs) + last.data@,
{
    assert(xs.push(last).drop_last() =~= xs);
}

// ---------------------------------------------------------------------------
// Vectors
// ---------------------------------------------------------------------------
/// The results of a function that there are, in order.
pub proof fn defined_results_are_kept(results: Seq<Option<Value>>)
    ensures
        defined(results) == results.filter(|r: Option<Value>| r is Some).map_values(
            |r: Option<Value>| r->0,
        ),
    decreases results.len(),
{
    reveal(Seq::filter);
    let p = |r: Option<Value>| r is Some;
    let f = |r: Option<Value>| r->0;
    if results.len() > 0 {
        defined_results_are_kept(results.drop_last());
        assert(results.filter(p).map_values(f) =~= defined(results));
    } else {
        assert(results.filter(p).map_values(f) =~= Seq::empty());
    }
}

/// `vec-union` pairs the items of two vectors of one length, place by place.
pub proof fn united_items_stand_at_one_place(left: Seq<Value>, right: Seq<Value>, i: int)
    requires
        left.len() == right.len(),
        0 <= i < left.len(),
    ensures
        paired(left, right).len() == left.len(),
        paired(left, right)[i].0 == left[i] && paired(left, right)[i].1 == right[i],
{
}

/// `vec-range` counts up to an end that is an index, and no further than zero for
/// another.
pub proof fn ranges_end_at_indices(end: i64)
    ensures
        end < 0 ==> range_end(end) == 0,
        0 <= end <= usize::MAX ==> range_end(end) == end,
        end > usize::MAX ==> range_end(end) == 0,
{
}

// ---------------------------------------------------------------------------
// Rebuilding
// ---------------------------------------------------------------------------
/// A value is rebuilt to its leader, if it has one, and stays otherwise.
pub proof fn values_become_their_leaders(rebuilder: Rebuilder, v: Value, values: Seq<Value>)
    ensures
        rebuilder.leaders@.contains_key(v) ==> rebuilder.rebuilt(v) == rebuilder.leaders@[v],
        !rebuilder.leaders@.contains_key(v) ==> rebuilder.rebuilt(v) == v,
        rebuilder.all_rebuilt(values) == values.map_values(|x: Value| rebuilder.rebuilt(x)),
{
    assert(rebuilder.all_rebuilt(values) =~= values.map_values(|x: Value| rebuilder.rebuilt(x)));
}

/// Rebuilding keys loses no key, adds none and keeps the values; where several keys
/// become one, the greatest of them gives its value.
pub proof fn keys_become_their_leaders(m: Renaming, rebuilder: Rebuilder, k: Value)
    ensures
        m.contains_key(k) ==> keys_rebuilt(m, rebuilder).contains_key(rebuilder.rebuilt(k)),
        keys_rebuilt(m, rebuilder).contains_key(k) ==> exists|old_key: Value| #[trigger]
            m.contains_key(old_key) && rebuilder.rebuilt(old_key) == k && keys_rebuilt(
                m,
                rebuilder,
            )[k] == m[old_key] && forall|other: Value| #[trigger]
                m.contains_key(other) && rebuilder.rebuilt(other) == k ==> other <= old_key,
        some_key_changes(m, rebuilder) <==> exists|key: Value| #[trigger]
            m.contains_key(key) && rebuilder.rebuilt(key) != key,
        !some_key_changes(m, rebuilder) ==> keys_rebuilt(m, rebuilder) == m,
{
    let out = keys_rebuilt(m, rebuilder);
    assert forall|key: Value| #[trigger] out.contains_key(key) implies is_greatest_key(
        m,
        rebuilt_to(rebuilder, key),
        greatest_key(m, rebuilt_to(rebuilder, key)),
    ) by {
        let any = choose|o: Value| #[trigger] m.contains_key(o) && rebuilder.rebuilt(o) == key;
        let top = greatest_rebuilt(m, rebuilder, key, any);
        assert(is_greatest_key(m, rebuilt_to(rebuilder, key), top));
    }
    if out.contains_key(k) {
        let p = rebuilt_to(rebuilder, k);
        let top = greatest_key(m, p);
        assert(is_greatest_key(m, p, top));
        assert forall|other: Value| #[trigger] m.contains_key(other) && rebuilder.rebuilt(other)
            == k implies other <= top by {
            assert(p(other));
        }
        assert(m.contains_key(top) && rebuilder.rebuilt(top) == k && out[k] == m[top]);
    }
    if !some_key_changes(m, rebuilder) {
        assert forall|key: Value| #[trigger] out.contains_key(key) == m.contains_key(key) && (
        m.contains_key(key) ==> out[key] == m[key]) by {
            if m.contains_key(key) {
                assert(rebuilder.rebuilt(key) == key);
                let p = rebuilt_to(rebuilder, key);
                assert forall|other: Value| m.contains_key(other) && #[trigger] p(
                    other,
                ) implies other <= key by {
                    assert(rebuilder.rebuilt(other) == other);
                }
                assert(is_greatest_key(m, p, key));
                crate::sort::renaming::greatest_key_is(m, p, key);
            }
            if out.contains_key(key) {
                let o = choose|o: Value| #[trigger]
                    m.contains_key(o) && rebuilder.rebuilt(o) == key;
                assert(rebuilder.rebuilt(o) == o);
            }
        }
        assert(out =~= m);
    }
}

/// A greatest key that is rebuilt to `new`, searched upwards from one.
proof fn greatest_rebuilt(m: Renaming, rebuilder: Rebuilder, new: Value, k: Value) -> (top: Value)
    requires
        m.contains_key(k),
        rebuilder.rebuilt(k) == new,
    ensures
        is_greatest_key(m, rebuilt_to(rebuilder, new), top),
    decreases u32::MAX - k,
{
    let p = rebuilt_to(rebuilder, new);
    if exists|o: Value| #[trigger] m.contains_key(o) && rebuilder.rebuilt(o) == new && o > k {
        let o = choose|o: Value| #[trigger]
            m.contains_key(o) && rebuilder.rebuilt(o) == new && o > k;
        greatest_rebuilt(m, rebuilder, new, o)
    } else {
        assert(is_greatest_key(m, p, k));
        k
    }
}

/// Rebuilding values keeps the keys and rebuilds the value of each.
pub proof fn map_values_become_their_leaders(m: Renaming, rebuilder: Rebuilder, k: Value)
    ensures
        vals_rebuilt(m, rebuilder).contains_key(k) <==> m.contains_key(k),
        m.contains_key(k) ==> vals_rebuilt(m, rebuilder)[k] == rebuilder.rebuilt(m[k]),
        some_value_changes(m, rebuilder) <==> exists|key: Value| #[trigger]
            m.contains_key(key) && rebuilder.rebuilt(m[key]) != m[key],
        !some_value_changes(m, rebuilder) ==> vals_rebuilt(m, rebuilder) == m,
{
    if !some_value_changes(m, rebuilder) {
        assert(vals_rebuilt(m, rebuilder) =~= m);
    }
}

/// Of a map only what follows the e-graph is rebuilt: first the keys, then the
/// values.
pub proof fn maps_are_rebuilt_as_far_as_they_follow(c: MapContainer, rebuilder: Rebuilder)
    ensures
        !c.do_rebuild_keys && !c.do_rebuild_vals ==> c.after_rebuild(rebuilder) == c.data@,
        c.do_rebuild_keys && !c.do_rebuild_vals ==> c.after_rebuild(rebuilder) == keys_rebuilt(
            c.data@,
            rebuilder,
        ),
        !c.do_rebuild_keys && c.do_rebuild_vals ==> c.after_rebuild(rebuilder) == vals_rebuilt(
            c.data@,
            rebuilder,
        ),
        c.do_rebuild_keys && c.do_rebuild_vals ==> c.after_rebuild(rebuilder) == vals_rebuilt(
            keys_rebuilt(c.data@, rebuilder),
            rebuilder,
        ),
        c.after_keys(rebuilder) == if c.do_rebuild_keys {
            keys_rebuilt(c.data@, rebuilder)
        } else {
            c.data@
        },
{
}

// ---------------------------------------------------------------------------
// What containers hold
// ---------------------------------------------------------------------------
/// The items of a map are each key, followed by its value.
pub proof fn keys_and_values_alternate(
    all: Seq<(Value, Value)>,
    key: ArcSort,
    value: ArcSort,
    i: int,
)
    requires
        0 <= i < all.len(),
    ensures
        flattened(all).len() == 2 * all.len(),
        flattened(all)[2 * i] == all[i].0,
        flattened(all)[2 * i + 1] == all[i].1,
        sorted_values(all, key, value).len() == 2 * all.len(),
        sorted_values(all, key, value)[2 * i] == (key, all[i].0),
        sorted_values(all, key, value)[2 * i + 1] == (value, all[i].1),
{
    assert((2 * i) / 2 == i && (2 * i + 1) / 2 == i);
}

/// A sort of maps or vectors holds e-classes exactly if one of the sorts of what
/// they hold has e-classes as values or holds some. The values of such sorts, and
/// e-classes, are what rebuilding may change.
pub proof fn containers_hold_what_their_parts_hold(sort: Sort)
    ensures
        sort matches Sort::MapSort(map) ==> (sort.holds_eq() <==> map.key.rebuilds()
            || map.value.rebuilds()),
        sort matches Sort::VecSort(vec) ==> (sort.holds_eq() <==> vec.element.rebuilds()),
        sort matches Sort::FunctionSort(f) ==> (sort.holds_eq() <==> f.holds_eq_values),
        sort matches Sort::OtherContainer(_, holds) ==> (sort.holds_eq() <==> holds),
        sort is EqSort ==> sort.rebuilds() && !sort.holds_eq(),
        sort is BaseSort ==> !sort.rebuilds(),
        !(sort is EqSort) ==> (sort.rebuilds() <==> sort.holds_eq()),
{
}

/// A name stands for the first sort that was declared with it.
pub proof fn the_first_sort_of_a_name_is_found(sorts: Seq<ArcSort>, name: Seq<char>)
    ensures
        sort_named(sorts, name) is None <==> forall|i: int|
            0 <= i < sorts.len() ==> (#[trigger] sorts[i]).sort_name() != name,
        sort_named(sorts, name) matches Some(sort) ==> exists|i: int|
            0 <= i < sorts.len() && #[trigger] sorts[i] == sort && sort.sort_name() == name
                && forall|j: int| 0 <= j < i ==> (#[trigger] sorts[j]).sort_name() != name,
    decreases sorts.len(),
{
    if sorts.len() > 0 {
        let rest = sorts.skip(1);
        the_first_sort_of_a_name_is_found(rest, name);
        if sorts[0].sort_name() == name {
            assert(sorts[0] == sort_named(sorts, name)->0);
        } else {
            assert forall|i: int| 1 <= i < sorts.len() implies #[trigger] sorts[i] == rest[i
                - 1] by {}
            if let Some(sort) = sort_named(sorts, name) {
                let i = choose|i: int|
                    0 <= i < rest.len() && #[trigger] rest[i] == sort && sort.sort_name() == name
                        && forall|j: int| 0 <= j < i ==> (#[trigger] rest[j]).sort_name() != name;
                assert(sorts[i + 1] == sort);
                assert forall|j: int| 0 <= j < i + 1 implies (#[trigger] sorts[j]).sort_name()
                    != name by {
                    if j > 0 {
                        assert(rest[j - 1].sort_name() != name);
                    }
                }
            } else {
                assert forall|i: int| 0 <= i < sorts.len() implies (
                #[trigger] sorts[i]).sort_name() != name by {
                    if i > 0 {
                        assert(rest[i - 1].sort_name() != name);
                    }
                }
            }
        }
    }
}

/// The sorts of functions among the declared sorts, in the order of declaration.
pub proof fn function_sorts_are_those_declared(sorts: Seq<ArcSort>)
    ensures
        function_sorts(sorts) == sorts.filter(
            |sort: ArcSort| (*sort) is FunctionSort,
        ).map_values(|sort: ArcSort| (*sort)->FunctionSort_0),
    decreases sorts.len(),
{
    reveal(Seq::filter);
    let p = |sort: ArcSort| (*sort) is FunctionSort;
    let f = |sort: ArcSort| (*sort)->FunctionSort_0;
    if sorts.len() > 0 {
        function_sorts_are_those_declared(sorts.drop_last());
        assert(sorts.filter(p).map_values(f) =~= function_sorts(sorts));
    } else {
        assert(sorts.filter(p).map_values(f) =~= Seq::empty());
    }
}

} // verus!
