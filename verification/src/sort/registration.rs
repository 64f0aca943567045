//! Which primitives a sort of maps or vectors brings.

use std::sync::Arc;
use vstd::prelude::*;

use crate::sort::map::{map_op_name, map_primitives, reserved_map_primitives, MapOp, MapSort};
use crate::sort::vec::{
    all_vec_maps_with, reserved_vec_primitives, vec_map_between, vec_maps_among, vec_maps_from,
    vec_maps_with, vec_op_name, vec_primitives, vec_sorts, Union, VecMap, VecOp, VecSort,
};
use crate::sort::{function_sorts, ArcSort, FunctionSort, Primitive, Sort};

verus! {

/// Whether a primitive is one of those that every sort of maps brings, besides the
/// operations on its maps.
pub open spec fn reads_maps_as_renamings(p: Primitive) -> bool {
    p is MapShape || p is MapInverse || p is MapCompose
}

/// A sort of maps brings each operation on its maps and each primitive on
/// renamings, and nothing for other sorts. It brings `find-mapping` exactly where
/// keys and values are integers.
pub proof fn map_sorts_bring_their_primitives(sort: MapSort, op: MapOp)
    ensures
        ({
            let all = map_primitives(sort);
            let slots = sort.key.sort_name() == "i64"@ && sort.value.sort_name() == "i64"@;
            &&& all.contains(Primitive::MapOp(op, sort))
            &&& all.contains(Primitive::MapShape(crate::sort::map::Shape {  }))
            &&& all.contains(Primitive::MapInverse(crate::sort::map::Inverse {  }))
            &&& all.contains(Primitive::MapCompose(crate::sort::map::Compose {  }))
            &&& slots <==> all.contains(
                Primitive::MapFindMapping(
                    crate::sort::map::FindMapping { sort: Arc::new(Sort::MapSort(sort)) },
                ),
            )
            &&& forall|p: Primitive| #[trigger]
                all.contains(p) ==> reads_maps_as_renamings(p) || (p matches Primitive::MapOp(_, s)
                    && s == sort) || (p matches Primitive::MapFindMapping(f) && *f.sort
                    == Sort::MapSort(sort))
            &&& all.len() == if slots {
                13int
            } else {
                12int
            }
        }),
{
    let all = map_primitives(sort);
    assert(all[0] == Primitive::MapOp(MapOp::Empty, sort));
    assert(all[1] == Primitive::MapOp(MapOp::Get, sort));
    assert(all[2] == Primitive::MapOp(MapOp::Insert, sort));
    assert(all[3] == Primitive::MapOp(MapOp::Remove, sort));
    assert(all[4] == Primitive::MapOp(MapOp::Length, sort));
    assert(all[5] == Primitive::MapOp(MapOp::Contains, sort));
    assert(all[6] == Primitive::MapOp(MapOp::NotContains, sort));
    assert(all[7] == Primitive::MapOp(MapOp::Inverse, sort));
    assert(all[8] == Primitive::MapOp(MapOp::Union, sort));
    assert(all[9] is MapShape && all[10] is MapInverse && all[11] is MapCompose);
    if sort.key.sort_name() == "i64"@ && sort.value.sort_name() == "i64"@ {
        assert(all[12] is MapFindMapping);
    }
}

/// The names of the operations on maps.
pub proof fn map_operations_have_their_names(op: MapOp)
    ensures
        map_op_name(op) == match op {
            MapOp::Empty => "map-empty"@,
            MapOp::Get => "map-get"@,
            MapOp::Insert => "map-insert"@,
            MapOp::Remove => "map-remove"@,
            MapOp::Length => "map-length"@,
            MapOp::Contains => "map-contains"@,
            MapOp::NotContains => "map-not-contains"@,
            MapOp::Inverse => "map-inverse"@,
            MapOp::Union => "map-union"@,
        },
{
}

/// A sort of maps reserves the names of its operations but `map-inverse` and
/// `map-union`, and no others.
pub proof fn map_sorts_reserve_their_names(op: MapOp, i: int)
    ensures
        reserved_map_primitives().len() == 7,
        !(op is Inverse) && !(op is Union) ==> reserved_map_primitives().contains(map_op_name(op)),
        0 <= i < 7 ==> exists|o: MapOp| reserved_map_primitives()[i] == #[trigger] map_op_name(o),
{
    let all = reserved_map_primitives();
    assert(all[0] == map_op_name(MapOp::Empty));
    assert(all[1] == map_op_name(MapOp::Insert));
    assert(all[2] == map_op_name(MapOp::Get));
    assert(all[3] == map_op_name(MapOp::NotContains));
    assert(all[4] == map_op_name(MapOp::Contains));
    assert(all[5] == map_op_name(MapOp::Remove));
    assert(all[6] == map_op_name(MapOp::Length));
}

/// A sort of vectors reserves the names of its operations, `vec-union` and
/// `unstable-vec-map`, and no others.
pub proof fn vec_sorts_reserve_their_names(op: VecOp, i: int)
    ensures
        reserved_vec_primitives().len() == 14,
        reserved_vec_primitives().contains(vec_op_name(op)),
        reserved_vec_primitives().contains("vec-union"@),
        reserved_vec_primitives().contains("unstable-vec-map"@),
        0 <= i < 14 ==> reserved_vec_primitives()[i] == "vec-union"@ || reserved_vec_primitives()[i]
            == "unstable-vec-map"@ || exists|o: VecOp|
            reserved_vec_primitives()[i] == #[trigger] vec_op_name(o),
{
    let all = reserved_vec_primitives();
    assert(all[0] == vec_op_name(VecOp::Of));
    assert(all[1] == vec_op_name(VecOp::Append));
    assert(all[2] == vec_op_name(VecOp::Empty));
    assert(all[3] == vec_op_name(VecOp::Push));
    assert(all[4] == vec_op_name(VecOp::Pop));
    assert(all[5] == vec_op_name(VecOp::NotContains));
    assert(all[6] == vec_op_name(VecOp::Contains));
    assert(all[7] == vec_op_name(VecOp::Length));
    assert(all[8] == vec_op_name(VecOp::Get));
    assert(all[9] == vec_op_name(VecOp::Put));
    assert(all[10] == vec_op_name(VecOp::Remove));
    assert(all[11] == "vec-union"@);
    assert(all[12] == vec_op_name(VecOp::Range));
    assert(all[13] == "unstable-vec-map"@);
}

/// The names of the operations on vectors.
pub proof fn vec_operations_have_their_names(op: VecOp)
    ensures
        vec_op_name(op) == match op {
            VecOp::Empty => "vec-empty"@,
            VecOp::Of => "vec-of"@,
            VecOp::Append => "vec-append"@,
            VecOp::Push => "vec-push"@,
            VecOp::Pop => "vec-pop"@,
            VecOp::Length => "vec-length"@,
            VecOp::Contains => "vec-contains"@,
            VecOp::NotContains => "vec-not-contains"@,
            VecOp::Get => "vec-get"@,
            VecOp::Put => "vec-set"@,
            VecOp::Remove => "vec-remove"@,
            VecOp::Range => "vec-range"@,
        },
{
}

/// Whether a function takes one item of a sort of vectors and gives an item of
/// another.
pub open spec fn takes_items_to_items(f: Arc<FunctionSort>, from: ArcSort, to: ArcSort) -> bool {
    &&& f.inputs@.len() == 1
    &&& (*from) matches Sort::VecSort(a) && f.inputs@[0].sort_name() == a.element.sort_name()
    &&& (*to) matches Sort::VecSort(b) && f.output.sort_name() == b.element.sort_name()
}

/// The primitive that maps a function from one sort of vectors to another.
pub open spec fn mapping(f: Arc<FunctionSort>, from: ArcSort, to: ArcSort) -> Primitive {
    Primitive::VecMap(VecMap { vec: from, output_vec: to, fn_: f })
}

/// Whether the items of a sort of vectors are e-classes.
pub open spec fn holds_classes(sort: VecSort) -> bool {
    (*sort.element) is EqSort
}

/// What is in the lists of primitives that are put together.
proof fn in_both<T>(a: Seq<T>, b: Seq<T>, x: T)
    ensures
        (a + b).contains(x) <==> a.contains(x) || b.contains(x),
{
    if a.contains(x) {
        assert((a + b)[a.index_of(x)] == x);
    }
    if b.contains(x) {
        assert((a + b)[a.len() + b.index_of(x)] == x);
    }
    if (a + b).contains(x) {
        let i = (a + b).index_of(x);
        if i < a.len() {
            assert(a[i] == x);
        } else {
            assert(b[i - a.len()] == x);
        }
    }
}

/// A function is mapped between two sorts of vectors exactly if it fits.
proof fn in_vec_map_between(f: Arc<FunctionSort>, from: ArcSort, to: ArcSort, p: Primitive)
    requires
        (*from) is VecSort,
        (*to) is VecSort,
    ensures
        vec_map_between(f, from, to).contains(p) <==> takes_items_to_items(f, from, to) && p
            == mapping(f, from, to),
{
    let s = vec_map_between(f, from, to);
    if takes_items_to_items(f, from, to) {
        assert(s[0] == mapping(f, from, to));
    }
}

/// The primitives that map one function between a sort of vectors and others.
proof fn in_vec_maps_with(f: Arc<FunctionSort>, vecs: Seq<ArcSort>, vec: ArcSort, p: Primitive)
    requires
        (*vec) is VecSort,
        forall|i: int| 0 <= i < vecs.len() ==> (*(#[trigger] vecs[i])) is VecSort,
    ensures
        vec_maps_with(f, vecs, vec).contains(p) <==> exists|i: int|
            0 <= i < vecs.len() && maps_one_way(f, #[trigger] vecs[i], vec, p),
    decreases vecs.len(),
{
    if vecs.len() > 0 {
        let rest = vecs.drop_last();
        let other = vecs.last();
        assert forall|i: int| 0 <= i < rest.len() implies (*(#[trigger] rest[i])) is VecSort by {
            assert(rest[i] == vecs[i]);
        }
        in_vec_maps_with(f, rest, vec, p);
        assert((*vecs[vecs.len() - 1]) is VecSort);
        in_vec_map_between(f, other, vec, p);
        in_vec_map_between(f, vec, other, p);
        let front = vec_maps_with(f, rest, vec);
        let a = vec_map_between(f, other, vec);
        let b = if other.sort_name() != vec.sort_name() {
            vec_map_between(f, vec, other)
        } else {
            seq![]
        };
        in_both(front, a, p);
        in_both(front + a, b, p);
        if exists|i: int| 0 <= i < rest.len() && maps_one_way(f, #[trigger] rest[i], vec, p) {
            let i = choose|i: int|
                0 <= i < rest.len() && maps_one_way(f, #[trigger] rest[i], vec, p);
            assert(maps_one_way(f, vecs[i], vec, p));
        }
        if exists|i: int| 0 <= i < vecs.len() && maps_one_way(f, #[trigger] vecs[i], vec, p) {
            let i = choose|i: int|
                0 <= i < vecs.len() && maps_one_way(f, #[trigger] vecs[i], vec, p);
            if i < rest.len() {
                assert(maps_one_way(f, rest[i], vec, p));
            }
        }
        if maps_one_way(f, other, vec, p) {
            assert(maps_one_way(f, vecs[vecs.len() - 1], vec, p));
        }
    }
}

/// Whether a primitive maps a function from another sort of vectors to this one, or
/// from this one to another of a different name.
pub open spec fn maps_one_way(
    f: Arc<FunctionSort>,
    other: ArcSort,
    vec: ArcSort,
    p: Primitive,
) -> bool {
    ||| takes_items_to_items(f, other, vec) && p == mapping(f, other, vec)
    ||| other.sort_name() != vec.sort_name() && takes_items_to_items(f, vec, other) && p
        == mapping(f, vec, other)
}

/// The same for several functions.
proof fn in_all_vec_maps_with(
    fns: Seq<Arc<FunctionSort>>,
    vecs: Seq<ArcSort>,
    vec: ArcSort,
    p: Primitive,
)
    requires
        (*vec) is VecSort,
        forall|i: int| 0 <= i < vecs.len() ==> (*(#[trigger] vecs[i])) is VecSort,
    ensures
        all_vec_maps_with(fns, vecs, vec).contains(p) <==> exists|j: int, i: int|
            0 <= j < fns.len() && 0 <= i < vecs.len() && #[trigger] maps_one_way(
                fns[j],
                vecs[i],
                vec,
                p,
            ),
    decreases fns.len(),
{
    if fns.len() > 0 {
        let rest = fns.drop_last();
        in_all_vec_maps_with(rest, vecs, vec, p);
        in_vec_maps_with(fns.last(), vecs, vec, p);
        in_both(all_vec_maps_with(rest, vecs, vec), vec_maps_with(fns.last(), vecs, vec), p);
        if exists|j: int, i: int|
            0 <= j < rest.len() && 0 <= i < vecs.len() && #[trigger] maps_one_way(
                rest[j],
                vecs[i],
                vec,
                p,
            ) {
            let (j, i) = choose|j: int, i: int|
                0 <= j < rest.len() && 0 <= i < vecs.len() && #[trigger] maps_one_way(
                    rest[j],
                    vecs[i],
                    vec,
                    p,
                );
            assert(maps_one_way(fns[j], vecs[i], vec, p));
        }
        if exists|i: int|
            0 <= i < vecs.len() && maps_one_way(fns.last(), #[trigger] vecs[i], vec, p) {
            let i = choose|i: int|
                0 <= i < vecs.len() && maps_one_way(fns.last(), #[trigger] vecs[i], vec, p);
            assert(maps_one_way(fns[fns.len() - 1], vecs[i], vec, p));
        }
        if exists|j: int, i: int|
            0 <= j < fns.len() && 0 <= i < vecs.len() && #[trigger] maps_one_way(
                fns[j],
                vecs[i],
                vec,
                p,
            ) {
            let (j, i) = choose|j: int, i: int|
                0 <= j < fns.len() && 0 <= i < vecs.len() && #[trigger] maps_one_way(
                    fns[j],
                    vecs[i],
                    vec,
                    p,
                );
            if j < rest.len() {
                assert(maps_one_way(rest[j], vecs[i], vec, p));
            } else {
                assert(maps_one_way(fns.last(), vecs[i], vec, p));
            }
        }
    }
}

/// The declared sorts of vectors are sorts of vectors.
proof fn vec_sorts_are_vec_sorts(sorts: Seq<ArcSort>)
    ensures
        forall|i: int|
            0 <= i < vec_sorts(sorts).len() ==> (*(#[trigger] vec_sorts(sorts)[i])) is VecSort,
        forall|sort: ArcSort| #[trigger]
            vec_sorts(sorts).contains(sort) <==> sorts.contains(sort) && (*sort) is VecSort,
{
    let is_vec = |sort: ArcSort| (*sort) is VecSort;
    broadcast use vstd::seq_lib::group_filter_ensures;

    let all = vec_sorts(sorts);
    assert forall|i: int| 0 <= i < all.len() implies (*(#[trigger] all[i])) is VecSort by {
        assert(is_vec(sorts.filter(is_vec)[i]));
    }
    assert forall|sort: ArcSort| #[trigger] all.contains(sort) <==> sorts.contains(sort) && (
    *sort) is VecSort by {
        filtered_are_there(sorts, is_vec, sort);
    }
}

/// What is left of a list after filtering was there before.
proof fn filtered_are_there<T>(s: Seq<T>, p: spec_fn(T) -> bool, x: T)
    ensures
        s.filter(p).contains(x) <==> s.contains(x) && p(x),
    decreases s.len(),
{
    reveal(Seq::filter);
    if s.len() > 0 {
        let rest = s.drop_last();
        filtered_are_there(rest, p, x);
        let out = s.filter(p);
        let before = rest.filter(p);
        assert(s.contains(x) <==> rest.contains(x) || s.last() == x) by {
            if s.contains(x) {
                let i = s.index_of(x);
                if i < rest.len() {
                    assert(rest[i] == x);
                }
            }
            if rest.contains(x) {
                assert(s[rest.index_of(x)] == x);
            }
            assert(s[s.len() - 1] == s.last());
        }
        if before.contains(x) {
            assert(out[before.index_of(x)] == x);
        }
        if p(s.last()) {
            assert(out[before.len() as int] == s.last());
        }
        if out.contains(x) {
            let i = out.index_of(x);
            if i < before.len() {
                assert(before[i] == x);
            }
        }
    }
}

/// A sort of vectors brings each operation on its vectors, `vec-range` exactly for
/// vectors of integers and `vec-union` exactly for vectors of e-classes, and the
/// primitives on renamings. It maps each declared function between itself and each
/// declared sort of vectors that the function fits, in both directions, and maps
/// nothing else.
pub proof fn vec_sorts_bring_their_primitives(
    sort: VecSort,
    sorts: Seq<ArcSort>,
    op: VecOp,
    p: Primitive,
)
    ensures
        ({
            let all = vec_primitives(sort, sorts);
            let vec = Arc::new(Sort::VecSort(sort));
            &&& all.contains(Primitive::VecOp(op, sort)) <==> !(op is Range)
                || sort.element.sort_name() == "i64"@
            &&& all.contains(Primitive::VecUnion(Union { vec })) <==> holds_classes(sort)
            &&& all.contains(Primitive::VecShape(crate::sort::vec::Shape {  }))
            &&& all.contains(Primitive::VecFindMapping(crate::sort::vec::FindMapping {  }))
            &&& all.contains(Primitive::VecApplyMapping(crate::sort::vec::ApplyMapping {  }))
            &&& p is VecMap ==> (all.contains(p) <==> exists|j: int, i: int|
                0 <= j < function_sorts(sorts).len() && 0 <= i < vec_sorts(sorts).len()
                    && #[trigger] maps_one_way(
                    function_sorts(sorts)[j],
                    vec_sorts(sorts)[i],
                    vec,
                    p,
                ))
            &&& all.contains(p) ==> p is VecMap || p is VecShape || p is VecFindMapping
                || p is VecApplyMapping || (p matches Primitive::VecOp(_, s) && s == sort) || (
            p matches Primitive::VecUnion(u) && u.vec == vec)
        }),
{
    let vec = Arc::new(Sort::VecSort(sort));
    let ops = seq![
        Primitive::VecOp(VecOp::Empty, sort),
        Primitive::VecOp(VecOp::Of, sort),
        Primitive::VecOp(VecOp::Append, sort),
        Primitive::VecOp(VecOp::Push, sort),
        Primitive::VecOp(VecOp::Pop, sort),
        Primitive::VecOp(VecOp::Length, sort),
        Primitive::VecOp(VecOp::Contains, sort),
        Primitive::VecOp(VecOp::NotContains, sort),
        Primitive::VecOp(VecOp::Get, sort),
        Primitive::VecOp(VecOp::Put, sort),
        Primitive::VecOp(VecOp::Remove, sort),
    ];
    let union = if holds_classes(sort) {
        seq![Primitive::VecUnion(Union { vec })]
    } else {
        seq![]
    };
    let range = if sort.element.sort_name() == "i64"@ {
        seq![Primitive::VecOp(VecOp::Range, sort)]
    } else {
        seq![]
    };
    let fns = function_sorts(sorts);
    let vecs = vec_sorts(sorts);
    let maps = all_vec_maps_with(fns, vecs, vec);
    let last = seq![
        Primitive::VecShape(crate::sort::vec::Shape {  }),
        Primitive::VecFindMapping(crate::sort::vec::FindMapping {  }),
        Primitive::VecApplyMapping(crate::sort::vec::ApplyMapping {  }),
    ];
    vec_sorts_are_vec_sorts(sorts);
    assert forall|q: Primitive| vec_primitives(sort, sorts).contains(q) <==> ops.contains(q)
        || union.contains(q) || range.contains(q) || maps.contains(q) || last.contains(q) by {
        in_both(ops, union, q);
        in_both(ops + union, range, q);
        in_both(ops + union + range, maps, q);
        in_both(ops + union + range + maps, last, q);
    }
    assert forall|q: Primitive| maps.contains(q) implies q is VecMap by {
        in_all_vec_maps_with(fns, vecs, vec, q);
    }
    in_all_vec_maps_with(fns, vecs, vec, p);
    listed_ops(sort, ops, op);
    assert(last[0] is VecShape && last[1] is VecFindMapping && last[2] is VecApplyMapping);
    if holds_classes(sort) {
        assert(union[0] == Primitive::VecUnion(Union { vec }));
    }
    if sort.element.sort_name() == "i64"@ {
        assert(range[0] == Primitive::VecOp(VecOp::Range, sort));
    }
    let all = vec_primitives(sort, sorts);
    assert(forall|q: Primitive| #[trigger]
        ops.contains(q) ==> (q matches Primitive::VecOp(_, s) && s == sort));
    assert(forall|q: Primitive| #[trigger] last.contains(q) ==> q is VecShape
        || q is VecFindMapping || q is VecApplyMapping);
    assert(forall|q: Primitive| #[trigger]
        union.contains(q) ==> holds_classes(sort) && q == Primitive::VecUnion(Union { vec }));
    assert(forall|q: Primitive| #[trigger]
        range.contains(q) ==> sort.element.sort_name() == "i64"@ && q == Primitive::VecOp(
            VecOp::Range,
            sort,
        ));
    assert(all.contains(Primitive::VecOp(op, sort)) <==> !(op is Range)
        || sort.element.sort_name() == "i64"@);
    let united = Primitive::VecUnion(Union { vec });
    assert(union.contains(united) <==> holds_classes(sort));
    assert(!maps.contains(united));
    assert(all.contains(united) <==> holds_classes(sort));
    assert(last.contains(last[0]) && last.contains(last[1]) && last.contains(last[2]));
    assert(p is VecMap ==> (all.contains(p) <==> maps.contains(p)));
    assert(all.contains(p) ==> p is VecMap || p is VecShape || p is VecFindMapping
        || p is VecApplyMapping || (p matches Primitive::VecOp(_, s) && s == sort) || (
    p matches Primitive::VecUnion(u) && u.vec == vec));
}

/// All operations on vectors but one are listed.
proof fn listed_ops(sort: VecSort, ops: Seq<Primitive>, op: VecOp)
    requires
        ops == seq![
            Primitive::VecOp(VecOp::Empty, sort),
            Primitive::VecOp(VecOp::Of, sort),
            Primitive::VecOp(VecOp::Append, sort),
            Primitive::VecOp(VecOp::Push, sort),
            Primitive::VecOp(VecOp::Pop, sort),
            Primitive::VecOp(VecOp::Length, sort),
            Primitive::VecOp(VecOp::Contains, sort),
            Primitive::VecOp(VecOp::NotContains, sort),
            Primitive::VecOp(VecOp::Get, sort),
            Primitive::VecOp(VecOp::Put, sort),
            Primitive::VecOp(VecOp::Remove, sort),
        ],
    ensures
        ops.contains(Primitive::VecOp(op, sort)) <==> !(op is Range),
{
    let p = Primitive::VecOp(op, sort);
    match op {
        VecOp::Empty => assert(ops[0] == p),
        VecOp::Of => assert(ops[1] == p),
        VecOp::Append => assert(ops[2] == p),
        VecOp::Push => assert(ops[3] == p),
        VecOp::Pop => assert(ops[4] == p),
        VecOp::Length => assert(ops[5] == p),
        VecOp::Contains => assert(ops[6] == p),
        VecOp::NotContains => assert(ops[7] == p),
        VecOp::Get => assert(ops[8] == p),
        VecOp::Put => assert(ops[9] == p),
        VecOp::Remove => assert(ops[10] == p),
        VecOp::Range => {},
    }
}

/// Declaring a function maps it from every declared sort of vectors to every other
/// that it fits, and maps nothing else.
pub proof fn functions_are_mapped_among_all_vectors(
    f: Arc<FunctionSort>,
    sorts: Seq<ArcSort>,
    p: Primitive,
)
    ensures
        vec_maps_among(f, vec_sorts(sorts), vec_sorts(sorts)).contains(p) <==> exists|
            from: ArcSort,
            to: ArcSort,
        |
            sorts.contains(from) && sorts.contains(to) && #[trigger] takes_items_to_items(
                f,
                from,
                to,
            ) && p == mapping(f, from, to),
{
    let vecs = vec_sorts(sorts);
    vec_sorts_are_vec_sorts(sorts);
    in_vec_maps_among(f, vecs, vecs, p);
    if vec_maps_among(f, vecs, vecs).contains(p) {
        let (i, j) = choose|i: int, j: int|
            0 <= i < vecs.len() && 0 <= j < vecs.len() && #[trigger] takes_items_to_items(
                f,
                vecs[i],
                vecs[j],
            ) && p == mapping(f, vecs[i], vecs[j]);
        assert(vecs.contains(vecs[i]) && vecs.contains(vecs[j]));
        assert(takes_items_to_items(f, vecs[i], vecs[j]));
    }
    if exists|from: ArcSort, to: ArcSort|
        sorts.contains(from) && sorts.contains(to) && #[trigger] takes_items_to_items(f, from, to)
            && p == mapping(f, from, to) {
        let (from, to) = choose|from: ArcSort, to: ArcSort|
            sorts.contains(from) && sorts.contains(to) && #[trigger] takes_items_to_items(
                f,
                from,
                to,
            ) && p == mapping(f, from, to);
        assert(vecs.contains(from) && vecs.contains(to));
        let i = vecs.index_of(from);
        let j = vecs.index_of(to);
        assert(takes_items_to_items(f, vecs[i], vecs[j]));
    }
}

/// The primitives that map a function from one sort of vectors to others.
proof fn in_vec_maps_from(f: Arc<FunctionSort>, from: ArcSort, vecs: Seq<ArcSort>, p: Primitive)
    requires
        (*from) is VecSort,
        forall|i: int| 0 <= i < vecs.len() ==> (*(#[trigger] vecs[i])) is VecSort,
    ensures
        vec_maps_from(f, from, vecs).contains(p) <==> exists|j: int|
            0 <= j < vecs.len() && #[trigger] takes_items_to_items(f, from, vecs[j]) && p
                == mapping(f, from, vecs[j]),
    decreases vecs.len(),
{
    if vecs.len() > 0 {
        let rest = vecs.drop_last();
        assert forall|i: int| 0 <= i < rest.len() implies (*(#[trigger] rest[i])) is VecSort by {
            assert(rest[i] == vecs[i]);
        }
        in_vec_maps_from(f, from, rest, p);
        assert((*vecs[vecs.len() - 1]) is VecSort);
        in_vec_map_between(f, from, vecs.last(), p);
        in_both(vec_maps_from(f, from, rest), vec_map_between(f, from, vecs.last()), p);
        if exists|j: int|
            0 <= j < rest.len() && #[trigger] takes_items_to_items(f, from, rest[j]) && p
                == mapping(f, from, rest[j]) {
            let j = choose|j: int|
                0 <= j < rest.len() && #[trigger] takes_items_to_items(f, from, rest[j]) && p
                    == mapping(f, from, rest[j]);
            assert(takes_items_to_items(f, from, vecs[j]));
        }
        if exists|j: int|
            0 <= j < vecs.len() && #[trigger] takes_items_to_items(f, from, vecs[j]) && p
                == mapping(f, from, vecs[j]) {
            let j = choose|j: int|
                0 <= j < vecs.len() && #[trigger] takes_items_to_items(f, from, vecs[j]) && p
                    == mapping(f, from, vecs[j]);
            if j < rest.len() {
                assert(takes_items_to_items(f, from, rest[j]));
            }
        }
        if takes_items_to_items(f, from, vecs.last()) && p == mapping(f, from, vecs.last()) {
            assert(takes_items_to_items(f, from, vecs[vecs.len() - 1]));
        }
    }
}

/// The primitives that map a function among sorts of vectors.
proof fn in_vec_maps_among(
    f: Arc<FunctionSort>,
    inputs: Seq<ArcSort>,
    vecs: Seq<ArcSort>,
    p: Primitive,
)
    requires
        forall|i: int| 0 <= i < inputs.len() ==> (*(#[trigger] inputs[i])) is VecSort,
        forall|i: int| 0 <= i < vecs.len() ==> (*(#[trigger] vecs[i])) is VecSort,
    ensures
        vec_maps_among(f, inputs, vecs).contains(p) <==> exists|i: int, j: int|
            0 <= i < inputs.len() && 0 <= j < vecs.len() && #[trigger] takes_items_to_items(
                f,
                inputs[i],
                vecs[j],
            ) && p == mapping(f, inputs[i], vecs[j]),
    decreases inputs.len(),
{
    if inputs.len() > 0 {
        let rest = inputs.drop_last();
        assert forall|i: int| 0 <= i < rest.len() implies (*(#[trigger] rest[i])) is VecSort by {
            assert(rest[i] == inputs[i]);
        }
        in_vec_maps_among(f, rest, vecs, p);
        assert((*inputs[inputs.len() - 1]) is VecSort);
        in_vec_maps_from(f, inputs.last(), vecs, p);
        in_both(vec_maps_among(f, rest, vecs), vec_maps_from(f, inputs.last(), vecs), p);
        if exists|i: int, j: int|
            0 <= i < rest.len() && 0 <= j < vecs.len() && #[trigger] takes_items_to_items(
                f,
                rest[i],
                vecs[j],
            ) && p == mapping(f, rest[i], vecs[j]) {
            let (i, j) = choose|i: int, j: int|
                0 <= i < rest.len() && 0 <= j < vecs.len() && #[trigger] takes_items_to_items(
                    f,
                    rest[i],
                    vecs[j],
                ) && p == mapping(f, rest[i], vecs[j]);
            assert(takes_items_to_items(f, inputs[i], vecs[j]));
        }
        if exists|j: int|
            0 <= j < vecs.len() && #[trigger] takes_items_to_items(f, inputs.last(), vecs[j]) && p
                == mapping(f, inputs.last(), vecs[j]) {
            let j = choose|j: int|
                0 <= j < vecs.len() && #[trigger] takes_items_to_items(f, inputs.last(), vecs[j])
                    && p == mapping(f, inputs.last(), vecs[j]);
            assert(takes_items_to_items(f, inputs[inputs.len() - 1], vecs[j]));
        }
        if exists|i: int, j: int|
            0 <= i < inputs.len() && 0 <= j < vecs.len() && #[trigger] takes_items_to_items(
                f,
                inputs[i],
                vecs[j],
            ) && p == mapping(f, inputs[i], vecs[j]) {
            let (i, j) = choose|i: int, j: int|
                0 <= i < inputs.len() && 0 <= j < vecs.len() && #[trigger] takes_items_to_items(
                    f,
                    inputs[i],
                    vecs[j],
                ) && p == mapping(f, inputs[i], vecs[j]);
            if i < rest.len() {
                assert(takes_items_to_items(f, rest[i], vecs[j]));
            } else {
                assert(takes_items_to_items(f, inputs.last(), vecs[j]));
            }
        }
    }
}

} // verus!
