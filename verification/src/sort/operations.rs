//! The primitives of one sort of maps or vectors, applied to their arguments:
//! which function each registered operation stands for.

use std::sync::Arc;
use vstd::prelude::*;

use crate::sort::map::{
    map_contains, map_get, map_insert, map_inverse, map_length, map_not_contains, map_op_inputs,
    map_op_output, map_op_partial, map_remove, map_union, MapContainer, MapOp, MapSort,
};
use crate::sort::renaming::{inverted, united, Renaming};
use crate::sort::vec::{
    appended, range_end, vec_contains, vec_get, vec_length, vec_not_contains, vec_op_inputs,
    vec_op_output, vec_pop, vec_push, vec_remove, vec_set, IntVec, VecContainer, VecOp, VecSort,
};
use crate::sort::{Operand, Sort, Value};

verus! {

// ---------------------------------------------------------------------------
// Maps
// ---------------------------------------------------------------------------
/// An argument or the result of a primitive on maps.
#[derive(Debug, PartialEq, Eq)]
pub enum MapDatum {
    /// A map.
    Container(MapContainer),
    /// A key or a value of a map.
    Value(Value),
    /// An integer.
    I64(i64),
    /// Nothing but that a test succeeded.
    Unit,
}

/// What an argument or the result of a primitive on maps holds.
pub enum MapDatumView {
    /// A map, with whether its keys and whether its values follow the e-graph.
    Container(bool, bool, Renaming),
    Value(Value),
    I64(i64),
    Unit,
}

impl View for MapDatum {
    type V = MapDatumView;

    open spec fn view(&self) -> MapDatumView {
        match *self {
            MapDatum::Container(map) => MapDatumView::Container(
                map.do_rebuild_keys,
                map.do_rebuild_vals,
                map.data@,
            ),
            MapDatum::Value(v) => MapDatumView::Value(v),
            MapDatum::I64(n) => MapDatumView::I64(n),
            MapDatum::Unit => MapDatumView::Unit,
        }
    }
}

/// What the arguments of a primitive on maps hold.
pub open spec fn map_data(args: Seq<MapDatum>) -> Seq<MapDatumView> {
    args.map_values(|arg: MapDatum| arg@)
}

/// Whether the arguments are as many and of the kinds as the operation takes.
pub open spec fn map_op_takes(op: MapOp, args: Seq<MapDatumView>) -> bool {
    match op {
        MapOp::Empty => args.len() == 0,
        MapOp::Get | MapOp::Remove | MapOp::Contains | MapOp::NotContains => args.len() == 2
            && args[0] is Container && args[1] is Value,
        MapOp::Insert => args.len() == 3 && args[0] is Container && args[1] is Value
            && args[2] is Value,
        MapOp::Length | MapOp::Inverse => args.len() == 1 && args[0] is Container,
        MapOp::Union => args.len() == 2 && args[0] is Container && args[1] is Container,
    }
}

/// What an operation on the maps of `sort` gives, if it gives anything.
pub open spec fn map_op_result(op: MapOp, sort: MapSort, args: Seq<MapDatumView>) -> Option<
    MapDatumView,
> {
    let keys = args[0]->Container_0;
    let vals = args[0]->Container_1;
    let xs = args[0]->Container_2;
    let x = args[1]->Value_0;
    match op {
        MapOp::Empty => Some(
            MapDatumView::Container(sort.key.rebuilds(), sort.value.rebuilds(), Map::empty()),
        ),
        MapOp::Get => if xs.contains_key(x) {
            Some(MapDatumView::Value(xs[x]))
        } else {
            None
        },
        MapOp::Insert => Some(
            MapDatumView::Container(keys, vals, xs.insert(x, args[2]->Value_0)),
        ),
        MapOp::Remove => Some(MapDatumView::Container(keys, vals, xs.remove(x))),
        MapOp::Length => Some(MapDatumView::I64(xs.len() as i64)),
        MapOp::Contains => if xs.contains_key(x) {
            Some(MapDatumView::Unit)
        } else {
            None
        },
        MapOp::NotContains => if xs.contains_key(x) {
            None
        } else {
            Some(MapDatumView::Unit)
        },
        MapOp::Inverse => Some(MapDatumView::Container(vals, keys, inverted(xs))),
        MapOp::Union => match united(xs, args[1]->Container_2) {
            Some(both) => Some(MapDatumView::Container(keys, vals, both)),
            None => None,
        },
    }
}

/// The map among the arguments at index `i`.
fn map_at(args: &Vec<MapDatum>, i: usize) -> (r: &MapContainer)
    requires
        i < args@.len(),
        map_data(args@)[i as int] is Container,
    ensures
        MapDatum::Container(*r) == args@[i as int],
{
    match &args[i] {
        MapDatum::Container(map) => map,
        _ => vstd::pervasive::unreached(),
    }
}

/// The key or value among the arguments at index `i`.
fn map_value_at(args: &Vec<MapDatum>, i: usize) -> (r: Value)
    requires
        i < args@.len(),
        map_data(args@)[i as int] is Value,
    ensures
        MapDatum::Value(r) == args@[i as int],
{
    match &args[i] {
        MapDatum::Value(v) => *v,
        _ => vstd::pervasive::unreached(),
    }
}

/// What a test gives.
fn map_test(passed: Option<()>) -> (r: Option<MapDatum>)
    ensures
        r == match passed {
            Some(_) => Some(MapDatum::Unit),
            None => None,
        },
{
    match passed {
        Some(_) => Some(MapDatum::Unit),
        None => None,
    }
}

impl MapSort {
    /// Applies an operation on the maps of this sort.
    pub fn apply(&self, op: MapOp, args: &Vec<MapDatum>) -> (r: Option<MapDatum>)
        requires
            map_op_takes(op, map_data(args@)),
        ensures
            match map_op_result(op, *self, map_data(args@)) {
                Some(result) => r matches Some(datum) && datum@ == result,
                None => r is None,
            },
    {
        match op {
            MapOp::Empty => Some(MapDatum::Container(self.map_empty())),
            MapOp::Get => match map_get(map_at(args, 0), map_value_at(args, 1)) {
                Some(v) => Some(MapDatum::Value(v)),
                None => None,
            },
            MapOp::Insert => {
                let xs = map_at(args, 0).clone();
                let map = map_insert(xs, map_value_at(args, 1), map_value_at(args, 2));
                Some(MapDatum::Container(map))
            },
            MapOp::Remove => {
                let map = map_remove(map_at(args, 0).clone(), map_value_at(args, 1));
                Some(MapDatum::Container(map))
            },
            MapOp::Length => Some(MapDatum::I64(map_length(map_at(args, 0)))),
            MapOp::Contains => map_test(map_contains(map_at(args, 0), map_value_at(args, 1))),
            MapOp::NotContains => map_test(
                map_not_contains(map_at(args, 0), map_value_at(args, 1)),
            ),
            MapOp::Inverse => Some(MapDatum::Container(map_inverse(map_at(args, 0)))),
            MapOp::Union => match map_union(map_at(args, 0), map_at(args, 1)) {
                Some(map) => Some(MapDatum::Container(map)),
                None => None,
            },
        }
    }
}

/// An operation on maps does what its signature says: it takes as many arguments,
/// each of the sort that is announced, gives a result of the sort that is
/// announced, and lacks a result only where it is partial.
pub proof fn map_operations_keep_their_signatures(
    op: MapOp,
    sort: MapSort,
    args: Seq<MapDatumView>,
)
    requires
        map_op_takes(op, args),
    ensures
        args.len() == map_op_inputs(op, sort).len(),
        forall|i: int|
            0 <= i < args.len() ==> match #[trigger] args[i] {
                MapDatumView::Container(_, _, _) => map_op_inputs(op, sort)[i] == Operand::Of(
                    Arc::new(Sort::MapSort(sort)),
                ),
                MapDatumView::Value(_) => map_op_inputs(op, sort)[i] == Operand::Of(
                    if i == 1 {
                        sort.key
                    } else {
                        sort.value
                    },
                ),
                _ => false,
            },
        map_op_result(op, sort, args) is None ==> map_op_partial(op),
        map_op_result(op, sort, args) matches Some(result) ==> map_op_output(op, sort)
            == match result {
            MapDatumView::Container(_, _, _) => Operand::Of(Arc::new(Sort::MapSort(sort))),
            MapDatumView::Value(_) => Operand::Of(sort.value),
            MapDatumView::I64(_) => Operand::I64,
            MapDatumView::Unit => Operand::Unit,
        },
{
}

// ---------------------------------------------------------------------------
// Vectors
// ---------------------------------------------------------------------------
/// An argument or the result of a primitive on vectors.
#[derive(Debug, PartialEq, Eq)]
pub enum VecDatum {
    /// A vector.
    Container(VecContainer),
    /// An item of a vector.
    Value(Value),
    /// An integer.
    I64(i64),
    /// A vector of integers that are not values of the e-graph yet.
    Ints(IntVec),
    /// Nothing but that a test succeeded.
    Unit,
}

/// What an argument or the result of a primitive on vectors holds.
pub enum VecDatumView {
    /// A vector, with whether its items follow the e-graph.
    Container(bool, Seq<Value>),
    Value(Value),
    I64(i64),
    /// A vector of integers, with whether its items follow the e-graph.
    Ints(bool, Seq<i64>),
    Unit,
}

impl View for VecDatum {
    type V = VecDatumView;

    open spec fn view(&self) -> VecDatumView {
        match *self {
            VecDatum::Container(vec) => VecDatumView::Container(vec.do_rebuild, vec.data@),
            VecDatum::Value(v) => VecDatumView::Value(v),
            VecDatum::I64(n) => VecDatumView::I64(n),
            VecDatum::Ints(vec) => VecDatumView::Ints(vec.do_rebuild, vec.data@),
            VecDatum::Unit => VecDatumView::Unit,
        }
    }
}

/// What the arguments of a primitive on vectors hold.
pub open spec fn vec_data(args: Seq<VecDatum>) -> Seq<VecDatumView> {
    args.map_values(|arg: VecDatum| arg@)
}

/// Whether all arguments are items.
pub open spec fn all_items(args: Seq<VecDatumView>) -> bool {
    forall|i: int| 0 <= i < args.len() ==> #[trigger] args[i] is Value
}

/// Whether all arguments are vectors.
pub open spec fn all_vectors(args: Seq<VecDatumView>) -> bool {
    forall|i: int| 0 <= i < args.len() ==> #[trigger] args[i] is Container
}

/// The items of the arguments, one vector after the other.
pub open spec fn concatenated(args: Seq<VecDatumView>) -> Seq<Value>
    decreases args.len(),
{
    if args.len() == 0 {
        Seq::empty()
    } else {
        concatenated(args.drop_last()) + args.last()->Container_1
    }
}

/// Whether the arguments are as many and of the kinds as the operation takes,
/// and an index that an item is put at or removed from is one of the vector.
pub open spec fn vec_op_takes(op: VecOp, args: Seq<VecDatumView>) -> bool {
    match op {
        VecOp::Empty => args.len() == 0,
        VecOp::Of => all_items(args),
        VecOp::Append => all_vectors(args),
        VecOp::Push | VecOp::Contains | VecOp::NotContains => args.len() == 2
            && args[0] is Container && args[1] is Value,
        VecOp::Pop | VecOp::Length => args.len() == 1 && args[0] is Container,
        VecOp::Get => args.len() == 2 && args[0] is Container && args[1] is I64,
        VecOp::Put => args.len() == 3 && args[0] is Container && args[1] is I64
            && args[2] is Value && 0 <= args[1]->I64_0 < args[0]->Container_1.len(),
        VecOp::Remove => args.len() == 2 && args[0] is Container && args[1] is I64 && 0
            <= args[1]->I64_0 < args[0]->Container_1.len(),
        VecOp::Range => args.len() == 1 && args[0] is I64,
    }
}

/// What an operation on the vectors of `sort` gives, if it gives anything.
pub open spec fn vec_op_result(op: VecOp, sort: VecSort, args: Seq<VecDatumView>) -> Option<
    VecDatumView,
> {
    let follows = args[0]->Container_0;
    let xs = args[0]->Container_1;
    let x = args[1]->Value_0;
    let i = args[1]->I64_0;
    match op {
        VecOp::Empty => Some(VecDatumView::Container(sort.element.rebuilds(), Seq::empty())),
        VecOp::Of => Some(
            VecDatumView::Container(
                sort.element.rebuilds(),
                args.map_values(|arg: VecDatumView| arg->Value_0),
            ),
        ),
        VecOp::Append => Some(
            VecDatumView::Container(sort.element.rebuilds(), concatenated(args)),
        ),
        VecOp::Push => Some(VecDatumView::Container(follows, xs.push(x))),
        VecOp::Pop => Some(
            VecDatumView::Container(
                follows,
                if xs.len() > 0 {
                    xs.drop_last()
                } else {
                    xs
                },
            ),
        ),
        VecOp::Length => Some(VecDatumView::I64(xs.len() as i64)),
        VecOp::Contains => if xs.contains(x) {
            Some(VecDatumView::Unit)
        } else {
            None
        },
        VecOp::NotContains => if xs.contains(x) {
            None
        } else {
            Some(VecDatumView::Unit)
        },
        VecOp::Get => if 0 <= i < xs.len() {
            Some(VecDatumView::Value(xs[i as int]))
        } else {
            None
        },
        VecOp::Put => Some(VecDatumView::Container(follows, xs.update(i as int, args[2]->Value_0))),
        VecOp::Remove => Some(VecDatumView::Container(follows, xs.remove(i as int))),
        VecOp::Range => Some(
            VecDatumView::Ints(
                sort.element.rebuilds(),
                Seq::new(range_end(args[0]->I64_0), |j: int| j as i64),
            ),
        ),
    }
}

/// The vector among the arguments at index `i`.
fn vec_at(args: &Vec<VecDatum>, i: usize) -> (r: &VecContainer)
    requires
        i < args@.len(),
        vec_data(args@)[i as int] is Container,
    ensures
        VecDatum::Container(*r) == args@[i as int],
{
    match &args[i] {
        VecDatum::Container(vec) => vec,
        _ => vstd::pervasive::unreached(),
    }
}

/// The item among the arguments at index `i`.
fn vec_value_at(args: &Vec<VecDatum>, i: usize) -> (r: Value)
    requires
        i < args@.len(),
        vec_data(args@)[i as int] is Value,
    ensures
        VecDatum::Value(r) == args@[i as int],
{
    match &args[i] {
        VecDatum::Value(v) => *v,
        _ => vstd::pervasive::unreached(),
    }
}

/// The integer among the arguments at index `i`.
fn int_at(args: &Vec<VecDatum>, i: usize) -> (r: i64)
    requires
        i < args@.len(),
        vec_data(args@)[i as int] is I64,
    ensures
        VecDatum::I64(r) == args@[i as int],
{
    match &args[i] {
        VecDatum::I64(n) => *n,
        _ => vstd::pervasive::unreached(),
    }
}

/// The items that are the arguments.
fn item_args(args: &Vec<VecDatum>) -> (r: Vec<Value>)
    requires
        all_items(vec_data(args@)),
    ensures
        r@ == vec_data(args@).map_values(|arg: VecDatumView| arg->Value_0),
{
    let mut r: Vec<Value> = Vec::new();
    let mut i: usize = 0;
    while i < args.len()
        invariant
            i <= args.len(),
            all_items(vec_data(args@)),
            r@.len() == i,
            forall|j: int|
                0 <= j < i ==> #[trigger] r@[j] == (vec_data(args@)[j])->Value_0,
        decreases args.len() - i,
    {
        assert(vec_data(args@)[i as int] is Value);
        r.push(vec_value_at(args, i));
        i += 1;
    }
    assert(r@ =~= vec_data(args@).map_values(|arg: VecDatumView| arg->Value_0));
    r
}

/// The vectors that are the arguments.
fn vec_args(args: &Vec<VecDatum>) -> (r: Vec<VecContainer>)
    requires
        all_vectors(vec_data(args@)),
    ensures
        appended(r@) == concatenated(vec_data(args@)),
{
    let mut r: Vec<VecContainer> = Vec::new();
    let mut i: usize = 0;
    while i < args.len()
        invariant
            i <= args.len(),
            all_vectors(vec_data(args@)),
            r@.len() == i,
            appended(r@) == concatenated(vec_data(args@).take(i as int)),
        decreases args.len() - i,
    {
        let ghost data = vec_data(args@);
        let ghost before = r@;
        assert(data[i as int] is Container);
        r.push(vec_at(args, i).clone());
        assert(r@.drop_last() =~= before);
        assert(data.take(i + 1).drop_last() =~= data.take(i as int));
        i += 1;
    }
    assert(vec_data(args@).take(i as int) =~= vec_data(args@));
    r
}

/// What a test gives.
fn vec_test(passed: Option<()>) -> (r: Option<VecDatum>)
    ensures
        r == match passed {
            Some(_) => Some(VecDatum::Unit),
            None => None,
        },
{
    match passed {
        Some(_) => Some(VecDatum::Unit),
        None => None,
    }
}

impl VecSort {
    /// Applies an operation on the vectors of this sort.
    pub fn apply(&self, op: VecOp, args: &Vec<VecDatum>) -> (r: Option<VecDatum>)
        requires
            vec_op_takes(op, vec_data(args@)),
        ensures
            match vec_op_result(op, *self, vec_data(args@)) {
                Some(result) => r matches Some(datum) && datum@ == result,
                None => r is None,
            },
    {
        match op {
            VecOp::Empty => Some(VecDatum::Container(self.vec_empty())),
            VecOp::Of => Some(VecDatum::Container(self.vec_of(&item_args(args)))),
            VecOp::Append => Some(VecDatum::Container(self.vec_append(&vec_args(args)))),
            VecOp::Push => {
                let vec = vec_push(vec_at(args, 0).clone(), vec_value_at(args, 1));
                Some(VecDatum::Container(vec))
            },
            VecOp::Pop => Some(VecDatum::Container(vec_pop(vec_at(args, 0).clone()))),
            VecOp::Length => Some(VecDatum::I64(vec_length(vec_at(args, 0)))),
            VecOp::Contains => vec_test(vec_contains(vec_at(args, 0), vec_value_at(args, 1))),
            VecOp::NotContains => vec_test(
                vec_not_contains(vec_at(args, 0), vec_value_at(args, 1)),
            ),
            VecOp::Get => match vec_get(vec_at(args, 0), int_at(args, 1)) {
                Some(v) => Some(VecDatum::Value(v)),
                None => None,
            },
            VecOp::Put => {
                let xs = vec_at(args, 0).clone();
                let vec = vec_set(xs, int_at(args, 1), vec_value_at(args, 2));
                Some(VecDatum::Container(vec))
            },
            VecOp::Remove => {
                let vec = vec_remove(vec_at(args, 0).clone(), int_at(args, 1));
                Some(VecDatum::Container(vec))
            },
            VecOp::Range => Some(VecDatum::Ints(self.vec_range(int_at(args, 0)))),
        }
    }
}

/// An operation on vectors does what its signature says: it takes as many
/// arguments unless it takes any number, each of the sort that is announced, gives
/// a result of the sort that is announced, and lacks a result only where it is
/// partial.
pub proof fn vec_operations_keep_their_signatures(
    op: VecOp,
    sort: VecSort,
    args: Seq<VecDatumView>,
)
    requires
        vec_op_takes(op, args),
    ensures
        op is Of || op is Append || args.len() == vec_op_inputs(op, sort).len(),
        forall|i: int|
            0 <= i < args.len() ==> vec_op_inputs(
                op,
                sort,
            )[if op is Of || op is Append {
                0
            } else {
                i
            }] == match #[trigger] args[i] {
                VecDatumView::Container(_, _) => Operand::Of(Arc::new(Sort::VecSort(sort))),
                VecDatumView::Value(_) => Operand::Of(sort.element),
                VecDatumView::I64(_) => Operand::I64,
                _ => Operand::Unit,
            },
        vec_op_result(op, sort, args) is None ==> op is Contains || op is NotContains
            || op is Get,
        vec_op_result(op, sort, args) matches Some(result) ==> vec_op_output(op, sort)
            == match result {
            VecDatumView::Container(_, _) => Operand::Of(Arc::new(Sort::VecSort(sort))),
            VecDatumView::Ints(_, _) => Operand::Of(Arc::new(Sort::VecSort(sort))),
            VecDatumView::Value(_) => Operand::Of(sort.element),
            VecDatumView::I64(_) => Operand::I64,
            VecDatumView::Unit => Operand::Unit,
        },
{
}

// ---------------------------------------------------------------------------
// What calls of the operations give together
// ---------------------------------------------------------------------------
/// What reading a map at a key gives.
pub open spec fn read_at(sort: MapSort, xs: MapDatumView, k: Value) -> Option<MapDatumView> {
    map_op_result(MapOp::Get, sort, seq![xs, MapDatumView::Value(k)])
}

/// What reading a vector at an index gives.
pub open spec fn item_at(sort: VecSort, xs: VecDatumView, i: i64) -> Option<VecDatumView> {
    vec_op_result(VecOp::Get, sort, seq![xs, VecDatumView::I64(i)])
}

/// Reading a map after writing it: a key has the value that was inserted last, and
/// none after it was removed; other keys keep theirs. Removing and inserting keep
/// which parts of the map follow the e-graph.
pub proof fn maps_keep_what_was_inserted(
    sort: MapSort,
    xs: MapDatumView,
    k: Value,
    v: Value,
    other: Value,
)
    requires
        xs is Container,
        other != k,
    ensures
        ({
            let key = MapDatumView::Value(k);
            let others = MapDatumView::Value(other);
            let inserted = map_op_result(
                MapOp::Insert,
                sort,
                seq![xs, key, MapDatumView::Value(v)],
            );
            let removed = map_op_result(MapOp::Remove, sort, seq![xs, key]);
            &&& inserted matches Some(m) && m is Container && m->Container_0 == xs->Container_0
                && m->Container_1 == xs->Container_1
            &&& removed matches Some(m) && m is Container && m->Container_0 == xs->Container_0
                && m->Container_1 == xs->Container_1
            &&& map_op_result(MapOp::Get, sort, seq![inserted->0, key]) == Some(
                MapDatumView::Value(v),
            )
            &&& map_op_result(MapOp::Get, sort, seq![removed->0, key]) is None
            &&& map_op_result(MapOp::Get, sort, seq![inserted->0, others]) == map_op_result(
                MapOp::Get,
                sort,
                seq![xs, others],
            )
            &&& map_op_result(MapOp::Get, sort, seq![removed->0, others]) == map_op_result(
                MapOp::Get,
                sort,
                seq![xs, others],
            )
        }),
{
}

/// A map contains a key exactly if it has a value for it, and either test succeeds
/// where the other does not.
pub proof fn map_tests_agree_with_reading(sort: MapSort, xs: MapDatumView, k: Value)
    requires
        xs is Container,
    ensures
        ({
            let args = seq![xs, MapDatumView::Value(k)];
            let found = map_op_result(MapOp::Get, sort, args) is Some;
            &&& found <==> map_op_result(MapOp::Contains, sort, args) == Some(MapDatumView::Unit)
            &&& !found <==> map_op_result(MapOp::NotContains, sort, args) == Some(
                MapDatumView::Unit,
            )
            &&& found <==> map_op_result(MapOp::NotContains, sort, args) is None
            &&& !found <==> map_op_result(MapOp::Contains, sort, args) is None
        }),
{
}

/// The empty map has no key and length zero, and follows the e-graph as the sorts
/// of its keys and values do. Inserting a new key makes a map longer by one;
/// inserting a known one does not.
pub proof fn map_length_counts_the_keys(
    sort: MapSort,
    xs: MapDatumView,
    k: Value,
    v: Value,
)
    requires
        xs is Container,
        xs->Container_2.dom().finite(),
        xs->Container_2.len() < i64::MAX,
    ensures
        ({
            let key = MapDatumView::Value(k);
            let none = map_op_result(MapOp::Empty, sort, seq![]);
            let inserted = map_op_result(
                MapOp::Insert,
                sort,
                seq![xs, key, MapDatumView::Value(v)],
            )->0;
            let before = map_op_result(MapOp::Length, sort, seq![xs]);
            let after = map_op_result(MapOp::Length, sort, seq![inserted]);
            &&& none matches Some(m) && m is Container && m->Container_0 == sort.key.rebuilds()
                && m->Container_1 == sort.value.rebuilds()
            &&& map_op_result(MapOp::Length, sort, seq![none->0]) == Some(MapDatumView::I64(0))
            &&& map_op_result(MapOp::Get, sort, seq![none->0, key]) is None
            &&& before matches Some(MapDatumView::I64(n)) && after matches Some(
                MapDatumView::I64(m),
            ) && m == n + if map_op_result(MapOp::Get, sort, seq![xs, key]) is Some {
                0int
            } else {
                1int
            }
        }),
{
    let m = xs->Container_2;
    assert(m.insert(k, v).dom() =~= m.dom().insert(k));
    if m.contains_key(k) {
        assert(m.dom().insert(k) =~= m.dom());
    }
}

/// The inverse of a map has the values of the map as keys; reading it and then the
/// map gives the value back. What followed the e-graph as a key follows it as a
/// value and the other way round.
pub proof fn map_inverse_reads_backwards(sort: MapSort, xs: MapDatumView, v: Value)
    requires
        xs is Container,
    ensures
        ({
            let back = map_op_result(MapOp::Inverse, sort, seq![xs]);
            let at = map_op_result(MapOp::Get, sort, seq![back->0, MapDatumView::Value(v)]);
            &&& back matches Some(m) && m is Container && m->Container_0 == xs->Container_1
                && m->Container_1 == xs->Container_0
            &&& at is Some <==> exists|k: Value| #[trigger]
                read_at(sort, xs, k) == Some(MapDatumView::Value(v))
            &&& at is Some ==> map_op_result(MapOp::Get, sort, seq![xs, at->0]) == Some(
                MapDatumView::Value(v),
            )
        }),
{
    let m = xs->Container_2;
    crate::sort::behaviour::inverse_goes_back(m, v);
    if exists|k: Value| #[trigger] m.contains_key(k) && m[k] == v {
        let k = choose|k: Value| #[trigger] m.contains_key(k) && m[k] == v;
        assert(read_at(sort, xs, k) == Some(MapDatumView::Value(v)));
    }
    if exists|k: Value| #[trigger] read_at(sort, xs, k) == Some(MapDatumView::Value(v)) {
        let k = choose|k: Value| #[trigger]
            read_at(sort, xs, k) == Some(MapDatumView::Value(v));
        assert(m.contains_key(k) && m[k] == v);
    }
}

/// The union of two maps reads as either of them does, and there is none exactly
/// where they read differently at some key of both. It follows the e-graph as the
/// first does.
pub proof fn map_union_reads_as_both(
    sort: MapSort,
    xs: MapDatumView,
    ys: MapDatumView,
    k: Value,
)
    requires
        xs is Container,
        ys is Container,
    ensures
        ({
            let key = MapDatumView::Value(k);
            let both = map_op_result(MapOp::Union, sort, seq![xs, ys]);
            let a = map_op_result(MapOp::Get, sort, seq![xs, key]);
            let b = map_op_result(MapOp::Get, sort, seq![ys, key]);
            &&& a is Some && b is Some && a != b ==> both is None
            &&& both is None ==> exists|j: Value| #[trigger]
                xs->Container_2.contains_key(j) && ys->Container_2.contains_key(j)
                    && xs->Container_2[j] != ys->Container_2[j]
            &&& both matches Some(m) ==> m is Container && m->Container_0 == xs->Container_0
                && m->Container_1 == xs->Container_1
            &&& both matches Some(m) ==> map_op_result(MapOp::Get, sort, seq![m, key]) == (
            if a is Some {
                a
            } else {
                b
            })
        }),
{
    crate::sort::behaviour::union_fails_on_conflicts(xs->Container_2, ys->Container_2);
}

/// Pushing puts an item behind the others and makes the vector longer by one;
/// popping takes it away again.
pub proof fn vectors_push_and_pop(sort: VecSort, xs: VecDatumView, x: Value, i: i64)
    requires
        xs is Container,
        xs->Container_1.len() < i64::MAX,
    ensures
        ({
            let pushed = vec_op_result(VecOp::Push, sort, seq![xs, VecDatumView::Value(x)]);
            let n = xs->Container_1.len() as i64;
            &&& pushed matches Some(v) && v is Container && v->Container_0 == xs->Container_0
            &&& vec_op_result(VecOp::Length, sort, seq![xs]) == Some(VecDatumView::I64(n))
            &&& vec_op_result(VecOp::Length, sort, seq![pushed->0]) == Some(
                VecDatumView::I64((n + 1) as i64),
            )
            &&& vec_op_result(VecOp::Get, sort, seq![pushed->0, VecDatumView::I64(n)]) == Some(
                VecDatumView::Value(x),
            )
            &&& i != n ==> vec_op_result(VecOp::Get, sort, seq![pushed->0, VecDatumView::I64(i)])
                == vec_op_result(VecOp::Get, sort, seq![xs, VecDatumView::I64(i)])
            &&& vec_op_result(VecOp::Pop, sort, seq![pushed->0]) == Some(xs)
            &&& n == 0 ==> vec_op_result(VecOp::Pop, sort, seq![xs]) == Some(xs)
        }),
{
    let v = xs->Container_1;
    assert(v.push(x).drop_last() =~= v);
}

/// An item is there exactly at the indices below the length. A vector contains an
/// item exactly if it has it at some index, and either test succeeds where the
/// other does not.
pub proof fn vector_tests_agree_with_reading(sort: VecSort, xs: VecDatumView, x: Value, i: i64)
    requires
        xs is Container,
        xs->Container_1.len() <= i64::MAX,
    ensures
        ({
            let args = seq![xs, VecDatumView::Value(x)];
            let found = exists|j: i64| #[trigger]
                item_at(sort, xs, j) == Some(VecDatumView::Value(x));
            let at = vec_op_result(VecOp::Get, sort, seq![xs, VecDatumView::I64(i)]);
            &&& vec_op_result(VecOp::Length, sort, seq![xs]) matches Some(VecDatumView::I64(n)) && (
            at is Some <==> 0 <= i < n)
            &&& found <==> vec_op_result(VecOp::Contains, sort, args) == Some(VecDatumView::Unit)
            &&& !found <==> vec_op_result(VecOp::Contains, sort, args) is None
            &&& found <==> vec_op_result(VecOp::NotContains, sort, args) is None
            &&& !found <==> vec_op_result(VecOp::NotContains, sort, args) == Some(
                VecDatumView::Unit,
            )
        }),
{
    let v = xs->Container_1;
    if v.contains(x) {
        let j = v.index_of(x) as i64;
        assert(item_at(sort, xs, j) == Some(VecDatumView::Value(x)));
    }
    if exists|j: i64| #[trigger] item_at(sort, xs, j) == Some(VecDatumView::Value(x)) {
        let j = choose|j: i64| #[trigger] item_at(sort, xs, j) == Some(VecDatumView::Value(x));
        assert(v[j as int] == x);
    }
}

/// Setting an index changes the item there and no other. Removing one moves the
/// items behind it forward.
pub proof fn vectors_set_and_remove(
    sort: VecSort,
    xs: VecDatumView,
    i: i64,
    x: Value,
    j: i64,
)
    requires
        xs is Container,
        0 <= i < xs->Container_1.len(),
        xs->Container_1.len() <= i64::MAX,
        0 <= j < i64::MAX,
    ensures
        ({
            let at = VecDatumView::I64(i);
            let other = VecDatumView::I64(j);
            let put = vec_op_result(VecOp::Put, sort, seq![xs, at, VecDatumView::Value(x)]);
            let removed = vec_op_result(VecOp::Remove, sort, seq![xs, at]);
            let next = VecDatumView::I64((j + 1) as i64);
            &&& put matches Some(v) && v is Container && v->Container_0 == xs->Container_0
            &&& removed matches Some(v) && v is Container && v->Container_0 == xs->Container_0
            &&& vec_op_result(VecOp::Get, sort, seq![put->0, at]) == Some(VecDatumView::Value(x))
            &&& j != i ==> vec_op_result(VecOp::Get, sort, seq![put->0, other]) == vec_op_result(
                VecOp::Get,
                sort,
                seq![xs, other],
            )
            &&& vec_op_result(VecOp::Length, sort, seq![put->0]) == vec_op_result(
                VecOp::Length,
                sort,
                seq![xs],
            )
            &&& j < i ==> vec_op_result(VecOp::Get, sort, seq![removed->0, other])
                == vec_op_result(VecOp::Get, sort, seq![xs, other])
            &&& j >= i ==> vec_op_result(VecOp::Get, sort, seq![removed->0, other])
                == vec_op_result(VecOp::Get, sort, seq![xs, next])
        }),
{
}

/// A vector of some items has each at its index; appended vectors follow one
/// another; the empty vector has no item; a range has each index at that index.
/// All of them follow the e-graph as the sort of the items does.
pub proof fn vectors_are_made_of_their_arguments(
    sort: VecSort,
    items: Seq<VecDatumView>,
    vecs: Seq<VecDatumView>,
    last: VecDatumView,
    i: i64,
)
    requires
        all_items(items),
        all_vectors(vecs),
        last is Container,
        items.len() <= i64::MAX,
    ensures
        ({
            let at = VecDatumView::I64(i);
            let made = vec_op_result(VecOp::Of, sort, items);
            let none = vec_op_result(VecOp::Empty, sort, seq![]);
            let front = vec_op_result(VecOp::Append, sort, vecs);
            let whole = vec_op_result(VecOp::Append, sort, vecs.push(last));
            let follows = sort.element.rebuilds();
            &&& made matches Some(v) && v is Container && v->Container_0 == follows
                && v->Container_1.len() == items.len()
            &&& 0 <= i < items.len() ==> vec_op_result(VecOp::Get, sort, seq![made->0, at])
                == Some(items[i as int])
            &&& none == vec_op_result(VecOp::Of, sort, seq![])
            &&& none == vec_op_result(VecOp::Append, sort, seq![])
            &&& front matches Some(v) && v is Container && v->Container_0 == follows
            &&& whole matches Some(v) && v is Container && v->Container_0 == follows
                && v->Container_1 == front->0->Container_1 + last->Container_1
            &&& 0 <= i <= usize::MAX ==> (vec_op_result(VecOp::Range, sort, seq![at]) matches Some(
                VecDatumView::Ints(f, ns),
            ) && f == follows && ns.len() == i && forall|j: int|
                0 <= j < i ==> #[trigger] ns[j] == j)
            &&& i < 0 ==> (vec_op_result(VecOp::Range, sort, seq![at]) matches Some(
                VecDatumView::Ints(f, ns),
            ) && f == follows && ns.len() == 0)
        }),
{
    let none = Seq::<VecDatumView>::empty();
    assert(none.map_values(|arg: VecDatumView| arg->Value_0) =~= Seq::<Value>::empty());
    assert(seq![] =~= none);
    assert(vecs.push(last).drop_last() =~= vecs);
    crate::sort::behaviour::ranges_end_at_indices(i);
}

/// A new map follows the e-graph in its keys and values as far as their sorts do.
/// An operation on a map keeps how it follows the e-graph, but for the inverse,
/// whose keys are the values and whose values are the keys.
pub proof fn maps_go_on_following_the_graph(op: MapOp, sort: MapSort, args: Seq<MapDatumView>)
    requires
        map_op_takes(op, args),
    ensures
        map_op_result(op, sort, args) matches Some(MapDatumView::Container(keys, vals, _)) ==> (
        if args.len() == 0 {
            &&& keys <==> (*sort.key) is EqSort || sort.key.holds_eq()
            &&& vals <==> (*sort.value) is EqSort || sort.value.holds_eq()
        } else {
            args[0] matches MapDatumView::Container(keys_before, vals_before, _) && if op
                is Inverse {
                keys == vals_before && vals == keys_before
            } else {
                keys == keys_before && vals == vals_before
            }
        }),
{
}

/// An operation on maps that is announced as partial lacks a result on some
/// arguments.
pub proof fn partial_map_operations_may_fail(op: MapOp, sort: MapSort, k: Value, a: Value, b: Value)
    requires
        map_op_partial(op),
        a != b,
    ensures
        exists|args: Seq<MapDatumView>| #[trigger]
            map_op_takes(op, args) && map_op_result(op, sort, args) is None,
{
    let none = MapDatumView::Container(false, false, Map::empty());
    let first = MapDatumView::Container(false, false, Map::empty().insert(k, a));
    let second = MapDatumView::Container(false, false, Map::empty().insert(k, b));
    let key = MapDatumView::Value(k);
    let args = match op {
        MapOp::Union => seq![first, second],
        MapOp::NotContains => seq![first, key],
        _ => seq![none, key],
    };
    assert(map_op_takes(op, args));
    if op is Union {
        let x = first->Container_2;
        let y = second->Container_2;
        assert(x.contains_key(k) && y.contains_key(k) && x[k] != y[k]);
    }
    assert(map_op_result(op, sort, args) is None);
}

/// A new vector follows the e-graph as far as the sort of its items does; an
/// operation on one vector keeps how it follows the e-graph.
pub proof fn vectors_go_on_following_the_graph(op: VecOp, sort: VecSort, args: Seq<VecDatumView>)
    requires
        vec_op_takes(op, args),
    ensures
        ({
            let element = (*sort.element) is EqSort || sort.element.holds_eq();
            match vec_op_result(op, sort, args) {
                Some(VecDatumView::Container(follows, _)) => if op is Empty || op is Of
                    || op is Append {
                    follows == element
                } else {
                    args[0] matches VecDatumView::Container(before, _) && follows == before
                },
                Some(VecDatumView::Ints(follows, _)) => follows == element,
                _ => true,
            }
        }),
{
}

/// A range counts from zero up to its end, without it, and is empty where its end
/// is no index.
pub proof fn ranges_count_up(sort: VecSort, end: i64, j: int)
    ensures
        vec_op_result(VecOp::Range, sort, seq![VecDatumView::I64(end)]) matches Some(
            VecDatumView::Ints(_, s),
        ) && s.len() == (if 0 <= end <= usize::MAX {
            end as nat
        } else {
            0
        }) && (0 <= j < s.len() ==> s[j] == j),
{
}

} // verus!
