//! Maps between values, their sort and their primitives.
//!
//! Besides the ordinary map operations there are those that read a map as a
//! renaming: `compose`, `inverse`, `find-mapping` and `shape2`.

use std::collections::BTreeMap;
use std::sync::Arc;
use vstd::prelude::*;
use vstd::std_specs::cmp::OrdSpec;
use vstd::std_specs::iter::IteratorSpec;
use vstd::string::*;

use crate::ast::{exprs, exprs_push, make_call, Expr, ExprView, Span};
use crate::sort::numbering::{
    distinct, distinct_items, distinct_push, number_after_push, number_of, values_are_few,
};
use crate::sort::renaming::{
    by_id, by_slot, compatible, composed, entries_of, forced, forced_apart, forced_at, forced_once,
    greatest_key, greatest_key_is, inverted, is_entries, is_forced_mapping, is_greatest_key,
    mappable, ordered, ordered_is, same_keys, sent_to, united, Pairs, Renaming,
};
use crate::sort::{
    names_of, sort_named, ArcSort, EGraph, Operand, Primitive, Rebuilder, Signature, Sort,
    TypeConstraint, TypeConstraintView, TypeError, TypeInfo, Value,
};

verus! {

/// A map value: what it holds, and whether its keys and values follow the
/// e-graph when classes are merged.
#[derive(Debug, PartialEq, Eq, Hash)]
pub struct MapContainer {
    pub do_rebuild_keys: bool,
    pub do_rebuild_vals: bool,
    pub data: BTreeMap<Value, Value>,
}

/// The keys that are rebuilt to `new`.
pub open spec fn rebuilt_to(rebuilder: Rebuilder, new: Value) -> spec_fn(Value) -> bool {
    |k: Value| rebuilder.rebuilt(k) == new
}

/// The map with each key rebuilt. Where several keys become one, the greatest
/// of them gives the value.
pub open spec fn keys_rebuilt(m: Renaming, rebuilder: Rebuilder) -> Renaming {
    Map::new(
        |new: Value|
            exists|k: Value| #[trigger] m.contains_key(k) && rebuilder.rebuilt(k) == new,
        |new: Value| m[greatest_key(m, rebuilt_to(rebuilder, new))],
    )
}

/// The map with each value rebuilt.
pub open spec fn vals_rebuilt(m: Renaming, rebuilder: Rebuilder) -> Renaming {
    Map::new(|k: Value| m.contains_key(k), |k: Value| rebuilder.rebuilt(m[k]))
}

/// Whether rebuilding changes some key.
pub open spec fn some_key_changes(m: Renaming, rebuilder: Rebuilder) -> bool {
    exists|k: Value| #[trigger] m.contains_key(k) && rebuilder.rebuilt(k) != k
}

/// Whether rebuilding changes some value.
pub open spec fn some_value_changes(m: Renaming, rebuilder: Rebuilder) -> bool {
    exists|k: Value| #[trigger] m.contains_key(k) && rebuilder.rebuilt(m[k]) != m[k]
}

/// The keys and values of the entries, one after the other.
pub open spec fn flattened(all: Seq<(Value, Value)>) -> Seq<Value> {
    Seq::new(
        2 * all.len(),
        |i: int|
            if i % 2 == 0 {
                all[i / 2].0
            } else {
                all[i / 2].1
            },
    )
}

impl MapContainer {
    /// The map after its keys were rebuilt, if they are to be.
    pub open spec fn after_keys(self, rebuilder: Rebuilder) -> Renaming {
        if self.do_rebuild_keys {
            keys_rebuilt(self.data@, rebuilder)
        } else {
            self.data@
        }
    }

    /// The map after its keys and then its values were rebuilt, as far as they
    /// are to be.
    pub open spec fn after_rebuild(self, rebuilder: Rebuilder) -> Renaming {
        if self.do_rebuild_vals {
            vals_rebuilt(self.after_keys(rebuilder), rebuilder)
        } else {
            self.after_keys(rebuilder)
        }
    }

    /// Replaces keys and values by their leaders, as far as they follow the
    /// e-graph, and says whether anything changed.
    pub fn rebuild_contents(&mut self, rebuilder: &Rebuilder) -> (changed: bool)
        ensures
            final(self).do_rebuild_keys == old(self).do_rebuild_keys,
            final(self).do_rebuild_vals == old(self).do_rebuild_vals,
            final(self).data@ == old(self).after_rebuild(*rebuilder),
            changed <==> (old(self).do_rebuild_keys && some_key_changes(
                old(self).data@,
                *rebuilder,
            ))
                || (old(self).do_rebuild_vals && some_value_changes(
                old(self).after_keys(*rebuilder),
                *rebuilder,
            )),
    {
        let mut changed = false;
        if self.do_rebuild_keys {
            let (data, keys_changed) = rebuild_keys(&self.data, rebuilder);
            self.data = data;
            changed = keys_changed;
        }
        if self.do_rebuild_vals {
            let (data, vals_changed) = rebuild_vals(&self.data, rebuilder);
            self.data = data;
            changed = changed || vals_changed;
        }
        changed
    }

    /// All keys and values: each key, followed by its value, in the order of
    /// the keys.
    pub fn iter(&self) -> (r: Vec<Value>)
        ensures
            r@ == flattened(entries_of(self.data@)),
    {
        let all = entries(&self.data);
        let mut r: Vec<Value> = Vec::new();
        let mut i: usize = 0;
        while i < all.len()
            invariant
                i <= all.len(),
                r@ == flattened(all@.take(i as int)),
            decreases all.len() - i,
        {
            r.push(all[i].0);
            r.push(all[i].1);
            i += 1;
            assert(r@ =~= flattened(all@.take(i as int)));
        }
        assert(all@.take(i as int) =~= all@);
        r
    }
}

impl Clone for MapContainer {
    fn clone(&self) -> (r: Self)
        ensures
            r.do_rebuild_keys == self.do_rebuild_keys,
            r.do_rebuild_vals == self.do_rebuild_vals,
            r.data@ == self.data@,
    {
        MapContainer {
            do_rebuild_keys: self.do_rebuild_keys,
            do_rebuild_vals: self.do_rebuild_vals,
            data: self.data.clone(),
        }
    }
}

/// The map with each key rebuilt, and whether a key changed.
fn rebuild_keys(m: &BTreeMap<Value, Value>, rebuilder: &Rebuilder) -> (r: (
    BTreeMap<Value, Value>,
    bool,
))
    ensures
        r.0@ == keys_rebuilt(m@, *rebuilder),
        r.1 <==> some_key_changes(m@, *rebuilder),
{
    broadcast use vstd::std_specs::btree::group_btree_axioms;

    let mut res: BTreeMap<Value, Value> = BTreeMap::new();
    let mut changed = false;
    let ghost mut source: Map<Value, Value> = Map::empty();
    let all = entries(m);
    let mut i: usize = 0;
    while i < all.len()
        invariant
            i <= all.len(),
            is_entries(all@, m@),
            forall|new: Value| #[trigger] res@.contains_key(new) == source.contains_key(new),
            forall|new: Value| #[trigger]
                source.contains_key(new) <==> exists|j: int|
                    0 <= j < i && rebuilder.rebuilt((#[trigger] all@[j]).0) == new,
            forall|new: Value| #[trigger]
                source.contains_key(new) ==> m@.contains_key(source[new]) && rebuilder.rebuilt(
                    source[new],
                ) == new && res@[new] == m@[source[new]],
            forall|new: Value, j: int|
                source.contains_key(new) && 0 <= j < i && rebuilder.rebuilt(
                    (#[trigger] all@[j]).0,
                ) == new ==> all@[j].0 <= #[trigger] source[new],
            changed <==> exists|j: int|
                0 <= j < i && rebuilder.rebuilt((#[trigger] all@[j]).0) != all@[j].0,
        decreases all.len() - i,
    {
        let (k, v) = all[i];
        assert(all@[i as int].0 == k && m@.contains_key(k) && m@[k] == v);
        let new: Value = rebuilder.rebuild_val(k);
        if k != new {
            changed = true;
        }
        res.insert(new, v);
        proof {
            source = source.insert(new, k);
        }
        i += 1;
    }
    proof {
        assert forall|k: Value| m@.contains_key(k) implies exists|j: int|
            0 <= j < all@.len() && (#[trigger] all@[j]).0 == k by {
            let j = all@.index_of((k, m@[k]));
            assert(all@.contains((k, m@[k])));
            assert(all@[j].0 == k);
        }
        assert forall|new: Value| #[trigger] res@.contains_key(new) == keys_rebuilt(
            m@,
            *rebuilder,
        ).contains_key(new) && (res@.contains_key(new) ==> res@[new] == keys_rebuilt(
            m@,
            *rebuilder,
        )[new]) by {
            if res@.contains_key(new) {
                let top = source[new];
                let p = rebuilt_to(*rebuilder, new);
                assert forall|other: Value| m@.contains_key(other) && #[trigger] p(
                    other,
                ) implies other <= top by {
                    let j = choose|j: int| 0 <= j < all@.len() && (#[trigger] all@[j]).0 == other;
                    assert(all@[j].0 == other);
                }
                assert(is_greatest_key(m@, p, top));
                greatest_key_is(m@, p, top);
            }
        }
        assert(res@ =~= keys_rebuilt(m@, *rebuilder));
    }
    (res, changed)
}

/// The map with each value rebuilt, and whether a value changed.
fn rebuild_vals(m: &BTreeMap<Value, Value>, rebuilder: &Rebuilder) -> (r: (
    BTreeMap<Value, Value>,
    bool,
))
    ensures
        r.0@ == vals_rebuilt(m@, *rebuilder),
        r.1 <==> some_value_changes(m@, *rebuilder),
{
    broadcast use vstd::std_specs::btree::group_btree_axioms;

    let mut res: BTreeMap<Value, Value> = BTreeMap::new();
    let mut changed = false;
    let all = entries(m);
    let mut i: usize = 0;
    while i < all.len()
        invariant
            i <= all.len(),
            is_entries(all@, m@),
            forall|k: Value| #[trigger]
                res@.contains_key(k) <==> exists|j: int| 0 <= j < i && (#[trigger] all@[j]).0 == k,
            forall|k: Value| #[trigger]
                res@.contains_key(k) ==> m@.contains_key(k) && res@[k] == rebuilder.rebuilt(m@[k]),
            changed <==> exists|j: int|
                0 <= j < i && rebuilder.rebuilt((#[trigger] all@[j]).1) != all@[j].1,
        decreases all.len() - i,
    {
        let (k, v) = all[i];
        assert(all@[i as int] == (k, v) && m@.contains_key(k) && m@[k] == v);
        let new: Value = rebuilder.rebuild_val(v);
        if v != new {
            changed = true;
        }
        res.insert(k, new);
        i += 1;
    }
    proof {
        assert forall|k: Value| m@.contains_key(k) implies exists|j: int|
            0 <= j < all@.len() && (#[trigger] all@[j]) == (k, m@[k]) by {
            let j = all@.index_of((k, m@[k]));
            assert(all@.contains((k, m@[k])));
            assert(all@[j] == (k, m@[k]));
        }
        assert(res@ =~= vals_rebuilt(m@, *rebuilder));
    }
    (res, changed)
}

/// A sort of maps from one sort to another. It brings the primitives
/// - `map-empty`
/// - `map-insert`
/// - `map-get`
/// - `map-contains`
/// - `map-not-contains`
/// - `map-remove`
/// - `map-length`
/// - `map-inverse`
/// - `map-union`
///
/// and those that read maps as renamings.
#[derive(Debug, PartialEq, Eq)]
pub struct MapSort {
    pub name: String,
    pub key: ArcSort,
    pub value: ArcSort,
}

impl Clone for MapSort {
    fn clone(&self) -> (r: Self)
        ensures
            r == *self,
    {
        MapSort { name: self.name.clone(), key: self.key.clone(), value: self.value.clone() }
    }
}

/// The primitives that a sort of maps reserves the names of.
pub open spec fn reserved_map_primitives() -> Seq<Seq<char>> {
    seq![
        "map-empty"@,
        "map-insert"@,
        "map-get"@,
        "map-not-contains"@,
        "map-contains"@,
        "map-remove"@,
        "map-length"@,
    ]
}

/// The term that a map is printed as: its first `n` entries, whose keys and
/// values alternate in `elements`, inserted one by one into the empty map.
pub open spec fn map_term(elements: Seq<ExprView>, n: nat) -> ExprView
    decreases n,
{
    if n == 0 {
        ExprView::Call(Span::Generated, "map-empty"@, seq![])
    } else {
        ExprView::Call(
            Span::Generated,
            "map-insert"@,
            seq![
                map_term(elements, (n - 1) as nat),
                elements[2 * n - 2],
                elements[2 * n - 1],
            ],
        )
    }
}

/// The keys and values of the entries with their sorts, one after the other.
pub open spec fn sorted_values(all: Seq<(Value, Value)>, key: ArcSort, value: ArcSort) -> Seq<
    (ArcSort, Value),
> {
    Seq::new(
        2 * all.len(),
        |i: int|
            if i % 2 == 0 {
                (key, all[i / 2].0)
            } else {
                (value, all[i / 2].1)
            },
    )
}

impl MapSort {
    /// The sort of the keys.
    pub fn key(&self) -> (r: ArcSort)
        ensures
            r == self.key,
    {
        self.key.clone()
    }

    /// The sort of the values.
    pub fn value(&self) -> (r: ArcSort)
        ensures
            r == self.value,
    {
        self.value.clone()
    }

    /// The name that map sorts are declared with.
    pub fn presort_name() -> (r: &'static str)
        ensures
            r@ == "Map"@,
    {
        "Map"
    }

    /// The primitives that a sort of maps reserves the names of.
    pub fn reserved_primitives() -> (r: Vec<&'static str>)
        ensures
            names_of(r@) == reserved_map_primitives(),
    {
        let r: Vec<&'static str> =
            vec![
            "map-empty",
            "map-insert",
            "map-get",
            "map-not-contains",
            "map-contains",
            "map-remove",
            "map-length",
        ];
        assert(names_of(r@) =~= reserved_map_primitives());
        r
    }

    /// Makes the sort `name` of maps between the two sorts that `args` names;
    /// fails with the first of them that is not declared.
    pub fn make_sort(typeinfo: &TypeInfo, name: String, args: &[Expr]) -> (r: Result<
        ArcSort,
        TypeError,
    >)
        requires
            args@.len() == 2,
            args@[0] is Var,
            args@[1] is Var,
        ensures
            match (
                sort_named(typeinfo.sorts@, args@[0]->Var_1@),
                sort_named(typeinfo.sorts@, args@[1]->Var_1@),
            ) {
                (None, _) => r == Err::<ArcSort, TypeError>(
                    TypeError::UndefinedSort(args@[0]->Var_1, args@[0]->Var_0),
                ),
                (Some(_), None) => r == Err::<ArcSort, TypeError>(
                    TypeError::UndefinedSort(args@[1]->Var_1, args@[1]->Var_0),
                ),
                (Some(key), Some(value)) => r matches Ok(sort) && *sort == Sort::MapSort(
                    MapSort { name, key, value },
                ),
            },
    {
        match (&args[0], &args[1]) {
            (Expr::Var(k_span, k), Expr::Var(v_span, v)) => {
                let key = match typeinfo.get_sort_by_name(k) {
                    Some(sort) => sort,
                    None => {
                        return Err(TypeError::UndefinedSort(k.clone(), *k_span));
                    },
                };
                let value = match typeinfo.get_sort_by_name(v) {
                    Some(sort) => sort,
                    None => {
                        return Err(TypeError::UndefinedSort(v.clone(), *v_span));
                    },
                };
                Ok(Arc::new(Sort::MapSort(MapSort { name, key, value })))
            },
            _ => vstd::pervasive::unreached(),
        }
    }

    /// The name of the sort.
    pub fn name(&self) -> (r: &String)
        ensures
            *r == self.name,
    {
        &self.name
    }

    /// The sorts of what the maps hold: that of the keys, then that of the
    /// values.
    pub fn inner_sorts(&self) -> (r: Vec<ArcSort>)
        ensures
            r@ == seq![self.key, self.value],
    {
        let r = vec![self.key.clone(), self.value.clone()];
        assert(r@ =~= seq![self.key, self.value]);
        r
    }

    /// Whether the maps hold e-classes, at any depth.
    pub fn is_eq_container_sort(&self) -> (r: bool)
        ensures
            r == (self.key.rebuilds() || self.value.rebuilds()),
            r == Sort::MapSort(*self).holds_eq(),
    {
        self.key.is_eq_sort() || self.value.is_eq_sort() || self.key.is_eq_container_sort()
            || self.value.is_eq_container_sort()
    }

    /// The keys and values of a map with their sorts: each key, followed by its
    /// value, in the order of the keys.
    pub fn inner_values(&self, val: &MapContainer) -> (r: Vec<(ArcSort, Value)>)
        ensures
            r@ == sorted_values(entries_of(val.data@), self.key, self.value),
    {
        let all = entries(&val.data);
        let mut r: Vec<(ArcSort, Value)> = Vec::new();
        let mut i: usize = 0;
        while i < all.len()
            invariant
                i <= all.len(),
                r@ == sorted_values(all@.take(i as int), self.key, self.value),
            decreases all.len() - i,
        {
            r.push((self.key.clone(), all[i].0));
            r.push((self.value.clone(), all[i].1));
            i += 1;
            assert(r@ =~= sorted_values(all@.take(i as int), self.key, self.value));
        }
        assert(all@.take(i as int) =~= all@);
        r
    }

    /// The term that a map is printed as, from the terms of its keys and
    /// values.
    pub fn reconstruct_termdag(&self, element_terms: &Vec<Expr>) -> (r: Expr)
        requires
            element_terms.len() % 2 == 0,
        ensures
            r@ == map_term(exprs(element_terms@), element_terms@.len() / 2),
    {
        broadcast use exprs_push;

        let none: Vec<Expr> = Vec::new();
        assert(exprs(none@) =~= Seq::<ExprView>::empty());
        let mut term = make_call(Span::Generated, String::from_str("map-empty"), none);
        let mut i: usize = 0;
        while i < element_terms.len()
            invariant
                element_terms.len() % 2 == 0,
                i % 2 == 0,
                i <= element_terms.len(),
                term@ == map_term(exprs(element_terms@), (i / 2) as nat),
            decreases element_terms.len() - i,
        {
            broadcast use exprs_push;

            let mut args: Vec<Expr> = Vec::new();
            assert(exprs(args@) =~= Seq::<ExprView>::empty());
            args.push(term);
            args.push(element_terms[i].clone());
            args.push(element_terms[i + 1].clone());
            assert(exprs(args@) =~= seq![
                map_term(exprs(element_terms@), (i / 2) as nat),
                exprs(element_terms@)[i as int],
                exprs(element_terms@)[i + 1],
            ]);
            term = make_call(Span::Generated, String::from_str("map-insert"), args);
            i += 2;
        }
        term
    }

    /// The name that maps of this sort are serialized under.
    pub fn serialized_name(&self) -> (r: String)
        ensures
            r == self.name,
    {
        self.name.clone()
    }
}

// ---------------------------------------------------------------------------
// Primitives of one sort of maps
// ---------------------------------------------------------------------------
/// A primitive on the maps of one sort.
#[derive(Clone, Copy, Debug, PartialEq, Eq)]
pub enum MapOp {
    Empty,
    Get,
    Insert,
    Remove,
    Length,
    Contains,
    NotContains,
    Inverse,
    Union,
}

/// The name of a primitive on maps.
pub open spec fn map_op_name(op: MapOp) -> Seq<char> {
    match op {
        MapOp::Empty => "map-empty"@,
        MapOp::Get => "map-get"@,
        MapOp::Insert => "map-insert"@,
        MapOp::Remove => "map-remove"@,
        MapOp::Length => "map-length"@,
        MapOp::Contains => "map-contains"@,
        MapOp::NotContains => "map-not-contains"@,
        MapOp::Inverse => "map-inverse"@,
        MapOp::Union => "map-union"@,
    }
}

/// The arguments of a primitive on the maps of `sort`.
pub open spec fn map_op_inputs(op: MapOp, sort: MapSort) -> Seq<Operand> {
    let map = Operand::Of(Arc::new(Sort::MapSort(sort)));
    let key = Operand::Of(sort.key);
    let value = Operand::Of(sort.value);
    match op {
        MapOp::Empty => seq![],
        MapOp::Get => seq![map, key],
        MapOp::Insert => seq![map, key, value],
        MapOp::Remove => seq![map, key],
        MapOp::Length => seq![map],
        MapOp::Contains => seq![map, key],
        MapOp::NotContains => seq![map, key],
        MapOp::Inverse => seq![map],
        MapOp::Union => seq![map, map],
    }
}

/// The result of a primitive on the maps of `sort`.
pub open spec fn map_op_output(op: MapOp, sort: MapSort) -> Operand {
    match op {
        MapOp::Get => Operand::Of(sort.value),
        MapOp::Length => Operand::I64,
        MapOp::Contains => Operand::Unit,
        MapOp::NotContains => Operand::Unit,
        _ => Operand::Of(Arc::new(Sort::MapSort(sort))),
    }
}

/// Whether a primitive on maps may have no result.
pub open spec fn map_op_partial(op: MapOp) -> bool {
    op is Get || op is Contains || op is NotContains || op is Union
}

impl MapOp {
    /// The name of the primitive.
    pub fn name(&self) -> (r: &'static str)
        ensures
            r@ == map_op_name(*self),
    {
        match self {
            MapOp::Empty => "map-empty",
            MapOp::Get => "map-get",
            MapOp::Insert => "map-insert",
            MapOp::Remove => "map-remove",
            MapOp::Length => "map-length",
            MapOp::Contains => "map-contains",
            MapOp::NotContains => "map-not-contains",
            MapOp::Inverse => "map-inverse",
            MapOp::Union => "map-union",
        }
    }

    /// What the primitive takes and gives, on the maps of `sort`.
    pub fn signature(&self, sort: &MapSort) -> (r: Signature)
        ensures
            r.inputs@ == map_op_inputs(*self, *sort),
            !r.variadic,
            r.output == map_op_output(*self, *sort),
            r.partial == map_op_partial(*self),
    {
        let map: ArcSort = Arc::new(Sort::MapSort(sort.clone()));
        let mut inputs: Vec<Operand> = Vec::new();
        match self {
            MapOp::Empty => {},
            _ => {
                inputs.push(Operand::Of(map.clone()));
            },
        }
        match self {
            MapOp::Get | MapOp::Insert | MapOp::Remove | MapOp::Contains | MapOp::NotContains => {
                inputs.push(Operand::Of(sort.key()));
            },
            MapOp::Union => {
                inputs.push(Operand::Of(map.clone()));
            },
            _ => {},
        }
        match self {
            MapOp::Insert => {
                inputs.push(Operand::Of(sort.value()));
            },
            _ => {},
        }
        let output = match self {
            MapOp::Get => Operand::Of(sort.value()),
            MapOp::Length => Operand::I64,
            MapOp::Contains | MapOp::NotContains => Operand::Unit,
            _ => Operand::Of(map),
        };
        let partial = match self {
            MapOp::Get | MapOp::Contains | MapOp::NotContains | MapOp::Union => true,
            _ => false,
        };
        assert(inputs@ =~= map_op_inputs(*self, *sort));
        Signature { inputs, variadic: false, output, partial }
    }
}

/// The primitives that a sort of maps registers, in order. `find-mapping` is
/// only there for renamings of slots, which are maps from integers to integers.
pub open spec fn map_primitives(sort: MapSort) -> Seq<Primitive> {
    let common = seq![
        Primitive::MapOp(MapOp::Empty, sort),
        Primitive::MapOp(MapOp::Get, sort),
        Primitive::MapOp(MapOp::Insert, sort),
        Primitive::MapOp(MapOp::Remove, sort),
        Primitive::MapOp(MapOp::Length, sort),
        Primitive::MapOp(MapOp::Contains, sort),
        Primitive::MapOp(MapOp::NotContains, sort),
        Primitive::MapOp(MapOp::Inverse, sort),
        Primitive::MapOp(MapOp::Union, sort),
        Primitive::MapShape(Shape {  }),
        Primitive::MapInverse(Inverse {  }),
        Primitive::MapCompose(Compose {  }),
    ];
    if sort.key.sort_name() == "i64"@ && sort.value.sort_name() == "i64"@ {
        common.push(
            Primitive::MapFindMapping(FindMapping { sort: Arc::new(Sort::MapSort(sort)) }),
        )
    } else {
        common
    }
}

impl MapSort {
    /// Registers the primitives of the sort.
    pub fn register_primitives(&self, eg: &mut EGraph)
        ensures
            final(eg).type_info == old(eg).type_info,
            final(eg).primitives@ == old(eg).primitives@ + map_primitives(*self),
    {
        eg.primitives.push(Primitive::MapOp(MapOp::Empty, self.clone()));
        eg.primitives.push(Primitive::MapOp(MapOp::Get, self.clone()));
        eg.primitives.push(Primitive::MapOp(MapOp::Insert, self.clone()));
        eg.primitives.push(Primitive::MapOp(MapOp::Remove, self.clone()));
        eg.primitives.push(Primitive::MapOp(MapOp::Length, self.clone()));
        eg.primitives.push(Primitive::MapOp(MapOp::Contains, self.clone()));
        eg.primitives.push(Primitive::MapOp(MapOp::NotContains, self.clone()));
        eg.primitives.push(Primitive::MapOp(MapOp::Inverse, self.clone()));
        eg.primitives.push(Primitive::MapOp(MapOp::Union, self.clone()));
        eg.primitives.push(Primitive::MapShape(Shape {  }));
        eg.primitives.push(Primitive::MapInverse(Inverse {  }));
        eg.primitives.push(Primitive::MapCompose(Compose {  }));
        let i64_name = String::from_str("i64");
        if *self.key.name() == i64_name && *self.value.name() == i64_name {
            let sort: ArcSort = Arc::new(Sort::MapSort(self.clone()));
            eg.primitives.push(Primitive::MapFindMapping(FindMapping { sort }));
        }
        assert(eg.primitives@ =~= old(eg).primitives@ + map_primitives(*self));
    }

    /// `map-empty`: the empty map of this sort.
    pub fn map_empty(&self) -> (r: MapContainer)
        ensures
            r.do_rebuild_keys == self.key.rebuilds(),
            r.do_rebuild_vals == self.value.rebuilds(),
            r.data@ == Map::<Value, Value>::empty(),
    {
        MapContainer {
            do_rebuild_keys: self.key.is_eq_sort() || self.key.is_eq_container_sort(),
            do_rebuild_vals: self.value.is_eq_sort() || self.value.is_eq_container_sort(),
            data: BTreeMap::new(),
        }
    }
}

/// `map-get`: the value at `x`, if there is one.
pub fn map_get(xs: &MapContainer, x: Value) -> (r: Option<Value>)
    ensures
        r == if xs.data@.contains_key(x) {
            Some(xs.data@[x])
        } else {
            None
        },
{
    match xs.data.get(&x) {
        Some(v) => Some(*v),
        None => None,
    }
}

/// `map-insert`: the map with `y` at `x`.
pub fn map_insert(xs: MapContainer, x: Value, y: Value) -> (r: MapContainer)
    ensures
        r.do_rebuild_keys == xs.do_rebuild_keys,
        r.do_rebuild_vals == xs.do_rebuild_vals,
        r.data@ == xs.data@.insert(x, y),
{
    broadcast use vstd::std_specs::btree::group_btree_axioms;

    let mut xs = xs;
    xs.data.insert(x, y);
    xs
}

/// `map-remove`: the map without the key `x`.
pub fn map_remove(xs: MapContainer, x: Value) -> (r: MapContainer)
    ensures
        r.do_rebuild_keys == xs.do_rebuild_keys,
        r.do_rebuild_vals == xs.do_rebuild_vals,
        r.data@ == xs.data@.remove(x),
{
    broadcast use vstd::std_specs::btree::group_btree_axioms;

    let mut xs = xs;
    xs.data.remove(&x);
    xs
}

/// `map-length`: the number of keys.
pub fn map_length(xs: &MapContainer) -> (r: i64)
    ensures
        r == xs.data@.len(),
{
    proof {
        keys_are_few(xs.data@);
    }
    xs.data.len() as i64
}

/// `map-contains`: succeeds where `x` is a key.
pub fn map_contains(xs: &MapContainer, x: Value) -> (r: Option<()>)
    ensures
        r is Some <==> xs.data@.contains_key(x),
{
    if xs.data.contains_key(&x) {
        Some(())
    } else {
        None
    }
}

/// `map-not-contains`: succeeds where `x` is not a key.
pub fn map_not_contains(xs: &MapContainer, x: Value) -> (r: Option<()>)
    ensures
        r is Some <==> !xs.data@.contains_key(x),
{
    if xs.data.contains_key(&x) {
        None
    } else {
        Some(())
    }
}

/// `map-inverse`: the inverse of the entries, whose keys follow the e-graph as
/// the values did and the other way round.
pub fn map_inverse(xs: &MapContainer) -> (r: MapContainer)
    ensures
        r.do_rebuild_keys == xs.do_rebuild_vals,
        r.do_rebuild_vals == xs.do_rebuild_keys,
        r.data@ == inverted(xs.data@),
{
    MapContainer {
        do_rebuild_keys: xs.do_rebuild_vals,
        do_rebuild_vals: xs.do_rebuild_keys,
        data: inverse(&xs.data),
    }
}

/// `map-union`: the entries of both maps; nothing where they differ at some
/// key.
pub fn map_union(xs: &MapContainer, ys: &MapContainer) -> (r: Option<MapContainer>)
    ensures
        match united(xs.data@, ys.data@) {
            Some(both) => r matches Some(map) && map.do_rebuild_keys == xs.do_rebuild_keys
                && map.do_rebuild_vals == xs.do_rebuild_vals && map.data@ == both,
            None => r is None,
        },
{
    broadcast use vstd::std_specs::btree::group_btree_axioms;

    let mut data = xs.data.clone();
    let all = entries(&ys.data);
    let mut i: usize = 0;
    while i < all.len()
        invariant
            i <= all.len(),
            is_entries(all@, ys.data@),
            forall|k: Value| #[trigger]
                data@.contains_key(k) <==> xs.data@.contains_key(k) || exists|j: int|
                    0 <= j < i && (#[trigger] all@[j]).0 == k,
            forall|k: Value| #[trigger] xs.data@.contains_key(k) ==> data@[k] == xs.data@[k],
            forall|j: int| 0 <= j < i ==> data@[(#[trigger] all@[j]).0] == all@[j].1,
        decreases all.len() - i,
    {
        let (k, v) = all[i];
        assert(all@[i as int] == (k, v) && ys.data@.contains_key(k) && ys.data@[k] == v);
        if let Some(existing) = data.get(&k) {
            if *existing != v {
                proof {
                    if !xs.data@.contains_key(k) {
                        let j = choose|j: int| 0 <= j < i && (#[trigger] all@[j]).0 == k;
                        assert(all@[j].0 < all@[i as int].0);
                    }
                    assert(!compatible(xs.data@, ys.data@));
                }
                return None;
            }
        }
        data.insert(k, v);
        i += 1;
    }
    proof {
        assert forall|k: Value| ys.data@.contains_key(k) implies data@.contains_key(k) && data@[k]
            == ys.data@[k] by {
            let j = all@.index_of((k, ys.data@[k]));
            assert(all@.contains((k, ys.data@[k])));
            assert(all@[j].0 == k);
        }
        assert(compatible(xs.data@, ys.data@));
        assert(data@ =~= xs.data@.union_prefer_right(ys.data@));
    }
    Some(
        MapContainer {
            do_rebuild_keys: xs.do_rebuild_keys,
            do_rebuild_vals: xs.do_rebuild_vals,
            data,
        },
    )
}

/// A map has no more keys than there are values.
proof fn keys_are_few(m: Renaming)
    requires
        m.dom().finite(),
    ensures
        m.len() <= 0x1_0000_0000,
{
    let id = |v: Value| v as int;
    let ids = m.dom().map(id);
    let all_ids = vstd::set_lib::set_int_range(0, 0x1_0000_0000);
    vstd::set_lib::lemma_map_size(m.dom(), ids, id);
    vstd::set_lib::lemma_int_range(0, 0x1_0000_0000);
    assert(ids.subset_of(all_ids));
    vstd::set_lib::lemma_len_subset(ids, all_ids);
}

// ---------------------------------------------------------------------------
// Primitives on renamings
// ---------------------------------------------------------------------------
/// A map whose keys are slots, with the integer that each key stands for:
/// `slots` goes through the keys in order.
#[derive(Debug)]
pub struct SlotMap {
    pub map: MapContainer,
    pub slots: Vec<i64>,
}

impl SlotMap {
    /// Whether each key stands for an integer of its own.
    pub open spec fn wf(self) -> bool {
        self.slots@.len() == entries_of(self.map.data@).len() && self.slots@.no_duplicates()
    }

    /// The map, with integers as keys.
    pub open spec fn by_slots(self) -> Map<i64, Value> {
        Map::new(
            |slot: i64| self.slots@.contains(slot),
            |slot: i64| entries_of(self.map.data@)[self.slots@.index_of(slot)].1,
        )
    }

    /// The values by increasing slot.
    pub open spec fn values_by_slot(self) -> Seq<Value> {
        ordered(self.by_slots(), by_slot()).map_values(|e: (i64, Value)| e.1)
    }

    /// Appends the values by increasing slot to `out`.
    fn push_values(&self, out: &mut Vec<Value>)
        requires
            self.wf(),
        ensures
            final(out)@ == old(out)@ + self.values_by_slot(),
    {
        broadcast use vstd::std_specs::btree::group_btree_axioms;

        let all = entries(&self.map.data);
        let mut by_slots: BTreeMap<i64, Value> = BTreeMap::new();
        let mut i: usize = 0;
        while i < all.len()
            invariant
                i <= all.len(),
                self.wf(),
                all@ == entries_of(self.map.data@),
                forall|slot: i64| #[trigger]
                    by_slots@.contains_key(slot) <==> exists|j: int|
                        0 <= j < i && (#[trigger] self.slots@[j]) == slot,
                forall|j: int| 0 <= j < i ==> by_slots@[#[trigger] self.slots@[j]] == all@[j].1,
            decreases all.len() - i,
        {
            by_slots.insert(self.slots[i], all[i].1);
            i += 1;
        }
        proof {
            assert forall|slot: i64| #[trigger] by_slots@.contains_key(slot)
                == self.by_slots().contains_key(slot) && (by_slots@.contains_key(slot)
                ==> by_slots@[slot] == self.by_slots()[slot]) by {
                if self.slots@.contains(slot) {
                    let j = self.slots@.index_of(slot);
                    assert(self.slots@[j] == slot);
                }
            }
            assert(by_slots@ =~= self.by_slots());
        }
        let sorted = slot_entries(&by_slots);
        let ghost before = out@;
        let ghost values = sorted@.map_values(|e: (i64, Value)| e.1);
        let mut j: usize = 0;
        while j < sorted.len()
            invariant
                j <= sorted.len(),
                values == sorted@.map_values(|e: (i64, Value)| e.1),
                out@ == before + values.take(j as int),
            decreases sorted.len() - j,
        {
            out.push(sorted[j].1);
            j += 1;
            assert(out@ =~= before + values.take(j as int));
        }
        assert(values.take(j as int) =~= values);
    }
}

/// The entries of `m` in the order of their slots.
fn slot_entries(m: &BTreeMap<i64, Value>) -> (r: Vec<(i64, Value)>)
    ensures
        r@ == ordered(m@, by_slot()),
{
    let mut r: Vec<(i64, Value)> = Vec::new();
    broadcast use vstd::std_specs::btree::group_btree_axioms;

    let it = m.iter();
    let ghost all = it.remaining();
    let ghost keys = all.map_values(|kv: (&i64, &Value)| *kv.0);
    for kv in iter: it
        invariant
            iter.seq() == all,
            r.len() == iter.index(),
            forall|j: int|
                0 <= j < iter.index() ==> (#[trigger] r@[j]) == (*all[j].0, *all[j].1),
    {
        r.push((*kv.0, *kv.1));
    }
    proof {
        assert(vstd::std_specs::btree::increasing_seq(keys));
        assert(vstd::laws_cmp::obeys_cmp::<i64>());
        assert forall|i: int, j: int| 0 <= i < j < r@.len() implies by_slot()(
            (#[trigger] r@[i]).0,
        ) < by_slot()((#[trigger] r@[j]).0) by {
            assert(keys[i] == r@[i].0 && keys[j] == r@[j].0);
            assert(keys[i].cmp_spec(&keys[j]) is Less);
        }
        assert forall|i: int| 0 <= i < r@.len() implies m@.contains_key((#[trigger] r@[i]).0)
            && m@[r@[i].0] == r@[i].1 by {
            assert(m@.contains_key(*all[i].0));
        }
        assert forall|k: i64| #[trigger] m@.contains_key(k) implies r@.contains((k, m@[k])) by {
            assert(all.contains((&k, &m@[k])));
            let i = choose|i: int| 0 <= i < all.len() && all[i] == (&k, &m@[k]);
            assert(r@[i] == (k, m@[k]));
        }
        ordered_is(r@, m@, by_slot());
    }
    r
}

/// Whether every argument is a map.
pub open spec fn all_maps<T>(args: Seq<Option<T>>) -> bool {
    forall|i: int| 0 <= i < args.len() ==> (#[trigger] args[i]) is Some
}

/// The values of the arguments by increasing slot, one map after the other.
pub open spec fn slot_values(args: Seq<Option<SlotMap>>) -> Seq<Value>
    decreases args.len(),
{
    if args.len() == 0 {
        Seq::empty()
    } else {
        slot_values(args.drop_last()) + args.last()->0.values_by_slot()
    }
}

/// Whether `m` sends each item of `s` to its number.
pub open spec fn is_numbering(m: Map<Value, i64>, s: Seq<Value>) -> bool {
    forall|v: Value| #[trigger]
        m.contains_key(v) == s.contains(v) && (s.contains(v) ==> m[v] == number_of(s, v))
}

/// A map to integers that are not values of the e-graph yet.
#[derive(Debug, PartialEq, Eq)]
pub struct ShapeMap {
    pub do_rebuild_keys: bool,
    pub do_rebuild_vals: bool,
    pub data: BTreeMap<Value, i64>,
}

/// `shape2`: maps the slots of the arguments to the slots of their common
/// shape, which are numbered as they are first seen.
#[derive(Clone, Copy, Debug, PartialEq, Eq)]
pub struct Shape {}

impl Shape {
    /// The name of the primitive.
    pub fn name(&self) -> (r: &'static str)
        ensures
            r@ == "shape2"@,
    {
        "shape2"
    }

    /// What the type checker has to know: nothing.
    pub fn get_type_constraints(&self, _span: &Span) -> (r: TypeConstraint)
        ensures
            r@ == TypeConstraintView::Unconstrained,
    {
        TypeConstraint::Unconstrained
    }

    /// Numbers the values of the arguments, which are read map by map and by
    /// increasing slot. There is no result where an argument is no map. The
    /// resulting map does not follow the e-graph.
    pub fn apply(&self, args: &Vec<Option<SlotMap>>) -> (r: Option<ShapeMap>)
        requires
            forall|i: int|
                0 <= i < args@.len() && (#[trigger] args@[i]) is Some ==> args@[i]->0.wf(),
        ensures
            r is Some <==> all_maps(args@),
            r matches Some(shape) ==> !shape.do_rebuild_keys && !shape.do_rebuild_vals
                && is_numbering(shape.data@, slot_values(args@)),
    {
        broadcast use vstd::std_specs::btree::group_btree_axioms;

        let mut values: Vec<Value> = Vec::new();
        let mut i: usize = 0;
        while i < args.len()
            invariant
                i <= args.len(),
                forall|j: int|
                    0 <= j < args@.len() && (#[trigger] args@[j]) is Some ==> args@[j]->0.wf(),
                all_maps(args@.take(i as int)),
                values@ == slot_values(args@.take(i as int)),
            decreases args.len() - i,
        {
            assert(args@.take(i + 1).drop_last() =~= args@.take(i as int));
            match &args[i] {
                Some(map) => {
                    map.push_values(&mut values);
                },
                None => {
                    assert(args@[i as int] is None);
                    return None;
                },
            }
            assert forall|j: int| 0 <= j < i + 1 implies (#[trigger] args@.take(
                i + 1,
            )[j]) is Some by {
                assert(j < i ==> args@.take(i as int)[j] is Some);
            }
            i += 1;
        }
        assert(args@.take(i as int) =~= args@);
        let mut out: BTreeMap<Value, i64> = BTreeMap::new();
        let mut count: i64 = 0;
        let mut j: usize = 0;
        assert(values@.take(0) =~= Seq::<Value>::empty());
        while j < values.len()
            invariant
                j <= values.len(),
                0 <= count <= 0x1_0000_0000,
                count == distinct(values@.take(j as int)).len(),
                is_numbering(out@, values@.take(j as int)),
            decreases values.len() - j,
        {
            let v: Value = values[j];
            let ghost seen = values@.take(j as int);
            let ghost before = out@;
            proof {
                assert(values@.take(j + 1) =~= seen.push(v));
                distinct_push(seen, v);
                number_after_push(seen, v);
                distinct_items(seen.push(v));
                values_are_few(distinct(seen.push(v)));
            }
            if !out.contains_key(&v) {
                out.insert(v, count);
                count += 1;
            }
            proof {
                assert forall|x: Value| #[trigger] out@.contains_key(x) == seen.push(v).contains(x)
                    && (seen.push(v).contains(x) ==> out@[x] == number_of(seen.push(v), x)) by {
                    assert(before.contains_key(x) == seen.contains(x));
                    assert(seen.push(v).contains(x) == (seen.contains(x) || x == v)) by {
                        if seen.contains(x) {
                            let p = seen.index_of(x);
                            assert(seen.push(v)[p] == x);
                        }
                        assert(seen.push(v)[j as int] == v);
                    }
                }
            }
            j += 1;
        }
        assert(values@.take(j as int) =~= values@);
        Some(ShapeMap { do_rebuild_keys: false, do_rebuild_vals: false, data: out })
    }
}

/// `inverse`: the inverse of a renaming.
#[derive(Clone, Copy, Debug, PartialEq, Eq)]
pub struct Inverse {}

impl Inverse {
    /// The name of the primitive.
    pub fn name(&self) -> (r: &'static str)
        ensures
            r@ == "inverse"@,
    {
        "inverse"
    }

    /// Argument and result have one sort.
    pub fn get_type_constraints(&self, span: &Span) -> (r: TypeConstraint)
        ensures
            r@ == (TypeConstraintView::AllEqual {
                name: "inverse"@,
                span: *span,
                all_arguments_sort: None,
            }),
    {
        TypeConstraint::AllEqual {
            name: String::from_str("inverse"),
            span: *span,
            all_arguments_sort: None,
        }
    }

    /// The inverse of the first argument; nothing where that is no map.
    pub fn apply(&self, args: &Vec<Option<MapContainer>>) -> (r: Option<MapContainer>)
        requires
            args@.len() >= 1,
        ensures
            match args@[0] {
                Some(m) => r matches Some(map) && map.is_fixed(inverted(m.data@)),
                None => r is None,
            },
    {
        match &args[0] {
            Some(m) => Some(MapContainer::fixed(inverse(&m.data))),
            None => None,
        }
    }
}

/// `compose`: `(compose m1 m2)` renames as `m2` does, and then as `m1` does.
#[derive(Clone, Copy, Debug, PartialEq, Eq)]
pub struct Compose {}

impl Compose {
    /// The name of the primitive.
    pub fn name(&self) -> (r: &'static str)
        ensures
            r@ == "compose"@,
    {
        "compose"
    }

    /// Arguments and result have one sort.
    pub fn get_type_constraints(&self, span: &Span) -> (r: TypeConstraint)
        ensures
            r@ == (TypeConstraintView::AllEqual {
                name: "compose"@,
                span: *span,
                all_arguments_sort: None,
            }),
    {
        TypeConstraint::AllEqual {
            name: String::from_str("compose"),
            span: *span,
            all_arguments_sort: None,
        }
    }

    /// The composition of the first two arguments; nothing where one of them is
    /// no map.
    pub fn apply(&self, args: &Vec<Option<MapContainer>>) -> (r: Option<MapContainer>)
        requires
            args@.len() >= 1,
            args@[0] is Some ==> args@.len() >= 2,
        ensures
            r is Some <==> args@[0] is Some && args@[1] is Some,
            r matches Some(map) ==> map.is_fixed(
                composed(args@[0]->0.data@, args@[1]->0.data@),
            ),
    {
        match &args[0] {
            Some(m1) => match &args[1] {
                Some(m2) => Some(MapContainer::fixed(compose(&m1.data, &m2.data))),
                None => None,
            },
            None => None,
        }
    }
}

impl MapContainer {
    /// Whether this is the map `m`, which does not follow the e-graph.
    pub open spec fn is_fixed(self, m: Renaming) -> bool {
        !self.do_rebuild_keys && !self.do_rebuild_vals && self.data@ == m
    }

    /// A map that does not follow the e-graph.
    fn fixed(data: BTreeMap<Value, Value>) -> (r: Self)
        ensures
            r.is_fixed(data@),
    {
        MapContainer { do_rebuild_keys: false, do_rebuild_vals: false, data }
    }
}

/// `find-mapping`: the renaming between two nodes that are the same up to
/// renaming on their children. See [`find_mapping_data`].
#[derive(Debug)]
pub struct FindMapping {
    /// The sort of the renamings.
    pub sort: ArcSort,
}

/// Whether the arguments that are paired with another are all maps.
pub open spec fn halves_are_maps(args: Seq<Option<MapContainer>>) -> bool {
    forall|i: int| 0 <= i < 2 * (args.len() / 2) ==> (#[trigger] args[i]) is Some
}

/// Each argument of the first half with that of the second half at the same
/// place. A last argument without a partner is left out.
pub open spec fn halves(args: Seq<Option<MapContainer>>) -> Pairs {
    Seq::new(
        args.len() / 2,
        |i: int| (args[i]->0.data@, args[args.len() / 2 + i]->0.data@),
    )
}

impl FindMapping {
    /// The name of the primitive.
    pub fn name(&self) -> (r: &'static str)
        ensures
            r@ == "find-mapping"@,
    {
        "find-mapping"
    }

    /// Arguments and result have the one sort that the primitive was registered
    /// for, which tells it from primitives of the same name on other containers.
    pub fn get_type_constraints(&self, span: &Span) -> (r: TypeConstraint)
        ensures
            r@ == (TypeConstraintView::AllEqual {
                name: "find-mapping"@,
                span: *span,
                all_arguments_sort: Some(self.sort),
            }),
    {
        TypeConstraint::AllEqual {
            name: String::from_str("find-mapping"),
            span: *span,
            all_arguments_sort: Some(self.sort.clone()),
        }
    }

    /// The renaming from the second half of the arguments to the first;
    /// nothing where an argument is no map or no such renaming exists.
    pub fn apply(&self, args: &Vec<Option<MapContainer>>) -> (r: Option<MapContainer>)
        ensures
            r is Some <==> halves_are_maps(args@) && mappable(halves(args@)),
            r matches Some(map) ==> map.is_fixed(map.data@) && is_forced_mapping(
                halves(args@),
                map.data@,
            ),
    {
        let half: usize = args.len() / 2;
        let mut pairs: Vec<(&BTreeMap<Value, Value>, &BTreeMap<Value, Value>)> = Vec::new();
        let mut i: usize = 0;
        while i < half
            invariant
                i <= half,
                half == args@.len() / 2,
                half + half <= args.len(),
                pair_views(pairs@) == halves(args@).take(i as int),
                forall|j: int| 0 <= j < i ==> (#[trigger] args@[j]) is Some,
                forall|j: int| half <= j < half + i ==> (#[trigger] args@[j]) is Some,
            decreases half - i,
        {
            let m1 = match &args[i] {
                Some(m1) => m1,
                None => {
                    assert(args@[i as int] is None);
                    return None;
                },
            };
            let m2 = match &args[half + i] {
                Some(m2) => m2,
                None => {
                    assert(args@[half + i] is None);
                    return None;
                },
            };
            let ghost before = pairs@;
            pairs.push((&m1.data, &m2.data));
            proof {
                let last = (m1.data@, m2.data@);
                assert(pairs@ == before.push((&m1.data, &m2.data)));
                assert(pair_views(pairs@) =~= pair_views(before).push(last));
                assert(halves(args@)[i as int] == last);
                assert(halves(args@).take(i + 1) =~= halves(args@).take(i as int).push(last));
            }
            i += 1;
        }
        assert(pair_views(pairs@) =~= halves(args@));
        match find_mapping_data(pairs.as_slice()) {
            Some(data) => Some(MapContainer::fixed(data)),
            None => None,
        }
    }
}

/// The entries of `m` in the order of their keys.
pub fn entries(m: &BTreeMap<Value, Value>) -> (r: Vec<(Value, Value)>)
    ensures
        r@ == entries_of(m@),
        is_entries(r@, m@),
        r@.len() == m@.len(),
{
    let mut r: Vec<(Value, Value)> = Vec::new();
    broadcast use vstd::std_specs::btree::group_btree_axioms;

    let it = m.iter();
    let ghost all = it.remaining();
    let ghost keys = all.map_values(|kv: (&Value, &Value)| *kv.0);
    for kv in iter: it
        invariant
            iter.seq() == all,
            r.len() == iter.index(),
            forall|j: int|
                0 <= j < iter.index() ==> (#[trigger] r@[j]) == (*all[j].0, *all[j].1),
    {
        r.push((*kv.0, *kv.1));
    }
    proof {
        assert(vstd::std_specs::btree::increasing_seq(keys));
        assert(vstd::laws_cmp::obeys_cmp::<Value>());
        assert forall|i: int, j: int| 0 <= i < j < r@.len() implies (#[trigger] r@[i]).0 < (
        #[trigger] r@[j]).0 by {
            assert(keys[i] == r@[i].0 && keys[j] == r@[j].0);
            assert(keys[i].cmp_spec(&keys[j]) is Less);
        }
        assert forall|i: int| 0 <= i < r@.len() implies m@.contains_key((#[trigger] r@[i]).0)
            && m@[r@[i].0] == r@[i].1 by {
            assert(m@.contains_key(*all[i].0));
        }
        assert forall|k: Value| #[trigger] m@.contains_key(k) implies r@.contains((k, m@[k])) by {
            assert(all.contains((&k, &m@[k])));
            let i = choose|i: int| 0 <= i < all.len() && all[i] == (&k, &m@[k]);
            assert(r@[i] == (k, m@[k]));
        }
        ordered_is(r@, m@, by_id());
    }
    r
}

/// Ordinary composition of partial maps: each entry `k -> v` of `m2` gives
/// `k -> m1[v]` where `m1` has an entry for `v`, and nothing elsewhere. A
/// missing key has no identity behaviour.
pub fn compose(m1: &BTreeMap<Value, Value>, m2: &BTreeMap<Value, Value>) -> (res: BTreeMap<
    Value,
    Value,
>)
    ensures
        res@ == composed(m1@, m2@),
{
    broadcast use vstd::std_specs::btree::group_btree_axioms;

    let mut res: BTreeMap<Value, Value> = BTreeMap::new();
    let all = entries(m2);
    let mut i: usize = 0;
    while i < all.len()
        invariant
            i <= all.len(),
            is_entries(all@, m2@),
            forall|k: Value| #[trigger]
                res@.contains_key(k) <==> composed(m1@, m2@).contains_key(k) && exists|j: int|
                    0 <= j < i && (#[trigger] all@[j]).0 == k,
            forall|k: Value| #[trigger]
                res@.contains_key(k) ==> res@[k] == composed(m1@, m2@)[k],
        decreases all.len() - i,
    {
        let ghost before = res@;
        let (k, inter) = all[i];
        assert(all@[i as int].0 == k);
        if let Some(final_v) = m1.get(&inter) {
            res.insert(k, *final_v);
        }
        i += 1;
    }
    proof {
        assert forall|k: Value| composed(m1@, m2@).contains_key(k) implies res@.contains_key(
            k,
        ) by {
            assert(all@.contains((k, m2@[k])));
            let j = choose|j: int| 0 <= j < all@.len() && all@[j] == (k, m2@[k]);
            assert(all@[j].0 == k);
        }
        assert(res@ =~= composed(m1@, m2@));
    }
    res
}

/// The inverse of the entries of `m1`. Where several keys have one value, the
/// greatest of them is kept.
pub fn inverse(m1: &BTreeMap<Value, Value>) -> (res: BTreeMap<Value, Value>)
    ensures
        res@ == inverted(m1@),
{
    broadcast use vstd::std_specs::btree::group_btree_axioms;

    let mut res: BTreeMap<Value, Value> = BTreeMap::new();
    let all = entries(m1);
    let mut i: usize = 0;
    while i < all.len()
        invariant
            i <= all.len(),
            is_entries(all@, m1@),
            forall|v: Value| #[trigger]
                res@.contains_key(v) <==> exists|j: int| 0 <= j < i && (#[trigger] all@[j]).1 == v,
            forall|v: Value| #[trigger]
                res@.contains_key(v) ==> m1@.contains_key(res@[v]) && m1@[res@[v]] == v,
            forall|v: Value, j: int|
                res@.contains_key(v) && 0 <= j < i && (#[trigger] all@[j]).1 == v ==> all@[j].0
                    <= #[trigger] res@[v],
        decreases all.len() - i,
    {
        let ghost before = res@;
        let (k, v) = all[i];
        assert(all@[i as int].1 == v && m1@.contains_key(k) && m1@[k] == v);
        res.insert(v, k);
        i += 1;
    }
    proof {
        assert forall|v: Value| #[trigger] res@.contains_key(v) == m1@.contains_value(v) && (
        res@.contains_key(v) ==> res@[v] == inverted(m1@)[v]) by {
            if m1@.contains_value(v) {
                let k = choose|k: Value| m1@.contains_key(k) && m1@[k] == v;
                assert(all@.contains((k, m1@[k])));
                let j = choose|j: int| 0 <= j < all@.len() && all@[j] == (k, m1@[k]);
                assert(all@[j].1 == v);
            }
            if res@.contains_key(v) {
                let top = res@[v];
                let p = sent_to(m1@, v);
                assert forall|other: Value| m1@.contains_key(other) && #[trigger] p(
                    other,
                ) implies other <= top by {
                    assert(all@.contains((other, m1@[other])));
                    let j = choose|j: int|
                        0 <= j < all@.len() && all@[j] == (other, m1@[other]);
                    assert(all@[j].1 == v);
                }
                assert(is_greatest_key(m1@, p, top));
                greatest_key_is(m1@, p, top);
            }
        }
        assert(res@ =~= inverted(m1@));
    }
    res
}

/// Whether two maps have the same keys.
fn have_same_keys(m1: &BTreeMap<Value, Value>, m2: &BTreeMap<Value, Value>) -> (r: bool)
    ensures
        r == (m1@.dom() == m2@.dom()),
{
    let r = keys_within(m1, m2) && keys_within(m2, m1);
    assert(r ==> m1@.dom() =~= m2@.dom());
    r
}

/// Whether every key of `m1` is one of `m2`.
fn keys_within(m1: &BTreeMap<Value, Value>, m2: &BTreeMap<Value, Value>) -> (r: bool)
    ensures
        r == m1@.dom().subset_of(m2@.dom()),
{
    broadcast use vstd::std_specs::btree::group_btree_axioms;

    let all = entries(m1);
    let mut i: usize = 0;
    while i < all.len()
        invariant
            i <= all.len(),
            is_entries(all@, m1@),
            forall|j: int| 0 <= j < i ==> m2@.contains_key((#[trigger] all@[j]).0),
        decreases all.len() - i,
    {
        if !m2.contains_key(&all[i].0) {
            assert(m1@.dom().contains(all@[i as int].0));
            assert(!m2@.dom().contains(all@[i as int].0));
            return false;
        }
        i += 1;
    }
    assert forall|k: Value| m1@.dom().contains(k) implies m2@.dom().contains(k) by {
        assert(m1@.contains_key(k));
        let j = choose|j: int| 0 <= j < all@.len() && all@[j] == (k, m1@[k]);
        assert(m2@.contains_key(all@[j].0));
    }
    true
}

/// What the pairs of maps stand for.
pub open spec fn pair_views(
    pairs: Seq<(&BTreeMap<Value, Value>, &BTreeMap<Value, Value>)>,
) -> Pairs {
    Seq::new(pairs.len(), |i: int| (pairs[i].0@, pairs[i].1@))
}

/// The renaming between two nodes that are the same up to renaming on their
/// children.
///
/// Each pair holds the renaming of one child in the first node and in the
/// second. The result `R` turns each second renaming into the first: for every
/// key `k` of a pair, `R` sends the second's value at `k` to the first's.
///
/// Renamings are explicit partial maps, so there is none
/// - when the maps of a pair have different keys,
/// - when a value of the second would have to go to two values, or
/// - when two values of the second would have to go to one.
pub fn find_mapping_data(
    pairs: &[(&BTreeMap<Value, Value>, &BTreeMap<Value, Value>)],
) -> (r: Option<BTreeMap<Value, Value>>)
    ensures
        r is Some <==> mappable(pair_views(pairs@)),
        r is Some ==> is_forced_mapping(pair_views(pairs@), r->0@),
{
    broadcast use vstd::std_specs::btree::group_btree_axioms;

    let ghost views = pair_views(pairs@);
    // From the second's values to the first's: what is returned.
    let mut mapping: BTreeMap<Value, Value> = BTreeMap::new();
    // From the first's values to the second's: finds values that would collapse.
    let mut back: BTreeMap<Value, Value> = BTreeMap::new();
    let mut i: usize = 0;
    while i < pairs.len()
        invariant
            i <= pairs.len(),
            views == pair_views(pairs@),
            forall|j: int| 0 <= j < i ==> (#[trigger] views[j]).0.dom() == views[j].1.dom(),
            mirrored(mapping@, back@),
            forall|from: Value| #[trigger]
                mapping@.contains_key(from) ==> forced(views, from, mapping@[from]),
            forall|j: int, k: Value, from: Value, to: Value|
                j < i && #[trigger] forced_at(views, j, k, from, to) ==> mapping@.contains_key(from)
                    && mapping@[from] == to,
        decreases pairs.len() - i,
    {
        let map1 = pairs[i].0;
        let map2 = pairs[i].1;
        assert(views[i as int] == (map1@, map2@));
        if !have_same_keys(map1, map2) {
            return None;
        }
        let all = entries(map1);
        let mut j: usize = 0;
        while j < all.len()
            invariant
                i < pairs.len(),
                j <= all.len(),
                views == pair_views(pairs@),
                views[i as int] == (map1@, map2@),
                map1@.dom() == map2@.dom(),
                is_entries(all@, map1@),
                mirrored(mapping@, back@),
                forall|from: Value| #[trigger]
                    mapping@.contains_key(from) ==> forced(views, from, mapping@[from]),
                forall|p: int, k: Value, from: Value, to: Value|
                    p < i && #[trigger] forced_at(views, p, k, from, to) ==> mapping@.contains_key(
                        from,
                    ) && mapping@[from] == to,
                forall|q: int|
                    0 <= q < j ==> mapping@.contains_key(map2@[(#[trigger] all@[q]).0])
                        && mapping@[map2@[all@[q].0]] == all@[q].1,
            decreases all.len() - j,
        {
            let (k, v_first) = all[j];
            assert(map1@.contains_key(k) && map1@[k] == v_first);
            assert(map1@.dom().contains(k));
            assert(map2@.contains_key(k));
            let v_second: Value = match map2.get(&k) {
                Some(v) => *v,
                None => { return None; },
            };
            proof {
                assert(forced_at(views, i as int, k, v_second, v_first));
                assert(forced(views, v_second, v_first));
            }
            let ghost before = mapping@;
            if let Some(prev) = mapping.insert(v_second, v_first) {
                if prev != v_first {
                    assert(forced(views, v_second, prev));
                    return None;
                }
            }
            if let Some(prev) = back.insert(v_first, v_second) {
                if prev != v_second {
                    assert(before.contains_key(prev) && before[prev] == v_first);
                    assert(forced(views, prev, v_first));
                    return None;
                }
            }
            j += 1;
        }
        proof {
            assert forall|p: int, k: Value, from: Value, to: Value|
                p < i + 1 && #[trigger] forced_at(
                    views,
                    p,
                    k,
                    from,
                    to,
                ) implies mapping@.contains_key(from) && mapping@[from] == to by {
                if p == i {
                    assert(all@.contains((k, map1@[k])));
                    let q = choose|q: int| 0 <= q < all@.len() && all@[q] == (k, map1@[k]);
                    assert(map2@[all@[q].0] == from);
                }
            }
        }
        i += 1;
    }
    proof {
        assert forall|from: Value, to: Value| #[trigger] forced(
            views,
            from,
            to,
        ) implies mapping@.contains_key(from) && mapping@[from] == to by {
            let (p, k) = choose|p: int, k: Value| forced_at(views, p, k, from, to);
            assert(forced_at(views, p, k, from, to));
        }
        assert(is_forced_mapping(views, mapping@));
        assert(forced_once(views));
        assert(forced_apart(views));
        assert(same_keys(views));
    }
    Some(mapping)
}

/// Whether two maps are each other's inverse.
pub open spec fn mirrored(m: Renaming, back: Renaming) -> bool {
    &&& forall|k: Value| #[trigger] m.contains_key(k) ==> back.contains_key(m[k]) && back[m[k]] == k
    &&& forall|v: Value| #[trigger]
        back.contains_key(v) ==> m.contains_key(back[v]) && m[back[v]] == v
}

} // verus!
