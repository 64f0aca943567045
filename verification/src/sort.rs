//! Sorts, the values of container sorts and the primitives they bring.

use std::collections::BTreeMap;
use std::sync::Arc;
use vstd::prelude::*;

use crate::ast::Span;
use crate::sort::map::{MapOp, MapSort};
use crate::sort::vec::{Union, VecMap, VecOp, VecSort};

pub mod behaviour;
pub mod laws;
pub mod map;
pub mod numbering;
pub mod operations;
pub mod registration;
pub mod renaming;
pub mod vec;

verus! {

/// The id of a value of the e-graph.
pub type Value = u32;

/// A shared sort.
pub type ArcSort = Arc<Sort>;

/// A sort, with what the container sorts read of it.
#[derive(Debug, PartialEq, Eq)]
pub enum Sort {
    /// A sort whose values are e-classes.
    EqSort(String),
    /// A sort of plain values, such as `i64`.
    BaseSort(String),
    MapSort(MapSort),
    VecSort(VecSort),
    FunctionSort(Arc<FunctionSort>),
    /// Any other container: its name, and whether its values hold e-classes.
    OtherContainer(String, bool),
}

/// A sort of function values.
#[derive(Debug, PartialEq, Eq)]
pub struct FunctionSort {
    pub name: String,
    pub inputs: Vec<ArcSort>,
    pub output: ArcSort,
    /// Whether a function value may hold e-classes.
    pub holds_eq_values: bool,
}

impl Sort {
    /// The name of the sort.
    pub open spec fn sort_name(&self) -> Seq<char> {
        match *self {
            Sort::EqSort(name) => name@,
            Sort::BaseSort(name) => name@,
            Sort::MapSort(sort) => sort.name@,
            Sort::VecSort(sort) => sort.name@,
            Sort::FunctionSort(sort) => sort.name@,
            Sort::OtherContainer(name, _) => name@,
        }
    }

    /// Whether the values of a container hold e-classes, at any depth.
    pub open spec fn holds_eq(&self) -> bool
        decreases self,
    {
        match *self {
            Sort::EqSort(_) => false,
            Sort::BaseSort(_) => false,
            Sort::MapSort(sort) => (*sort.key) is EqSort || (*sort.value) is EqSort
                || sort.key.holds_eq() || sort.value.holds_eq(),
            Sort::VecSort(sort) => (*sort.element) is EqSort || sort.element.holds_eq(),
            Sort::FunctionSort(sort) => sort.holds_eq_values,
            Sort::OtherContainer(_, holds) => holds,
        }
    }

    /// Whether rebuilding the e-graph may change a value of this sort.
    pub open spec fn rebuilds(&self) -> bool {
        self is EqSort || self.holds_eq()
    }

    /// The name of the sort.
    pub fn name(&self) -> (r: &String)
        ensures
            r@ == self.sort_name(),
    {
        match self {
            Sort::EqSort(name) => name,
            Sort::BaseSort(name) => name,
            Sort::MapSort(sort) => &sort.name,
            Sort::VecSort(sort) => &sort.name,
            Sort::FunctionSort(sort) => &sort.name,
            Sort::OtherContainer(name, _) => name,
        }
    }

    /// Whether the values of the sort are e-classes.
    pub fn is_eq_sort(&self) -> (r: bool)
        ensures
            r == (self is EqSort),
    {
        match self {
            Sort::EqSort(_) => true,
            _ => false,
        }
    }

    /// Whether the values of the sort are containers that hold e-classes.
    pub fn is_eq_container_sort(&self) -> (r: bool)
        ensures
            r == self.holds_eq(),
        decreases self,
    {
        match self {
            Sort::EqSort(_) => false,
            Sort::BaseSort(_) => false,
            Sort::MapSort(sort) => sort.key.is_eq_sort() || sort.value.is_eq_sort()
                || sort.key.is_eq_container_sort() || sort.value.is_eq_container_sort(),
            Sort::VecSort(sort) => sort.element.is_eq_sort()
                || sort.element.is_eq_container_sort(),
            Sort::FunctionSort(sort) => sort.holds_eq_values,
            Sort::OtherContainer(_, holds) => *holds,
        }
    }
}

/// The declared sorts, in the order of their declaration.
#[derive(Debug)]
pub struct TypeInfo {
    pub sorts: Vec<ArcSort>,
}

/// Whether a sort with this name is among `sorts`.
pub open spec fn declared(sorts: Seq<ArcSort>, name: Seq<char>) -> bool {
    exists|i: int| 0 <= i < sorts.len() && (#[trigger] sorts[i]).sort_name() == name
}

/// The first of `sorts` with this name.
pub open spec fn sort_named(sorts: Seq<ArcSort>, name: Seq<char>) -> Option<ArcSort>
    decreases sorts.len(),
{
    if sorts.len() == 0 {
        None
    } else if sorts[0].sort_name() == name {
        Some(sorts[0])
    } else {
        sort_named(sorts.skip(1), name)
    }
}

/// A name has a sort exactly when it is declared, and that sort has the name.
pub proof fn sort_named_is_declared(sorts: Seq<ArcSort>, name: Seq<char>)
    ensures
        sort_named(sorts, name) is Some <==> declared(sorts, name),
        sort_named(sorts, name) is Some ==> sorts.contains(sort_named(sorts, name)->0)
            && sort_named(sorts, name)->0.sort_name() == name,
    decreases sorts.len(),
{
    if sorts.len() > 0 {
        if sorts[0].sort_name() != name {
            let rest = sorts.skip(1);
            sort_named_is_declared(rest, name);
            if declared(rest, name) {
                let i = choose|i: int|
                    0 <= i < rest.len() && (#[trigger] rest[i]).sort_name() == name;
                assert(sorts[i + 1].sort_name() == name);
                let j = choose|j: int|
                    0 <= j < rest.len() && rest[j] == sort_named(rest, name)->0;
                assert(sorts[j + 1] == sort_named(rest, name)->0);
            }
            if declared(sorts, name) {
                let i = choose|i: int|
                    0 <= i < sorts.len() && (#[trigger] sorts[i]).sort_name() == name;
                assert(rest[i - 1].sort_name() == name);
            }
        }
    }
}

impl TypeInfo {
    /// The sort declared under `name`.
    pub fn get_sort_by_name(&self, name: &String) -> (r: Option<ArcSort>)
        ensures
            r == sort_named(self.sorts@, name@),
    {
        let mut i: usize = 0;
        assert(self.sorts@.skip(0) =~= self.sorts@);
        while i < self.sorts.len()
            invariant
                i <= self.sorts.len(),
                sort_named(self.sorts@, name@) == sort_named(self.sorts@.skip(i as int), name@),
            decreases self.sorts.len() - i,
        {
            if *self.sorts[i].name() == *name {
                return Some(self.sorts[i].clone());
            }
            assert(self.sorts@.skip(i as int).skip(1) =~= self.sorts@.skip(i + 1));
            i += 1;
        }
        None
    }

    /// The declared sorts of vectors, in the order of their declaration.
    pub fn vec_sorts(&self) -> (r: Vec<ArcSort>)
        ensures
            r@ == self.sorts@.filter(|sort: ArcSort| (*sort) is VecSort),
    {
        let ghost is_vec = |sort: ArcSort| (*sort) is VecSort;
        let mut r: Vec<ArcSort> = Vec::new();
        let mut i: usize = 0;
        proof {
            reveal(Seq::filter);
        }
        assert(self.sorts@.take(0) =~= Seq::<ArcSort>::empty());
        while i < self.sorts.len()
            invariant
                i <= self.sorts.len(),
                is_vec == (|sort: ArcSort| (*sort) is VecSort),
                r@ == self.sorts@.take(i as int).filter(is_vec),
            decreases self.sorts.len() - i,
        {
            proof {
                reveal(Seq::filter);
            }
            assert(self.sorts@.take(i + 1).drop_last() =~= self.sorts@.take(i as int));
            match &*self.sorts[i] {
                Sort::VecSort(_) => {
                    r.push(self.sorts[i].clone());
                },
                _ => {},
            }
            i += 1;
        }
        assert(self.sorts@.take(i as int) =~= self.sorts@);
        r
    }

    /// The declared sorts of functions, in the order of their declaration.
    pub fn function_sorts(&self) -> (r: Vec<Arc<FunctionSort>>)
        ensures
            r@ == function_sorts(self.sorts@),
    {
        let mut r: Vec<Arc<FunctionSort>> = Vec::new();
        let mut i: usize = 0;
        assert(self.sorts@.take(0) =~= Seq::<ArcSort>::empty());
        while i < self.sorts.len()
            invariant
                i <= self.sorts.len(),
                r@ == function_sorts(self.sorts@.take(i as int)),
            decreases self.sorts.len() - i,
        {
            assert(self.sorts@.take(i + 1).drop_last() =~= self.sorts@.take(i as int));
            match &*self.sorts[i] {
                Sort::FunctionSort(sort) => {
                    r.push(sort.clone());
                },
                _ => {},
            }
            i += 1;
        }
        assert(self.sorts@.take(i as int) =~= self.sorts@);
        r
    }
}

/// The sorts of functions among `sorts`, in order.
pub open spec fn function_sorts(sorts: Seq<ArcSort>) -> Seq<Arc<FunctionSort>>
    decreases sorts.len(),
{
    if sorts.len() == 0 {
        Seq::empty()
    } else {
        let before = function_sorts(sorts.drop_last());
        match *sorts.last() {
            Sort::FunctionSort(sort) => before.push(sort),
            _ => before,
        }
    }
}

/// The texts of a list of names.
pub open spec fn names_of(names: Seq<&'static str>) -> Seq<Seq<char>> {
    Seq::new(names.len(), |i: int| names[i]@)
}

/// Why a sort could not be made.
#[derive(Debug, PartialEq, Eq)]
pub enum TypeError {
    /// The name is not that of a sort.
    UndefinedSort(String, Span),
}

/// What the type checker has to know of a primitive.
#[derive(Debug)]
pub enum TypeConstraint {
    /// Anything goes.
    Unconstrained,
    /// All arguments and the output have one sort, which may be fixed.
    AllEqual { name: String, span: Span, all_arguments_sort: Option<ArcSort> },
    /// The sorts of the arguments, then the sort of the output.
    Simple { name: String, sorts: Vec<ArcSort>, span: Span },
}

/// A type constraint, with names as character sequences.
pub enum TypeConstraintView {
    Unconstrained,
    AllEqual { name: Seq<char>, span: Span, all_arguments_sort: Option<ArcSort> },
    Simple { name: Seq<char>, sorts: Seq<ArcSort>, span: Span },
}

impl View for TypeConstraint {
    type V = TypeConstraintView;

    open spec fn view(&self) -> TypeConstraintView {
        match *self {
            TypeConstraint::Unconstrained => TypeConstraintView::Unconstrained,
            TypeConstraint::AllEqual { name, span, all_arguments_sort } => {
                TypeConstraintView::AllEqual { name: name@, span, all_arguments_sort }
            },
            TypeConstraint::Simple { name, sorts, span } => TypeConstraintView::Simple {
                name: name@,
                sorts: sorts@,
                span,
            },
        }
    }
}

/// An argument or the result of a primitive.
#[derive(Debug, PartialEq, Eq)]
pub enum Operand {
    /// A value of this sort.
    Of(ArcSort),
    /// An integer.
    I64,
    /// Nothing: the primitive is a test.
    Unit,
}

/// The arguments and the result of a primitive.
#[derive(Debug)]
pub struct Signature {
    pub inputs: Vec<Operand>,
    /// Whether the one input may be given any number of times.
    pub variadic: bool,
    pub output: Operand,
    /// Whether the primitive may have no result.
    pub partial: bool,
}

/// A primitive of the e-graph.
#[derive(Debug)]
pub enum Primitive {
    /// An operation on maps, for one sort of maps.
    MapOp(MapOp, MapSort),
    /// An operation on vectors, for one sort of vectors.
    VecOp(VecOp, VecSort),
    MapShape(map::Shape),
    MapInverse(map::Inverse),
    MapCompose(map::Compose),
    MapFindMapping(map::FindMapping),
    VecUnion(Union),
    VecMap(VecMap),
    VecShape(vec::Shape),
    VecFindMapping(vec::FindMapping),
    VecApplyMapping(vec::ApplyMapping),
}

/// The part of the e-graph that sorts register their primitives with.
#[derive(Debug)]
pub struct EGraph {
    pub type_info: TypeInfo,
    /// The registered primitives, in the order of their registration.
    pub primitives: Vec<Primitive>,
}

/// What rebuilding turns each value into: its leader where it has one, itself
/// elsewhere.
#[derive(Debug)]
pub struct Rebuilder {
    pub leaders: BTreeMap<Value, Value>,
}

impl Rebuilder {
    /// What `v` is rebuilt to.
    pub open spec fn rebuilt(self, v: Value) -> Value {
        if self.leaders@.contains_key(v) {
            self.leaders@[v]
        } else {
            v
        }
    }

    /// The values, each rebuilt.
    pub open spec fn all_rebuilt(self, values: Seq<Value>) -> Seq<Value> {
        Seq::new(values.len(), |i: int| self.rebuilt(values[i]))
    }

    /// Rebuilds one value.
    pub fn rebuild_val(&self, v: Value) -> (r: Value)
        ensures
            r == self.rebuilt(v),
    {
        match self.leaders.get(&v) {
            Some(leader) => *leader,
            None => v,
        }
    }

    /// Rebuilds each of `values` and says whether any of them changed.
    pub fn rebuild_slice(&self, values: &mut Vec<Value>) -> (changed: bool)
        ensures
            final(values)@ == self.all_rebuilt(old(values)@),
            changed == (self.all_rebuilt(old(values)@) != old(values)@),
    {
        let ghost before = values@;
        let mut changed = false;
        let mut i: usize = 0;
        assert(self.all_rebuilt(before.take(0)) =~= before.take(0));
        while i < values.len()
            invariant
                i <= values.len(),
                values.len() == before.len(),
                values@ == self.all_rebuilt(before.take(i as int)) + before.skip(i as int),
                changed == (self.all_rebuilt(before.take(i as int)) != before.take(i as int)),
            decreases values.len() - i,
        {
            let value: Value = values[i];
            let new: Value = self.rebuild_val(value);
            proof {
                let done = before.take(i as int);
                let next = before.take(i + 1);
                assert(next =~= done.push(value));
                assert(self.all_rebuilt(next) =~= self.all_rebuilt(done).push(new));
                assert(self.all_rebuilt(next).drop_last() =~= self.all_rebuilt(done));
                assert(next.drop_last() =~= done);
                assert(self.all_rebuilt(next).last() == new);
                assert(next.last() == value);
                assert(self.all_rebuilt(done) == done && new == value ==> self.all_rebuilt(next)
                    == next);
            }
            if value != new {
                changed = true;
            }
            values[i] = new;
            assert(values@ =~= self.all_rebuilt(before.take(i + 1)) + before.skip(i + 1));
            i += 1;
        }
        assert(before.take(i as int) =~= before);
        assert(values@ =~= self.all_rebuilt(before));
        changed
    }
}

} // verus!
