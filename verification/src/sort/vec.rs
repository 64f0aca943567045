//! Vectors of values, their sort and their primitives.
//!
//! Besides the ordinary vector operations there are those that read a vector
//! of integers as a renaming: `shape`, `find-mapping` and `apply-mapping`.

use std::collections::BTreeMap;
use std::sync::Arc;
use vstd::prelude::*;
use vstd::string::*;

use crate::ast::{clone_exprs, exprs, make_call, Expr, ExprView, Span};
use crate::sort::numbering::{
    distinct, distinct_items, distinct_push, number_after_push, number_of, same_aliasing, shape_of,
    shape_push, values_are_few,
};
use crate::sort::{
    names_of, sort_named, ArcSort, EGraph, FunctionSort, Operand, Primitive, Rebuilder, Signature,
    Sort, TypeConstraint, TypeConstraintView, TypeError, TypeInfo, Value,
};

verus! {

/// A vector value: what it holds, and whether its items follow the e-graph when
/// classes are merged.
#[derive(Debug, PartialEq, Eq, Hash)]
pub struct VecContainer {
    pub do_rebuild: bool,
    pub data: Vec<Value>,
}

impl VecContainer {
    /// Replaces the items by their leaders, if they follow the e-graph, and
    /// says whether anything changed.
    pub fn rebuild_contents(&mut self, rebuilder: &Rebuilder) -> (changed: bool)
        ensures
            final(self).do_rebuild == old(self).do_rebuild,
            final(self).data@ == if old(self).do_rebuild {
                rebuilder.all_rebuilt(old(self).data@)
            } else {
                old(self).data@
            },
            changed == (final(self).data@ != old(self).data@),
    {
        if self.do_rebuild {
            rebuilder.rebuild_slice(&mut self.data)
        } else {
            false
        }
    }

    /// The items, in order.
    pub fn iter(&self) -> (r: Vec<Value>)
        ensures
            r@ == self.data@,
    {
        self.data.clone()
    }
}

impl Clone for VecContainer {
    fn clone(&self) -> (r: Self)
        ensures
            r.do_rebuild == self.do_rebuild,
            r.data@ == self.data@,
    {
        VecContainer { do_rebuild: self.do_rebuild, data: self.data.clone() }
    }
}

/// A sort of vectors of one sort.
#[derive(Debug, PartialEq, Eq)]
pub struct VecSort {
    pub name: String,
    pub element: ArcSort,
}

impl Clone for VecSort {
    fn clone(&self) -> (r: Self)
        ensures
            r == *self,
    {
        VecSort { name: self.name.clone(), element: self.element.clone() }
    }
}

/// The primitives that a sort of vectors reserves the names of.
pub open spec fn reserved_vec_primitives() -> Seq<Seq<char>> {
    seq![
        "vec-of"@,
        "vec-append"@,
        "vec-empty"@,
        "vec-push"@,
        "vec-pop"@,
        "vec-not-contains"@,
        "vec-contains"@,
        "vec-length"@,
        "vec-get"@,
        "vec-set"@,
        "vec-remove"@,
        "vec-union"@,
        "vec-range"@,
        "unstable-vec-map"@,
    ]
}

/// The term that a vector with these items is printed as.
pub open spec fn vec_term(elements: Seq<ExprView>) -> ExprView {
    ExprView::Call(
        Span::Generated,
        if elements.len() == 0 {
            "vec-empty"@
        } else {
            "vec-of"@
        },
        elements,
    )
}

impl VecSort {
    /// The sort of the items.
    pub fn element(&self) -> (r: ArcSort)
        ensures
            r == self.element,
    {
        self.element.clone()
    }

    /// The name that vector sorts are declared with.
    pub fn presort_name() -> (r: &'static str)
        ensures
            r@ == "Vec"@,
    {
        "Vec"
    }

    /// The primitives that a sort of vectors reserves the names of.
    pub fn reserved_primitives() -> (r: Vec<&'static str>)
        ensures
            names_of(r@) == reserved_vec_primitives(),
    {
        let r: Vec<&'static str> =
            vec![
            "vec-of",
            "vec-append",
            "vec-empty",
            "vec-push",
            "vec-pop",
            "vec-not-contains",
            "vec-contains",
            "vec-length",
            "vec-get",
            "vec-set",
            "vec-remove",
            "vec-union",
            "vec-range",
            "unstable-vec-map",
        ];
        assert(names_of(r@) =~= reserved_vec_primitives());
        r
    }

    /// Makes the sort `name` of vectors of the sort that `args` names; fails
    /// where that is not declared.
    pub fn make_sort(typeinfo: &TypeInfo, name: String, args: &[Expr]) -> (r: Result<
        ArcSort,
        TypeError,
    >)
        requires
            args@.len() == 1,
            args@[0] is Var,
        ensures
            match sort_named(typeinfo.sorts@, args@[0]->Var_1@) {
                None => r == Err::<ArcSort, TypeError>(
                    TypeError::UndefinedSort(args@[0]->Var_1, args@[0]->Var_0),
                ),
                Some(element) => r matches Ok(sort) && *sort == Sort::VecSort(
                    VecSort { name, element },
                ),
            },
    {
        match &args[0] {
            Expr::Var(span, e) => {
                match typeinfo.get_sort_by_name(e) {
                    Some(element) => Ok(Arc::new(Sort::VecSort(VecSort { name, element }))),
                    None => Err(TypeError::UndefinedSort(e.clone(), *span)),
                }
            },
            _ => vstd::pervasive::unreached(),
        }
    }

    /// The name of the sort.
    pub fn name(&self) -> (r: &String)
        ensures
            *r == self.name,
    {
        &self.name
    }

    /// The sort of what the vectors hold.
    pub fn inner_sorts(&self) -> (r: Vec<ArcSort>)
        ensures
            r@ == seq![self.element],
    {
        let r = vec![self.element.clone()];
        assert(r@ =~= seq![self.element]);
        r
    }

    /// Whether the vectors hold e-classes, at any depth.
    pub fn is_eq_container_sort(&self) -> (r: bool)
        ensures
            r == self.element.rebuilds(),
            r == Sort::VecSort(*self).holds_eq(),
    {
        self.element.is_eq_sort() || self.element.is_eq_container_sort()
    }

    /// The items of a vector with their sort, in order.
    pub fn inner_values(&self, val: &VecContainer) -> (r: Vec<(ArcSort, Value)>)
        ensures
            r@ == val.data@.map_values(|e: Value| (self.element, e)),
    {
        let mut r: Vec<(ArcSort, Value)> = Vec::new();
        let mut i: usize = 0;
        while i < val.data.len()
            invariant
                i <= val.data.len(),
                r@ == val.data@.take(i as int).map_values(|e: Value| (self.element, e)),
            decreases val.data.len() - i,
        {
            r.push((self.element.clone(), val.data[i]));
            i += 1;
            assert(r@ =~= val.data@.take(i as int).map_values(|e: Value| (self.element, e)));
        }
        assert(val.data@.take(i as int) =~= val.data@);
        r
    }

    /// The term that a vector is printed as, from the terms of its items.
    pub fn reconstruct_termdag(&self, element_terms: &Vec<Expr>) -> (r: Expr)
        ensures
            r@ == vec_term(exprs(element_terms@)),
    {
        let head = if element_terms.len() == 0 {
            String::from_str("vec-empty")
        } else {
            String::from_str("vec-of")
        };
        make_call(Span::Generated, head, clone_exprs(element_terms))
    }

    /// The name that vectors are serialized under.
    pub fn serialized_name(&self) -> (r: String)
        ensures
            r@ == "vec-of"@,
    {
        String::from_str("vec-of")
    }
}

// ---------------------------------------------------------------------------
// Primitives of one sort of vectors
// ---------------------------------------------------------------------------
/// A primitive on the vectors of one sort.
#[derive(Clone, Copy, Debug, PartialEq, Eq)]
pub enum VecOp {
    Empty,
    Of,
    Append,
    Push,
    Pop,
    Length,
    Contains,
    NotContains,
    Get,
    /// Replaces the item at an index.
    Put,
    Remove,
    Range,
}

/// The name of a primitive on vectors.
pub open spec fn vec_op_name(op: VecOp) -> Seq<char> {
    match op {
        VecOp::Empty => "vec-empty"@,
        VecOp::Of => "vec-of"@,
        VecOp::Append => "vec-append"@,
        VecOp::Push => "vec-push"@,
        VecOp::Pop => "vec-pop"@,
        VecOp::Length => "vec-length"@,
        VecOp::Contains => "vec-contains"@,
        VecOp::NotContains => "vec-not-contains"@,
        VecOp::Get => "vec-get"@,
        VecOp::Put => "vec-set"@,
        VecOp::Remove => "vec-remove"@,
        VecOp::Range => "vec-range"@,
    }
}

/// The arguments of a primitive on the vectors of `sort`.
pub open spec fn vec_op_inputs(op: VecOp, sort: VecSort) -> Seq<Operand> {
    let vec = Operand::Of(Arc::new(Sort::VecSort(sort)));
    let element = Operand::Of(sort.element);
    match op {
        VecOp::Empty => seq![],
        VecOp::Of => seq![element],
        VecOp::Append => seq![vec],
        VecOp::Push => seq![vec, element],
        VecOp::Pop => seq![vec],
        VecOp::Length => seq![vec],
        VecOp::Contains => seq![vec, element],
        VecOp::NotContains => seq![vec, element],
        VecOp::Get => seq![vec, Operand::I64],
        VecOp::Put => seq![vec, Operand::I64, element],
        VecOp::Remove => seq![vec, Operand::I64],
        VecOp::Range => seq![Operand::I64],
    }
}

/// The result of a primitive on the vectors of `sort`.
pub open spec fn vec_op_output(op: VecOp, sort: VecSort) -> Operand {
    match op {
        VecOp::Length => Operand::I64,
        VecOp::Contains => Operand::Unit,
        VecOp::NotContains => Operand::Unit,
        VecOp::Get => Operand::Of(sort.element),
        _ => Operand::Of(Arc::new(Sort::VecSort(sort))),
    }
}

impl VecOp {
    /// The name of the primitive.
    pub fn name(&self) -> (r: &'static str)
        ensures
            r@ == vec_op_name(*self),
    {
        match self {
            VecOp::Empty => "vec-empty",
            VecOp::Of => "vec-of",
            VecOp::Append => "vec-append",
            VecOp::Push => "vec-push",
            VecOp::Pop => "vec-pop",
            VecOp::Length => "vec-length",
            VecOp::Contains => "vec-contains",
            VecOp::NotContains => "vec-not-contains",
            VecOp::Get => "vec-get",
            VecOp::Put => "vec-set",
            VecOp::Remove => "vec-remove",
            VecOp::Range => "vec-range",
        }
    }

    /// What the primitive takes and gives, on the vectors of `sort`.
    pub fn signature(&self, sort: &VecSort) -> (r: Signature)
        ensures
            r.inputs@ == vec_op_inputs(*self, *sort),
            r.variadic == (self is Of || self is Append),
            r.output == vec_op_output(*self, *sort),
            r.partial == (self is Contains || self is NotContains || self is Get),
    {
        let vec: ArcSort = Arc::new(Sort::VecSort(sort.clone()));
        let mut inputs: Vec<Operand> = Vec::new();
        match self {
            VecOp::Empty => {},
            VecOp::Of => {
                inputs.push(Operand::Of(sort.element()));
            },
            VecOp::Range => {
                inputs.push(Operand::I64);
            },
            _ => {
                inputs.push(Operand::Of(vec.clone()));
            },
        }
        match self {
            VecOp::Push | VecOp::Contains | VecOp::NotContains => {
                inputs.push(Operand::Of(sort.element()));
            },
            VecOp::Get | VecOp::Remove => {
                inputs.push(Operand::I64);
            },
            VecOp::Put => {
                inputs.push(Operand::I64);
                inputs.push(Operand::Of(sort.element()));
            },
            _ => {},
        }
        let variadic = match self {
            VecOp::Of | VecOp::Append => true,
            _ => false,
        };
        let output = match self {
            VecOp::Length => Operand::I64,
            VecOp::Contains | VecOp::NotContains => Operand::Unit,
            VecOp::Get => Operand::Of(sort.element()),
            _ => Operand::Of(vec),
        };
        let partial = match self {
            VecOp::Contains | VecOp::NotContains | VecOp::Get => true,
            _ => false,
        };
        assert(inputs@ =~= vec_op_inputs(*self, *sort));
        Signature { inputs, variadic, output, partial }
    }
}

/// A vector of integers that are not values of the e-graph yet.
#[derive(Debug, PartialEq, Eq)]
pub struct IntVec {
    pub do_rebuild: bool,
    pub data: Vec<i64>,
}

/// Where `vec-range` ends: an end that is no index is taken as zero.
pub open spec fn range_end(end: i64) -> nat {
    if 0 <= end <= usize::MAX {
        end as nat
    } else {
        0
    }
}

/// The items of the vectors, one vector after the other.
pub open spec fn appended(xs: Seq<VecContainer>) -> Seq<Value>
    decreases xs.len(),
{
    if xs.len() == 0 {
        Seq::empty()
    } else {
        appended(xs.drop_last()) + xs.last().data@
    }
}

impl VecSort {
    /// `vec-empty`: the empty vector of this sort.
    pub fn vec_empty(&self) -> (r: VecContainer)
        ensures
            r.do_rebuild == self.element.rebuilds(),
            r.data@ == Seq::<Value>::empty(),
    {
        VecContainer { do_rebuild: self.is_eq_container_sort(), data: Vec::new() }
    }

    /// `vec-of`: the vector of the arguments.
    pub fn vec_of(&self, xs: &Vec<Value>) -> (r: VecContainer)
        ensures
            r.do_rebuild == self.element.rebuilds(),
            r.data@ == xs@,
    {
        VecContainer { do_rebuild: self.is_eq_container_sort(), data: xs.clone() }
    }

    /// `vec-append`: the items of all arguments.
    pub fn vec_append(&self, xs: &Vec<VecContainer>) -> (r: VecContainer)
        ensures
            r.do_rebuild == self.element.rebuilds(),
            r.data@ == appended(xs@),
    {
        VecContainer { do_rebuild: self.is_eq_container_sort(), data: append_all(xs) }
    }

    /// `vec-range`: the integers from zero up to `end`.
    pub fn vec_range(&self, end: i64) -> (r: IntVec)
        ensures
            r.do_rebuild == self.element.rebuilds(),
            r.data@ == Seq::new(range_end(end), |i: int| i as i64),
    {
        let end: i64 = if end >= 0 && end as u64 <= usize::MAX as u64 {
            end
        } else {
            0
        };
        let mut data: Vec<i64> = Vec::new();
        let mut i: i64 = 0;
        while i < end
            invariant
                0 <= i <= end,
                data@ == Seq::new(i as nat, |j: int| j as i64),
            decreases end - i,
        {
            data.push(i);
            i += 1;
            assert(data@ =~= Seq::new(i as nat, |j: int| j as i64));
        }
        IntVec { do_rebuild: self.is_eq_container_sort(), data }
    }
}

/// The items of the vectors, one vector after the other.
fn append_all(xs: &Vec<VecContainer>) -> (r: Vec<Value>)
    ensures
        r@ == appended(xs@),
{
    let mut r: Vec<Value> = Vec::new();
    let mut i: usize = 0;
    assert(xs@.take(0) =~= Seq::<VecContainer>::empty());
    while i < xs.len()
        invariant
            i <= xs.len(),
            r@ == appended(xs@.take(i as int)),
        decreases xs.len() - i,
    {
        assert(xs@.take(i + 1).drop_last() =~= xs@.take(i as int));
        let mut data = xs[i].data.clone();
        r.append(&mut data);
        i += 1;
    }
    assert(xs@.take(i as int) =~= xs@);
    r
}

/// `vec-push`: the vector with `x` behind its items.
pub fn vec_push(xs: VecContainer, x: Value) -> (r: VecContainer)
    ensures
        r.do_rebuild == xs.do_rebuild,
        r.data@ == xs.data@.push(x),
{
    let mut xs = xs;
    xs.data.push(x);
    xs
}

/// `vec-pop`: the vector without its last item, if it has one.
pub fn vec_pop(xs: VecContainer) -> (r: VecContainer)
    ensures
        r.do_rebuild == xs.do_rebuild,
        r.data@ == if xs.data@.len() > 0 {
            xs.data@.drop_last()
        } else {
            xs.data@
        },
{
    let mut xs = xs;
    let _ = xs.data.pop();
    xs
}

/// `vec-length`: the number of items.
pub fn vec_length(xs: &VecContainer) -> (r: i64)
    ensures
        r == xs.data@.len() as i64,
{
    xs.data.len() as i64
}

/// Whether `x` is an item.
fn holds(xs: &VecContainer, x: Value) -> (r: bool)
    ensures
        r == xs.data@.contains(x),
{
    let mut i: usize = 0;
    while i < xs.data.len()
        invariant
            i <= xs.data.len(),
            forall|j: int| 0 <= j < i ==> xs.data@[j] != x,
        decreases xs.data.len() - i,
    {
        if xs.data[i] == x {
            return true;
        }
        i += 1;
    }
    false
}

/// `vec-contains`: succeeds where `x` is an item.
pub fn vec_contains(xs: &VecContainer, x: Value) -> (r: Option<()>)
    ensures
        r is Some <==> xs.data@.contains(x),
{
    if holds(xs, x) {
        Some(())
    } else {
        None
    }
}

/// `vec-not-contains`: succeeds where `x` is not an item.
pub fn vec_not_contains(xs: &VecContainer, x: Value) -> (r: Option<()>)
    ensures
        r is Some <==> !xs.data@.contains(x),
{
    if holds(xs, x) {
        None
    } else {
        Some(())
    }
}

/// `vec-get`: the item at index `i`, if there is one.
pub fn vec_get(xs: &VecContainer, i: i64) -> (r: Option<Value>)
    ensures
        r == if 0 <= i < xs.data@.len() {
            Some(xs.data@[i as int])
        } else {
            None
        },
{
    if i >= 0 && (i as u64) < xs.data.len() as u64 {
        Some(xs.data[i as usize])
    } else {
        None
    }
}

/// `vec-set`: the vector with `x` at index `i`.
pub fn vec_set(xs: VecContainer, i: i64, x: Value) -> (r: VecContainer)
    requires
        0 <= i < xs.data@.len(),
    ensures
        r.do_rebuild == xs.do_rebuild,
        r.data@ == xs.data@.update(i as int, x),
{
    assert(i < xs.data.len());
    let mut xs = xs;
    xs.data.set(i as usize, x);
    xs
}

/// `vec-remove`: the vector without the item at index `i`.
pub fn vec_remove(xs: VecContainer, i: i64) -> (r: VecContainer)
    requires
        0 <= i < xs.data@.len(),
    ensures
        r.do_rebuild == xs.do_rebuild,
        r.data@ == xs.data@.remove(i as int),
{
    assert(i < xs.data.len());
    let mut xs = xs;
    let _ = xs.data.remove(i as usize);
    xs
}

// ---------------------------------------------------------------------------
// Registration
// ---------------------------------------------------------------------------
/// The sort of the items of a sort of vectors.
pub open spec fn element_of(sort: ArcSort) -> ArcSort {
    (*sort)->VecSort_0.element
}

/// Whether a function takes the items of one sort of vectors to those of
/// another.
pub open spec fn maps_between(fn_: FunctionSort, input_vec: ArcSort, output_vec: ArcSort) -> bool {
    &&& fn_.inputs@.len() == 1
    &&& fn_.inputs@[0].sort_name() == element_of(input_vec).sort_name()
    &&& fn_.output.sort_name() == element_of(output_vec).sort_name()
}

/// The primitive that maps a function over vectors, if the function fits.
pub open spec fn vec_map_between(
    fn_: Arc<FunctionSort>,
    input_vec: ArcSort,
    output_vec: ArcSort,
) -> Seq<Primitive> {
    if maps_between(*fn_, input_vec, output_vec) {
        seq![Primitive::VecMap(VecMap { vec: input_vec, output_vec, fn_ })]
    } else {
        seq![]
    }
}

/// The primitives that map one function between `vec` and each of `vecs`.
pub open spec fn vec_maps_with(
    fn_: Arc<FunctionSort>,
    vecs: Seq<ArcSort>,
    vec: ArcSort,
) -> Seq<Primitive>
    decreases vecs.len(),
{
    if vecs.len() == 0 {
        Seq::empty()
    } else {
        let other = vecs.last();
        vec_maps_with(fn_, vecs.drop_last(), vec) + vec_map_between(fn_, other, vec) + (
        if other.sort_name() != vec.sort_name() {
            vec_map_between(fn_, vec, other)
        } else {
            seq![]
        })
    }
}

/// The primitives that map each of `fns` between `vec` and each of `vecs`.
pub open spec fn all_vec_maps_with(
    fns: Seq<Arc<FunctionSort>>,
    vecs: Seq<ArcSort>,
    vec: ArcSort,
) -> Seq<Primitive>
    decreases fns.len(),
{
    if fns.len() == 0 {
        Seq::empty()
    } else {
        all_vec_maps_with(fns.drop_last(), vecs, vec) + vec_maps_with(fns.last(), vecs, vec)
    }
}

/// The primitives that map a function from `input_vec` to each of `vecs`.
pub open spec fn vec_maps_from(
    fn_: Arc<FunctionSort>,
    input_vec: ArcSort,
    vecs: Seq<ArcSort>,
) -> Seq<Primitive>
    decreases vecs.len(),
{
    if vecs.len() == 0 {
        Seq::empty()
    } else {
        vec_maps_from(fn_, input_vec, vecs.drop_last()) + vec_map_between(
            fn_,
            input_vec,
            vecs.last(),
        )
    }
}

/// The primitives that map a function from each of `inputs` to each of `vecs`.
pub open spec fn vec_maps_among(
    fn_: Arc<FunctionSort>,
    inputs: Seq<ArcSort>,
    vecs: Seq<ArcSort>,
) -> Seq<Primitive>
    decreases inputs.len(),
{
    if inputs.len() == 0 {
        Seq::empty()
    } else {
        vec_maps_among(fn_, inputs.drop_last(), vecs) + vec_maps_from(fn_, inputs.last(), vecs)
    }
}

/// The declared sorts of vectors.
pub open spec fn vec_sorts(sorts: Seq<ArcSort>) -> Seq<ArcSort> {
    sorts.filter(|sort: ArcSort| (*sort) is VecSort)
}

/// The primitives that a sort of vectors registers, in order. `vec-union` is
/// only there for vectors of e-classes, and `vec-range` for vectors of integers.
pub open spec fn vec_primitives(sort: VecSort, sorts: Seq<ArcSort>) -> Seq<Primitive> {
    let vec = Arc::new(Sort::VecSort(sort));
    seq![
        Primitive::VecOp(VecOp::Empty, sort),
        Primitive::VecOp(VecOp::Of, sort),
        Primitive::VecOp(VecOp::Append, sort),
        Primitive::VecOp(VecOp::Push, sort),
        Primitive::VecOp(VecOp::Pop, sort),
        Primitive::VecOp(VecOp::Length, sort),
        Primitive::VecOp(VecOp::Contains, sort),
        Primitive::VecOp(VecOp::NotContains, sort),
        Primitive::VecOp(VecOp::Get, sort),
        Primitive::VecOp(VecOp::Put, sort),
        Primitive::VecOp(VecOp::Remove, sort),
    ] + (if (*sort.element) is EqSort {
        seq![Primitive::VecUnion(Union { vec })]
    } else {
        seq![]
    }) + (if sort.element.sort_name() == "i64"@ {
        seq![Primitive::VecOp(VecOp::Range, sort)]
    } else {
        seq![]
    }) + all_vec_maps_with(crate::sort::function_sorts(sorts), vec_sorts(sorts), vec) + seq![
        Primitive::VecShape(Shape {  }),
        Primitive::VecFindMapping(FindMapping {  }),
        Primitive::VecApplyMapping(ApplyMapping {  }),
    ]
}

impl VecSort {
    /// Registers the primitives of the sort, among them those that map a
    /// declared function between this sort and a declared sort of vectors.
    pub fn register_primitives(&self, eg: &mut EGraph)
        ensures
            final(eg).type_info == old(eg).type_info,
            final(eg).primitives@ == old(eg).primitives@ + vec_primitives(
                *self,
                old(eg).type_info.sorts@,
            ),
    {
        let ghost before = eg.primitives@;
        let ghost sorts = eg.type_info.sorts@;
        let arc: ArcSort = Arc::new(Sort::VecSort(self.clone()));
        eg.primitives.push(Primitive::VecOp(VecOp::Empty, self.clone()));
        eg.primitives.push(Primitive::VecOp(VecOp::Of, self.clone()));
        eg.primitives.push(Primitive::VecOp(VecOp::Append, self.clone()));
        eg.primitives.push(Primitive::VecOp(VecOp::Push, self.clone()));
        eg.primitives.push(Primitive::VecOp(VecOp::Pop, self.clone()));
        eg.primitives.push(Primitive::VecOp(VecOp::Length, self.clone()));
        eg.primitives.push(Primitive::VecOp(VecOp::Contains, self.clone()));
        eg.primitives.push(Primitive::VecOp(VecOp::NotContains, self.clone()));
        eg.primitives.push(Primitive::VecOp(VecOp::Get, self.clone()));
        eg.primitives.push(Primitive::VecOp(VecOp::Put, self.clone()));
        eg.primitives.push(Primitive::VecOp(VecOp::Remove, self.clone()));
        if self.element.is_eq_sort() {
            eg.primitives.push(Primitive::VecUnion(Union { vec: arc.clone() }));
        }
        if *self.element.name() == String::from_str("i64") {
            eg.primitives.push(Primitive::VecOp(VecOp::Range, self.clone()));
        }
        let ghost plain = eg.primitives@;
        let all_vec_sorts = eg.type_info.vec_sorts();
        let fn_sorts = eg.type_info.function_sorts();
        let mut i: usize = 0;
        assert(fn_sorts@.take(0) =~= Seq::<Arc<FunctionSort>>::empty());
        while i < fn_sorts.len()
            invariant
                i <= fn_sorts.len(),
                *arc == Sort::VecSort(*self),
                all_vec_sorts@ == vec_sorts(sorts),
                eg.type_info == old(eg).type_info,
                eg.primitives@ =~= plain + all_vec_maps_with(
                    fn_sorts@.take(i as int),
                    all_vec_sorts@,
                    arc,
                ),
            decreases fn_sorts.len() - i,
        {
            assert(fn_sorts@.take(i + 1).drop_last() =~= fn_sorts@.take(i as int));
            register_vec_maps_with(eg, &fn_sorts[i], &all_vec_sorts, &arc);
            i += 1;
        }
        assert(fn_sorts@.take(i as int) =~= fn_sorts@);
        eg.primitives.push(Primitive::VecShape(Shape {  }));
        eg.primitives.push(Primitive::VecFindMapping(FindMapping {  }));
        eg.primitives.push(Primitive::VecApplyMapping(ApplyMapping {  }));
        assert(eg.primitives@ =~= before + vec_primitives(*self, sorts));
    }
}

/// Registers the primitives that map one function between `vec` and each of
/// `vecs`.
fn register_vec_maps_with(
    eg: &mut EGraph,
    fn_: &Arc<FunctionSort>,
    vecs: &Vec<ArcSort>,
    vec: &ArcSort,
)
    requires
        (**vec) is VecSort,
        forall|i: int| 0 <= i < vecs@.len() ==> (*(#[trigger] vecs@[i])) is VecSort,
    ensures
        final(eg).type_info == old(eg).type_info,
        final(eg).primitives@ == old(eg).primitives@ + vec_maps_with(*fn_, vecs@, *vec),
{
    let ghost before = eg.primitives@;
    let mut i: usize = 0;
    assert(vecs@.take(0) =~= Seq::<ArcSort>::empty());
    while i < vecs.len()
        invariant
            i <= vecs.len(),
            (**vec) is VecSort,
            forall|j: int| 0 <= j < vecs@.len() ==> (*(#[trigger] vecs@[j])) is VecSort,
            eg.type_info == old(eg).type_info,
            eg.primitives@ =~= before + vec_maps_with(*fn_, vecs@.take(i as int), *vec),
        decreases vecs.len() - i,
    {
        assert(vecs@.take(i + 1).drop_last() =~= vecs@.take(i as int));
        try_registering_vec_map(eg, fn_.clone(), vecs[i].clone(), vec.clone());
        if *vecs[i].name() != *vec.name() {
            try_registering_vec_map(eg, fn_.clone(), vec.clone(), vecs[i].clone());
        }
        i += 1;
    }
    assert(vecs@.take(i as int) =~= vecs@);
}

/// Registers the primitive that maps a function over vectors, if the function
/// takes the items of the one sort of vectors to those of the other.
pub fn try_registering_vec_map(
    eg: &mut EGraph,
    fn_: Arc<FunctionSort>,
    input_vec: ArcSort,
    output_vec: ArcSort,
)
    requires
        (*input_vec) is VecSort,
        (*output_vec) is VecSort,
    ensures
        final(eg).type_info == old(eg).type_info,
        final(eg).primitives@ == old(eg).primitives@ + vec_map_between(fn_, input_vec, output_vec),
{
    let fits = match (&*input_vec, &*output_vec) {
        (Sort::VecSort(input), Sort::VecSort(output)) => {
            fn_.inputs.len() == 1 && *fn_.inputs[0].name() == *input.element.name()
                && *fn_.output.name() == *output.element.name()
        },
        _ => false,
    };
    if fits {
        eg.primitives.push(Primitive::VecMap(VecMap { vec: input_vec, output_vec, fn_ }));
    }
    assert(eg.primitives@ =~= old(eg).primitives@ + vec_map_between(fn_, input_vec, output_vec));
}

/// Registers the primitives that map a function from any declared sort of
/// vectors to any other.
pub fn register_vec_primitives_for_function(eg: &mut EGraph, fn_: Arc<FunctionSort>)
    ensures
        final(eg).type_info == old(eg).type_info,
        final(eg).primitives@ == old(eg).primitives@ + vec_maps_among(
            fn_,
            vec_sorts(old(eg).type_info.sorts@),
            vec_sorts(old(eg).type_info.sorts@),
        ),
{
    let ghost before = eg.primitives@;
    let all_vec_sorts = eg.type_info.vec_sorts();
    let mut i: usize = 0;
    assert(all_vec_sorts@.take(0) =~= Seq::<ArcSort>::empty());
    while i < all_vec_sorts.len()
        invariant
            i <= all_vec_sorts.len(),
            all_vec_sorts@ == vec_sorts(old(eg).type_info.sorts@),
            eg.type_info == old(eg).type_info,
            eg.primitives@ =~= before + vec_maps_among(
                fn_,
                all_vec_sorts@.take(i as int),
                all_vec_sorts@,
            ),
        decreases all_vec_sorts.len() - i,
    {
        let ghost outer = eg.primitives@;
        assert(all_vec_sorts@.take(i + 1).drop_last() =~= all_vec_sorts@.take(i as int));
        let mut j: usize = 0;
        assert(all_vec_sorts@.take(0) =~= Seq::<ArcSort>::empty());
        while j < all_vec_sorts.len()
            invariant
                i < all_vec_sorts.len(),
                j <= all_vec_sorts.len(),
                all_vec_sorts@ == vec_sorts(old(eg).type_info.sorts@),
                eg.type_info == old(eg).type_info,
                eg.primitives@ =~= outer + vec_maps_from(
                    fn_,
                    all_vec_sorts@[i as int],
                    all_vec_sorts@.take(j as int),
                ),
            decreases all_vec_sorts.len() - j,
        {
            assert(all_vec_sorts@.take(j + 1).drop_last() =~= all_vec_sorts@.take(j as int));
            try_registering_vec_map(
                eg,
                fn_.clone(),
                all_vec_sorts[i].clone(),
                all_vec_sorts[j].clone(),
            );
            j += 1;
        }
        assert(all_vec_sorts@.take(j as int) =~= all_vec_sorts@);
        i += 1;
    }
    assert(all_vec_sorts@.take(i as int) =~= all_vec_sorts@);
}

/// `unstable-vec-map`: maps a function over the items of a vector and drops
/// those where it is undefined.
#[derive(Debug)]
pub struct VecMap {
    pub vec: ArcSort,
    pub output_vec: ArcSort,
    pub fn_: Arc<FunctionSort>,
}

/// The results that there are, in order.
pub open spec fn defined(results: Seq<Option<Value>>) -> Seq<Value>
    decreases results.len(),
{
    if results.len() == 0 {
        Seq::empty()
    } else {
        match results.last() {
            Some(v) => defined(results.drop_last()).push(v),
            None => defined(results.drop_last()),
        }
    }
}

/// Whether the function may give these results for the items, one for each.
pub open spec fn mapped_by<F: Fn(Value) -> Option<Value>>(
    f: F,
    items: Seq<Value>,
    results: Seq<Option<Value>>,
) -> bool {
    &&& results.len() == items.len()
    &&& forall|i: int|
        0 <= i < items.len() ==> call_ensures(f, (items[i],), #[trigger] results[i])
}

impl VecMap {
    /// The name of the primitive.
    pub fn name(&self) -> (r: &'static str)
        ensures
            r@ == "unstable-vec-map"@,
    {
        "unstable-vec-map"
    }

    /// Takes the function and the vector, gives the other vector.
    pub fn get_type_constraints(&self, span: &Span) -> (r: TypeConstraint)
        ensures
            r@ == (TypeConstraintView::Simple {
                name: "unstable-vec-map"@,
                sorts: seq![Arc::new(Sort::FunctionSort(self.fn_)), self.vec, self.output_vec],
                span: *span,
            }),
    {
        let fn_sort: ArcSort = Arc::new(Sort::FunctionSort(self.fn_.clone()));
        let sorts = vec![fn_sort, self.vec.clone(), self.output_vec.clone()];
        assert(sorts@ =~= seq![
            Arc::new(Sort::FunctionSort(self.fn_)),
            self.vec,
            self.output_vec,
        ]);
        TypeConstraint::Simple { name: String::from_str("unstable-vec-map"), sorts, span: *span }
    }

    /// Maps the function over the items of the vector, in order, and drops those
    /// where it gives nothing.
    pub fn apply(&self, vec: &VecContainer, f: impl Fn(Value) -> Option<Value>) -> (r: Option<
        VecContainer,
    >)
        requires
            forall|i: int|
                0 <= i < vec.data@.len() ==> call_requires(f, (#[trigger] vec.data@[i],)),
        ensures
            r matches Some(out) && out.do_rebuild == self.output_vec.holds_eq() && exists|
                results: Seq<Option<Value>>,
            | #[trigger]
                mapped_by(f, vec.data@, results) && out.data@ == defined(results),
    {
        let mut results: Vec<Option<Value>> = Vec::new();
        let mut i: usize = 0;
        while i < vec.data.len()
            invariant
                i <= vec.data.len(),
                results@.len() == i,
                forall|j: int|
                    0 <= j < vec.data@.len() ==> call_requires(f, (#[trigger] vec.data@[j],)),
                forall|j: int|
                    0 <= j < i ==> call_ensures(f, (vec.data@[j],), #[trigger] results@[j]),
            decreases vec.data.len() - i,
        {
            let v: Value = vec.data[i];
            assert(v == vec.data@[i as int]);
            results.push(f(v));
            i += 1;
        }
        assert(mapped_by(f, vec.data@, results@));
        self.collect(&results)
    }

    /// The vector of what the function gave for the items of a vector, where it
    /// gave something: for a caller that has called the function itself.
    pub fn collect(&self, results: &Vec<Option<Value>>) -> (r: Option<VecContainer>)
        ensures
            r matches Some(vec) && vec.do_rebuild == self.output_vec.holds_eq() && vec.data@
                == defined(results@),
    {
        let mut data: Vec<Value> = Vec::new();
        let mut i: usize = 0;
        assert(results@.take(0) =~= Seq::<Option<Value>>::empty());
        while i < results.len()
            invariant
                i <= results.len(),
                data@ == defined(results@.take(i as int)),
            decreases results.len() - i,
        {
            assert(results@.take(i + 1).drop_last() =~= results@.take(i as int));
            if let Some(mapped) = results[i] {
                data.push(mapped);
            }
            i += 1;
        }
        assert(results@.take(i as int) =~= results@);
        Some(VecContainer { do_rebuild: self.output_vec.is_eq_container_sort(), data })
    }
}

/// `vec-union`: unites the items of two vectors of e-classes one by one. The
/// vectors must have the same length.
#[derive(Debug)]
pub struct Union {
    pub vec: ArcSort,
}

/// The items of two vectors at the same places.
pub open spec fn paired(left: Seq<Value>, right: Seq<Value>) -> Seq<(Value, Value)> {
    Seq::new(left.len(), |i: int| (left[i], right[i]))
}

impl Union {
    /// The name of the primitive.
    pub fn name(&self) -> (r: &'static str)
        ensures
            r@ == "vec-union"@,
    {
        "vec-union"
    }

    /// Arguments and result have the sort that the primitive was registered
    /// for.
    pub fn get_type_constraints(&self, span: &Span) -> (r: TypeConstraint)
        ensures
            r@ == (TypeConstraintView::Simple {
                name: "vec-union"@,
                sorts: seq![self.vec, self.vec, self.vec],
                span: *span,
            }),
    {
        let sorts = vec![self.vec.clone(), self.vec.clone(), self.vec.clone()];
        assert(sorts@ =~= seq![self.vec, self.vec, self.vec]);
        TypeConstraint::Simple { name: String::from_str("vec-union"), sorts, span: *span }
    }

    /// What the arguments `args` come to, given the vectors that they are: the
    /// result, which is the first of them, and the pairs of e-classes to be
    /// united, in order. Nothing where one of them is no vector or the lengths
    /// differ.
    pub fn apply(&self, args: &Vec<Value>, vecs: &Vec<Option<VecContainer>>) -> (r: Option<
        (Value, Vec<(Value, Value)>),
    >)
        requires
            args@.len() >= 1,
            vecs@.len() >= 1,
            vecs@[0] is Some ==> vecs@.len() >= 2,
        ensures
            r is Some <==> vecs@[0] is Some && vecs@[1] is Some && vecs@[0]->0.data@.len()
                == vecs@[1]->0.data@.len(),
            r matches Some((result, unions)) ==> result == args@[0] && unions@ == paired(
                vecs@[0]->0.data@,
                vecs@[1]->0.data@,
            ),
    {
        let left = match &vecs[0] {
            Some(vec) => &vec.data,
            None => {
                return None;
            },
        };
        let right = match &vecs[1] {
            Some(vec) => &vec.data,
            None => {
                return None;
            },
        };
        if left.len() != right.len() {
            return None;
        }
        let mut unions: Vec<(Value, Value)> = Vec::new();
        let mut i: usize = 0;
        while i < left.len()
            invariant
                i <= left.len(),
                left@.len() == right@.len(),
                unions@ == paired(left@.take(i as int), right@.take(i as int)),
            decreases left.len() - i,
        {
            unions.push((left[i], right[i]));
            i += 1;
            assert(unions@ =~= paired(left@.take(i as int), right@.take(i as int)));
        }
        assert(left@.take(i as int) =~= left@);
        assert(right@.take(i as int) =~= right@);
        Some((args[0], unions))
    }
}

// ---------------------------------------------------------------------------
// Primitives on renamings
// ---------------------------------------------------------------------------
impl IntVec {
    /// Integers that do not follow the e-graph.
    fn fixed(data: Vec<i64>) -> (r: Self)
        ensures
            !r.do_rebuild,
            r.data@ == data@,
    {
        IntVec { do_rebuild: false, data }
    }
}

/// `shape`: the shape of renamings, in which their values start from zero and
/// increase by one when a new value is seen.
///
/// `[b] [a]` and `[y] [z]` both have the shape `[0, 1]`: each passes one slot
/// to the first child and another to the second. `[b, a, b] [a, a]` and
/// `[y, z, y] [z, z]` both have the shape `[0, 1, 0, 1, 1]`.
#[derive(Clone, Copy, Debug, PartialEq, Eq)]
pub struct Shape {}

impl Shape {
    /// The name of the primitive.
    pub fn name(&self) -> (r: &'static str)
        ensures
            r@ == "shape"@,
    {
        "shape"
    }

    /// Arguments and result have one sort.
    pub fn get_type_constraints(&self, span: &Span) -> (r: TypeConstraint)
        ensures
            r@ == (TypeConstraintView::AllEqual {
                name: "shape"@,
                span: *span,
                all_arguments_sort: None,
            }),
    {
        TypeConstraint::AllEqual {
            name: String::from_str("shape"),
            span: *span,
            all_arguments_sort: None,
        }
    }

    /// The shape of the arguments, which are read one after the other.
    pub fn apply(&self, args: &Vec<VecContainer>) -> (r: Option<IntVec>)
        ensures
            r matches Some(shape) && !shape.do_rebuild && ints(shape.data@) == shape_of(
                appended(args@),
            ),
    {
        broadcast use vstd::std_specs::btree::group_btree_axioms;

        let values = append_all(args);
        let mut counter: i64 = 0;
        let mut mapping: BTreeMap<Value, i64> = BTreeMap::new();
        let mut shape: Vec<i64> = Vec::new();
        let mut i: usize = 0;
        assert(values@.take(0) =~= Seq::<Value>::empty());
        assert(ints(shape@) =~= shape_of(values@.take(0)));
        while i < values.len()
            invariant
                i <= values.len(),
                0 <= counter <= 0x1_0000_0000,
                counter == distinct(values@.take(i as int)).len(),
                forall|v: Value| #[trigger]
                    mapping@.contains_key(v) == values@.take(i as int).contains(v),
                forall|v: Value| #[trigger]
                    mapping@.contains_key(v) ==> mapping@[v] == number_of(
                        values@.take(i as int),
                        v,
                    ),
                ints(shape@) == shape_of(values@.take(i as int)),
            decreases values.len() - i,
        {
            let v: Value = values[i];
            let ghost seen = values@.take(i as int);
            let ghost before = mapping@;
            let ghost shape_before = shape@;
            proof {
                assert(values@.take(i + 1) =~= seen.push(v));
                distinct_push(seen, v);
                number_after_push(seen, v);
                shape_push(seen, v);
                distinct_items(seen.push(v));
                values_are_few(distinct(seen.push(v)));
                assert(before.contains_key(v) == seen.contains(v));
            }
            let mapped: i64 = match mapping.get(&v) {
                Some(n) => *n,
                None => {
                    let n: i64 = counter;
                    counter += 1;
                    mapping.insert(v, n);
                    n
                },
            };
            shape.push(mapped);
            proof {
                assert forall|x: Value| #[trigger]
                    mapping@.contains_key(x) == seen.push(v).contains(x) && (
                    mapping@.contains_key(x) ==> mapping@[x] == number_of(seen.push(v), x)) by {
                    assert(before.contains_key(x) == seen.contains(x));
                    assert(seen.push(v).contains(x) == (seen.contains(x) || x == v)) by {
                        if seen.contains(x) {
                            let p = seen.index_of(x);
                            assert(seen.push(v)[p] == x);
                        }
                        assert(seen.push(v)[i as int] == v);
                    }
                }
                assert(ints(shape@) =~= ints(shape_before).push(mapped as int));
            }
            i += 1;
        }
        assert(values@.take(i as int) =~= values@);
        Some(IntVec::fixed(shape))
    }
}

/// The integers, without their bounds.
pub open spec fn ints(s: Seq<i64>) -> Seq<int> {
    s.map_values(|n: i64| n as int)
}

/// The items of the vectors, one vector after the other.
pub open spec fn joined(vecs: Seq<Vec<i64>>) -> Seq<i64>
    decreases vecs.len(),
{
    if vecs.len() == 0 {
        Seq::empty()
    } else {
        joined(vecs.drop_last()) + vecs.last()@
    }
}

/// The items of the vectors from `start` up to `end`, one vector after the
/// other.
fn join(vecs: &Vec<Vec<i64>>, start: usize, end: usize) -> (r: Vec<i64>)
    requires
        start <= end <= vecs@.len(),
    ensures
        r@ == joined(vecs@.subrange(start as int, end as int)),
{
    let mut r: Vec<i64> = Vec::new();
    let mut i: usize = start;
    assert(vecs@.subrange(start as int, start as int) =~= Seq::<Vec<i64>>::empty());
    while i < end
        invariant
            start <= i <= end <= vecs@.len(),
            r@ == joined(vecs@.subrange(start as int, i as int)),
        decreases end - i,
    {
        assert(vecs@.subrange(start as int, i + 1).drop_last() =~= vecs@.subrange(
            start as int,
            i as int,
        ));
        let mut data = vecs[i].clone();
        r.append(&mut data);
        i += 1;
    }
    r
}

/// The vectors of the first half of the arguments.
pub open spec fn first_half(args: Seq<Vec<i64>>) -> Seq<Vec<i64>> {
    args.subrange(0, (args.len() / 2) as int)
}

/// The vectors of the second half of the arguments. A last argument without a
/// partner is left out.
pub open spec fn second_half(args: Seq<Vec<i64>>) -> Seq<Vec<i64>> {
    args.subrange((args.len() / 2) as int, (2 * (args.len() / 2)) as int)
}

/// Whether vectors at the same place of the two halves have the same length.
pub open spec fn same_lengths(first: Seq<Vec<i64>>, second: Seq<Vec<i64>>) -> bool {
    &&& first.len() == second.len()
    &&& forall|i: int| 0 <= i < first.len() ==> (#[trigger] first[i])@.len() == second[i]@.len()
}

/// Whether the items are the integers from zero up to some bound, in any order.
pub open spec fn is_dense(s: Seq<i64>) -> bool {
    forall|v: i64| #[trigger] s.contains(v) <==> 0 <= v < distinct(s).len()
}

/// Whether there is a mapping from the second half of the arguments to the
/// first.
pub open spec fn has_mapping(args: Seq<Vec<i64>>) -> bool {
    &&& same_lengths(first_half(args), second_half(args))
    &&& same_aliasing(joined(second_half(args)), joined(first_half(args)))
    &&& is_dense(joined(second_half(args)))
}

/// Whether `r` sends each item of the second half to the item of the first half
/// at the same place, and nothing else.
pub open spec fn is_mapping(args: Seq<Vec<i64>>, r: Seq<i64>) -> bool {
    let first = joined(first_half(args));
    let second = joined(second_half(args));
    &&& r.len() == distinct(second).len()
    &&& forall|i: int| 0 <= i < second.len() ==> r[(#[trigger] second[i]) as int] == first[i]
}

/// `find-mapping`: the mapping between two nodes that are the same up to
/// renaming on their children.
///
/// The arguments are the renamings of the first node, followed by those of the
/// second. The result `r` turns each renaming of the second node into that of
/// the first: `(apply-mapping second[i] r) == first[i]`. It lists the first's
/// values by the second's values.
///
/// There is none
/// - when the second repeats a value where the first does not,
/// - when the first repeats a value where the second does not,
/// - when two paired vectors have different lengths, or
/// - when the values of the second are not the integers from zero up to some
///   bound, as they are in a shape.
///
/// For the first `[0, 1, 0] [1, 2]` and the second `[1, 2, 1] [2, 0]` the
/// result is `[2, 0, 1]`.
#[derive(Clone, Copy, Debug, PartialEq, Eq)]
pub struct FindMapping {}

impl FindMapping {
    /// The name of the primitive.
    pub fn name(&self) -> (r: &'static str)
        ensures
            r@ == "find-mapping"@,
    {
        "find-mapping"
    }

    /// Arguments and result have one sort. The constraint goes by the name of
    /// `shape`.
    pub fn get_type_constraints(&self, span: &Span) -> (r: TypeConstraint)
        ensures
            r@ == (TypeConstraintView::AllEqual {
                name: "shape"@,
                span: *span,
                all_arguments_sort: None,
            }),
    {
        TypeConstraint::AllEqual {
            name: String::from_str("shape"),
            span: *span,
            all_arguments_sort: None,
        }
    }

    /// The mapping from the second half of the arguments to the first, if there
    /// is one.
    pub fn apply(&self, args: &Vec<Vec<i64>>) -> (r: Option<IntVec>)
        ensures
            r is Some <==> has_mapping(args@),
            r matches Some(mapping) ==> !mapping.do_rebuild && is_mapping(args@, mapping.data@),
    {
        broadcast use vstd::std_specs::btree::group_btree_axioms;

        let half: usize = args.len() / 2;
        let mut i: usize = 0;
        while i < half
            invariant
                i <= half,
                half == args@.len() / 2,
                half + half <= args.len(),
                forall|j: int|
                    0 <= j < i ==> (#[trigger] first_half(args@)[j])@.len() == second_half(
                        args@,
                    )[j]@.len(),
            decreases half - i,
        {
            if args[i].len() != args[half + i].len() {
                assert(first_half(args@)[i as int]@.len() != second_half(args@)[i as int]@.len());
                return None;
            }
            i += 1;
        }
        let first = join(args, 0, half);
        let second = join(args, half, half + half);
        proof {
            joined_lengths(first_half(args@), second_half(args@));
        }
        let mapping = match collect_mapping(&first, &second) {
            Some(mapping) => mapping,
            None => {
                return None;
            },
        };
        proof {
            mapping_size(mapping@, first@, second@);
        }
        if second.len() == 0 {
            assert(mapping@.len() == 0);
            return Some(IntVec::fixed(Vec::new()));
        }
        let (min, max) = bounds(&second);
        proof {
            dense_by_bounds(second@, min, max);
        }
        if min != 0 || max as u64 + 1 != mapping.len() as u64 {
            return None;
        }
        let mut data: Vec<i64> = Vec::new();
        let mut next: i64 = 0;
        while next < max
            invariant
                0 <= next <= max,
                data@.len() == next,
                is_dense(second@),
                max + 1 == distinct(second@).len(),
                is_items_mapping(mapping@, first@, second@),
                forall|v: i64| 0 <= v < next ==> data@[v as int] == #[trigger] mapping@[v],
            decreases max - next,
        {
            assert(second@.contains(next));
            assert(mapping@.contains_key(next));
            push_mapped(&mut data, &mapping, next);
            next += 1;
        }
        assert(second@.contains(next));
        assert(mapping@.contains_key(next));
        push_mapped(&mut data, &mapping, next);
        proof {
            assert forall|i: int| 0 <= i < second@.len() implies data@[(
            #[trigger] second@[i]) as int] == first@[i] by {
                assert(second@.contains(second@[i]));
                assert(mapping@[second@[i]] == first@[i]);
            }
        }
        Some(IntVec::fixed(data))
    }
}

/// Appends what `mapping` sends `key` to.
fn push_mapped(data: &mut Vec<i64>, mapping: &BTreeMap<i64, i64>, key: i64)
    requires
        mapping@.contains_key(key),
    ensures
        final(data)@ == old(data)@.push(mapping@[key]),
{
    broadcast use vstd::std_specs::btree::group_btree_axioms;

    if let Some(v) = mapping.get(&key) {
        data.push(*v);
    }
}

/// Whether `mapping` sends each item of `second` to the item of `first` at the
/// same place, and nothing else.
pub open spec fn is_items_mapping(
    mapping: Map<i64, i64>,
    first: Seq<i64>,
    second: Seq<i64>,
) -> bool {
    &&& forall|v: i64| #[trigger] mapping.contains_key(v) <==> second.contains(v)
    &&& forall|i: int| 0 <= i < second.len() ==> mapping[#[trigger] second[i]] == first[i]
}

/// The mapping from the items of `second` to those of `first` at the same
/// places, if they repeat their items at the same places.
fn collect_mapping(first: &Vec<i64>, second: &Vec<i64>) -> (r: Option<BTreeMap<i64, i64>>)
    requires
        first@.len() == second@.len(),
    ensures
        r is Some <==> same_aliasing(second@, first@),
        r matches Some(mapping) ==> is_items_mapping(mapping@, first@, second@),
{
    broadcast use vstd::std_specs::btree::group_btree_axioms;

    let mut mapping: BTreeMap<i64, i64> = BTreeMap::new();
    let mut back: BTreeMap<i64, i64> = BTreeMap::new();
    let mut i: usize = 0;
    while i < second.len()
        invariant
            i <= second.len(),
            first@.len() == second@.len(),
            forall|v: i64| #[trigger]
                mapping@.contains_key(v) <==> exists|j: int|
                    0 <= j < i && (#[trigger] second@[j]) == v,
            forall|j: int|
                0 <= j < i ==> mapping@.contains_key(#[trigger] second@[j]) && mapping@[second@[j]]
                    == first@[j],
            forall|v: i64| #[trigger]
                back@.contains_key(v) <==> exists|j: int|
                    0 <= j < i && (#[trigger] first@[j]) == v,
            forall|j: int|
                0 <= j < i ==> back@.contains_key(#[trigger] first@[j]) && back@[first@[j]]
                    == second@[j],
        decreases second.len() - i,
    {
        let e1: i64 = first[i];
        let e2: i64 = second[i];
        if let Some(prev) = mapping.insert(e2, e1) {
            if prev != e1 {
                proof {
                    let j = choose|j: int| 0 <= j < i && (#[trigger] second@[j]) == e2;
                    assert(second@[j] == second@[i as int] && first@[j] != first@[i as int]);
                }
                return None;
            }
        }
        if let Some(prev) = back.insert(e1, e2) {
            if prev != e2 {
                proof {
                    let j = choose|j: int| 0 <= j < i && (#[trigger] first@[j]) == e1;
                    assert(first@[j] == first@[i as int] && second@[j] != second@[i as int]);
                }
                return None;
            }
        }
        i += 1;
    }
    proof {
        assert forall|v: i64| #[trigger] mapping@.contains_key(v) <==> second@.contains(v) by {
            if second@.contains(v) {
                let j = second@.index_of(v);
                assert(second@[j] == v);
            }
        }
    }
    Some(mapping)
}

/// The least and the greatest item.
fn bounds(s: &Vec<i64>) -> (r: (i64, i64))
    requires
        s@.len() > 0,
    ensures
        s@.contains(r.0),
        s@.contains(r.1),
        forall|i: int| 0 <= i < s@.len() ==> r.0 <= #[trigger] s@[i] <= r.1,
{
    let mut min: i64 = s[0];
    let mut max: i64 = s[0];
    let mut i: usize = 1;
    while i < s.len()
        invariant
            1 <= i <= s.len(),
            s@.contains(min),
            s@.contains(max),
            forall|j: int| 0 <= j < i ==> min <= #[trigger] s@[j] <= max,
        decreases s.len() - i,
    {
        if s[i] < min {
            min = s[i];
        }
        if s[i] > max {
            max = s[i];
        }
        i += 1;
    }
    (min, max)
}

/// Different integers of a range are no more than the range has, and all of it
/// if they are as many.
pub proof fn different_in_range(d: Seq<i64>, lo: int, hi: int)
    requires
        d.no_duplicates(),
        lo <= hi,
        forall|i: int| 0 <= i < d.len() ==> lo <= #[trigger] d[i] < hi,
    ensures
        d.len() <= hi - lo,
        d.len() == hi - lo ==> forall|v: i64| lo <= v < hi ==> #[trigger] d.contains(v),
{
    let numbers = ints(d);
    let range = vstd::set_lib::set_int_range(lo, hi);
    assert(numbers.no_duplicates());
    numbers.unique_seq_to_set();
    vstd::set_lib::lemma_int_range(lo, hi);
    assert(numbers.to_set().subset_of(range));
    vstd::set_lib::lemma_len_subset(numbers.to_set(), range);
    if d.len() == hi - lo {
        vstd::set_lib::lemma_subset_equality(numbers.to_set(), range);
        assert forall|v: i64| lo <= v < hi implies #[trigger] d.contains(v) by {
            assert(range.contains(v as int));
            assert(numbers.contains(v as int));
            let i = numbers.index_of(v as int);
            assert(d[i] == v);
        }
    }
}

/// Items are dense exactly when the least is zero and the greatest is one less
/// than their number.
proof fn dense_by_bounds(s: Seq<i64>, min: i64, max: i64)
    requires
        s.contains(min),
        s.contains(max),
        forall|i: int| 0 <= i < s.len() ==> min <= #[trigger] s[i] <= max,
    ensures
        is_dense(s) <==> min == 0 && max + 1 == distinct(s).len(),
{
    let d = distinct(s);
    distinct_items(s);
    assert forall|i: int| 0 <= i < d.len() implies min <= #[trigger] d[i] <= max by {
        assert(d.contains(d[i]));
        let j = s.index_of(d[i]);
        assert(min <= s[j] <= max);
    }
    if min == 0 && max + 1 == d.len() {
        different_in_range(d, 0, max + 1);
        assert forall|v: i64| #[trigger] s.contains(v) <==> 0 <= v < d.len() by {
            if s.contains(v) {
                let j = s.index_of(v);
                assert(min <= s[j] <= max);
            } else {
                assert(!d.contains(v));
            }
        }
    }
    if is_dense(s) {
        assert(s.contains(0i64));
        let j = s.index_of(0i64);
        assert(min <= s[j]);
        assert(d.contains(max));
        different_in_range(d, 0, max + 1);
        let last = (d.len() - 1) as i64;
        assert(last == d.len() - 1);
        assert(s.contains(last));
        let k = s.index_of(last);
        assert(s[k] <= max);
    }
}

/// A mapping of the items has as many keys as there are different items.
proof fn mapping_size(mapping: Map<i64, i64>, first: Seq<i64>, second: Seq<i64>)
    requires
        is_items_mapping(mapping, first, second),
    ensures
        mapping.len() == distinct(second).len(),
{
    distinct_items(second);
    distinct(second).unique_seq_to_set();
    assert forall|v: i64| mapping.dom().contains(v) == distinct(second).to_set().contains(v) by {
        assert(mapping.contains_key(v) == second.contains(v));
        assert(distinct(second).contains(v) == second.contains(v));
    }
    assert(mapping.dom() =~= distinct(second).to_set());
}

/// Vectors of the same lengths have equally many items together.
pub proof fn joined_lengths(first: Seq<Vec<i64>>, second: Seq<Vec<i64>>)
    requires
        same_lengths(first, second),
    ensures
        joined(first).len() == joined(second).len(),
    decreases first.len(),
{
    if first.len() > 0 {
        let f = first.drop_last();
        let s = second.drop_last();
        assert forall|i: int| 0 <= i < f.len() implies (#[trigger] f[i])@.len() == s[i]@.len() by {
            assert(first[i]@.len() == second[i]@.len());
        }
        joined_lengths(f, s);
        assert(first[first.len() - 1]@.len() == second[first.len() - 1]@.len());
    }
}

/// `apply-mapping`: applies a mapping to a renaming.
#[derive(Clone, Copy, Debug, PartialEq, Eq)]
pub struct ApplyMapping {}

/// Whether every item is an index of `mapping`.
pub open spec fn all_mapped(map: Seq<i64>, mapping: Seq<i64>) -> bool {
    forall|i: int| 0 <= i < map.len() ==> 0 <= #[trigger] map[i] < mapping.len()
}

/// The items, each replaced by what `mapping` has at it.
pub open spec fn applied(map: Seq<i64>, mapping: Seq<i64>) -> Seq<i64> {
    Seq::new(map.len(), |i: int| mapping[map[i] as int])
}

impl ApplyMapping {
    /// The name of the primitive.
    pub fn name(&self) -> (r: &'static str)
        ensures
            r@ == "apply-mapping"@,
    {
        "apply-mapping"
    }

    /// Arguments and result have one sort.
    pub fn get_type_constraints(&self, span: &Span) -> (r: TypeConstraint)
        ensures
            r@ == (TypeConstraintView::AllEqual {
                name: "apply-mapping"@,
                span: *span,
                all_arguments_sort: None,
            }),
    {
        TypeConstraint::AllEqual {
            name: String::from_str("apply-mapping"),
            span: *span,
            all_arguments_sort: None,
        }
    }

    /// The renaming `map` with its items replaced as `mapping` says.
    pub fn apply(&self, map: &Vec<i64>, mapping: &Vec<i64>) -> (r: Option<IntVec>)
        requires
            all_mapped(map@, mapping@),
        ensures
            r matches Some(result) && !result.do_rebuild && result.data@ == applied(
                map@,
                mapping@,
            ),
    {
        let mut data: Vec<i64> = Vec::new();
        let mut i: usize = 0;
        while i < map.len()
            invariant
                i <= map.len(),
                all_mapped(map@, mapping@),
                data@ == applied(map@.take(i as int), mapping@),
            decreases map.len() - i,
        {
            let v: i64 = map[i];
            assert(0 <= map@[i as int] < mapping.len());
            data.push(mapping[v as usize]);
            i += 1;
            assert(data@ =~= applied(map@.take(i as int), mapping@));
        }
        assert(map@.take(i as int) =~= map@);
        Some(IntVec::fixed(data))
    }
}

} // verus!
