use slotted::ast::{Expr, Literal, Span};
use slotted::sort::vec::{
    register_vec_primitives_for_function, try_registering_vec_map, vec_contains, vec_get,
    vec_length, vec_not_contains, vec_pop, vec_push, vec_remove, vec_set, ApplyMapping,
    FindMapping, IntVec, Shape, Union, VecContainer, VecMap, VecOp, VecSort,
};
use slotted::sort::{
    EGraph, FunctionSort, Operand, Primitive, Rebuilder, Sort, TypeConstraint, TypeError,
    TypeInfo, Value,
};
use std::cell::RefCell;
use std::sync::Arc;

/// The integers that have become values, by value.
struct Ints(Vec<i64>);

impl Ints {
    fn get(&mut self, n: i64) -> Value {
        match self.0.iter().position(|m| *m == n) {
            Some(i) => i as Value,
            None => {
                self.0.push(n);
                (self.0.len() - 1) as Value
            }
        }
    }

    fn term(&self, v: Value) -> Expr {
        Expr::Lit(Span::Generated, Literal::Int(self.0[v as usize]))
    }
}

fn var(name: &str) -> Expr {
    Expr::Var(Span::Generated, name.to_string())
}

fn base(name: &str) -> Arc<Sort> {
    Arc::new(Sort::BaseSort(name.to_string()))
}

fn vec_sort(name: &str, element: Arc<Sort>) -> VecSort {
    VecSort {
        name: name.to_string(),
        element,
    }
}

/// The term that a vector of integers is printed as.
fn extract(sort: &VecSort, v: &VecContainer, ints: &Ints) -> Expr {
    let terms: Vec<Expr> = v.iter().iter().map(|e| ints.term(*e)).collect();
    sort.reconstruct_termdag(&terms)
}

/// What a term for a vector of integers stands for.
fn eval(sort: &VecSort, term: &Expr, ints: &mut Ints) -> VecContainer {
    match term {
        Expr::Call(_, head, args) if head == "vec-empty" && args.is_empty() => sort.vec_empty(),
        Expr::Call(_, head, args) if head == "vec-of" => {
            let mut values = vec![];
            for arg in args {
                match arg {
                    Expr::Lit(_, Literal::Int(n)) => values.push(ints.get(*n)),
                    _ => panic!("not an integer"),
                }
            }
            sort.vec_of(&values)
        }
        _ => panic!("not a vector"),
    }
}

#[test]
fn test_vec_make_expr() {
    let typeinfo = TypeInfo {
        sorts: vec![base("i64")],
    };
    let made = VecSort::make_sort(&typeinfo, "IVec".to_string(), &[var("i64")]).unwrap();
    let sort = match &*made {
        Sort::VecSort(sort) => sort,
        _ => panic!("not a sort of vectors"),
    };
    let mut ints = Ints(vec![]);
    let v0 = sort.vec_empty();
    let numbers: Vec<Value> = [1, 2, 3, 4].iter().map(|n| ints.get(*n)).collect();
    let v1 = sort.vec_of(&numbers);

    let outputs = [extract(sort, &v0, &ints), extract(sort, &v1, &ints)];

    // The extracted terms stand for the original vectors.
    assert_eq!(eval(sort, &outputs[0], &mut ints), v0);
    assert_eq!(eval(sort, &outputs[1], &mut ints), v1);
    assert_ne!(v0, v1);
}

fn eq_sort(name: &str) -> Arc<Sort> {
    Arc::new(Sort::EqSort(name.to_string()))
}

fn vec_of(do_rebuild: bool, data: &[Value]) -> VecContainer {
    VecContainer {
        do_rebuild,
        data: data.to_vec(),
    }
}

fn plain(data: &[Value]) -> VecContainer {
    vec_of(false, data)
}

fn as_sort(sort: VecSort) -> Arc<Sort> {
    Arc::new(Sort::VecSort(sort))
}

#[test]
fn vectors_are_printed_as_calls() {
    let sort = vec_sort("IVec", base("i64"));
    let number = |n: i64| Expr::Lit(Span::Generated, Literal::Int(n));
    assert_eq!(
        sort.reconstruct_termdag(&vec![]),
        Expr::Call(Span::Generated, "vec-empty".to_string(), vec![])
    );
    let terms: Vec<Expr> = (1..5).map(number).collect();
    assert_eq!(
        sort.reconstruct_termdag(&terms),
        Expr::Call(Span::Generated, "vec-of".to_string(), (1..5).map(number).collect())
    );
    assert_eq!(sort.serialized_name(), "vec-of");
}

#[test]
fn rebuilding_a_vector_follows_its_flag() {
    let r = Rebuilder {
        leaders: [(1, 10), (3, 30)].into_iter().collect(),
    };
    let mut v = vec_of(true, &[1, 2, 3, 1]);
    assert!(v.rebuild_contents(&r));
    assert_eq!(v, vec_of(true, &[10, 2, 30, 10]));
    assert!(!v.rebuild_contents(&r));
    let mut w = vec_of(false, &[1, 2]);
    assert!(!w.rebuild_contents(&r));
    assert_eq!(w, vec_of(false, &[1, 2]));
    assert_eq!(v.iter(), vec![10, 2, 30, 10]);
}

#[test]
fn make_sort_needs_a_declared_sort() {
    let info = TypeInfo {
        sorts: vec![eq_sort("U")],
    };
    let made = VecSort::make_sort(&info, "UVec".to_string(), &[var("U")]).unwrap();
    assert_eq!(*made, Sort::VecSort(vec_sort("UVec", eq_sort("U"))));
    assert_eq!(
        VecSort::make_sort(&info, "IVec".to_string(), &[var("i64")]),
        Err(TypeError::UndefinedSort("i64".to_string(), Span::Generated))
    );
}

#[test]
fn a_vector_sort_knows_its_items() {
    let sort = vec_sort("UVec", eq_sort("U"));
    assert_eq!(sort.name(), "UVec");
    assert_eq!(sort.element(), eq_sort("U"));
    assert_eq!(sort.inner_sorts(), vec![eq_sort("U")]);
    assert!(sort.is_eq_container_sort());
    assert!(!vec_sort("IVec", base("i64")).is_eq_container_sort());
    assert!(vec_sort("UVecVec", as_sort(sort.clone())).is_eq_container_sort());
    assert_eq!(
        sort.inner_values(&plain(&[4, 2])),
        vec![(eq_sort("U"), 4), (eq_sort("U"), 2)]
    );
    assert_eq!(VecSort::presort_name(), "Vec");
    assert_eq!(
        VecSort::reserved_primitives(),
        vec![
            "vec-of",
            "vec-append",
            "vec-empty",
            "vec-push",
            "vec-pop",
            "vec-not-contains",
            "vec-contains",
            "vec-length",
            "vec-get",
            "vec-set",
            "vec-remove",
            "vec-union",
            "vec-range",
            "unstable-vec-map"
        ]
    );
}

#[test]
fn vector_operations_read_and_write_items() {
    let sort = vec_sort("UVec", eq_sort("U"));
    assert_eq!(sort.vec_empty(), vec_of(true, &[]));
    assert_eq!(sort.vec_of(&vec![3, 1]), vec_of(true, &[3, 1]));
    assert_eq!(
        sort.vec_append(&vec![plain(&[1]), plain(&[]), plain(&[2, 3])]),
        vec_of(true, &[1, 2, 3])
    );
    let v = vec_of(true, &[5, 6, 7]);
    assert_eq!(vec_push(v.clone(), 8), vec_of(true, &[5, 6, 7, 8]));
    assert_eq!(vec_pop(v.clone()), vec_of(true, &[5, 6]));
    assert_eq!(vec_pop(plain(&[])), plain(&[]));
    assert_eq!(vec_length(&v), 3);
    assert_eq!(vec_contains(&v, 6), Some(()));
    assert_eq!(vec_contains(&v, 1), None);
    assert_eq!(vec_not_contains(&v, 6), None);
    assert_eq!(vec_not_contains(&v, 1), Some(()));
    assert_eq!(vec_get(&v, 2), Some(7));
    assert_eq!(vec_get(&v, 3), None);
    assert_eq!(vec_get(&v, -1), None);
    assert_eq!(vec_set(v.clone(), 1, 9), vec_of(true, &[5, 9, 7]));
    assert_eq!(vec_remove(v, 0), vec_of(true, &[6, 7]));
}

#[test]
fn ranges_start_at_zero() {
    let sort = vec_sort("IVec", base("i64"));
    assert_eq!(sort.vec_range(4).data, vec![0, 1, 2, 3]);
    assert!(!sort.vec_range(4).do_rebuild);
    assert_eq!(sort.vec_range(0).data, Vec::<i64>::new());
    assert_eq!(sort.vec_range(-5).data, Vec::<i64>::new());
}

fn function(name: &str, inputs: Vec<Arc<Sort>>, output: Arc<Sort>) -> Arc<FunctionSort> {
    Arc::new(FunctionSort {
        name: name.to_string(),
        inputs,
        output,
        holds_eq_values: false,
    })
}

fn name_of(p: &Primitive) -> String {
    match p {
        Primitive::VecOp(op, _) => op.name().to_string(),
        Primitive::VecUnion(p) => p.name().to_string(),
        Primitive::VecMap(p) => format!("{} {} {}", p.name(), p.vec.name(), p.output_vec.name()),
        Primitive::VecShape(p) => p.name().to_string(),
        Primitive::VecFindMapping(p) => p.name().to_string(),
        Primitive::VecApplyMapping(p) => p.name().to_string(),
        _ => panic!("not a primitive on vectors"),
    }
}

#[test]
fn vector_primitives_are_registered_in_order() {
    let ivec = vec_sort("IVec", base("i64"));
    let uvec = vec_sort("UVec", eq_sort("U"));
    let f = function("f", vec![base("i64")], eq_sort("U"));
    let g = function("g", vec![eq_sort("U")], eq_sort("U"));
    let two = function("two", vec![base("i64"), base("i64")], eq_sort("U"));
    let mut eg = EGraph {
        type_info: TypeInfo {
            sorts: vec![
                base("i64"),
                eq_sort("U"),
                as_sort(ivec.clone()),
                as_sort(uvec.clone()),
                Arc::new(Sort::FunctionSort(f)),
                Arc::new(Sort::FunctionSort(g)),
                Arc::new(Sort::FunctionSort(two)),
            ],
        },
        primitives: vec![],
    };
    uvec.register_primitives(&mut eg);
    let common = [
        "vec-empty",
        "vec-of",
        "vec-append",
        "vec-push",
        "vec-pop",
        "vec-length",
        "vec-contains",
        "vec-not-contains",
        "vec-get",
        "vec-set",
        "vec-remove",
    ];
    let mut expected: Vec<String> = common.iter().map(|s| s.to_string()).collect();
    expected.push("vec-union".to_string());
    expected.push("unstable-vec-map IVec UVec".to_string());
    expected.push("unstable-vec-map UVec UVec".to_string());
    for last in ["shape", "find-mapping", "apply-mapping"] {
        expected.push(last.to_string());
    }
    let names: Vec<String> = eg.primitives.iter().map(name_of).collect();
    assert_eq!(names, expected);

    eg.primitives.clear();
    ivec.register_primitives(&mut eg);
    let mut expected: Vec<String> = common.iter().map(|s| s.to_string()).collect();
    expected.push("vec-range".to_string());
    expected.push("unstable-vec-map IVec UVec".to_string());
    for last in ["shape", "find-mapping", "apply-mapping"] {
        expected.push(last.to_string());
    }
    let names: Vec<String> = eg.primitives.iter().map(name_of).collect();
    assert_eq!(names, expected);
}

#[test]
fn functions_are_mapped_between_all_fitting_vectors() {
    let a = as_sort(vec_sort("A", base("i64")));
    let b = as_sort(vec_sort("B", base("i64")));
    let c = as_sort(vec_sort("C", eq_sort("U")));
    let mut eg = EGraph {
        type_info: TypeInfo {
            sorts: vec![a.clone(), b, c.clone()],
        },
        primitives: vec![],
    };
    let f = function("f", vec![base("i64")], base("i64"));
    register_vec_primitives_for_function(&mut eg, f.clone());
    let names: Vec<String> = eg.primitives.iter().map(name_of).collect();
    assert_eq!(
        names,
        vec![
            "unstable-vec-map A A",
            "unstable-vec-map A B",
            "unstable-vec-map B A",
            "unstable-vec-map B B"
        ]
    );
    try_registering_vec_map(&mut eg, f.clone(), a.clone(), c.clone());
    try_registering_vec_map(&mut eg, f, c, a);
    assert_eq!(eg.primitives.len(), 4);
}

#[test]
fn vector_signatures_name_the_sorts() {
    let sort = vec_sort("UVec", eq_sort("U"));
    let vec = || Operand::Of(as_sort(sort.clone()));
    let element = || Operand::Of(eq_sort("U"));
    let s = VecOp::Put.signature(&sort);
    assert_eq!(s.inputs, vec![vec(), Operand::I64, element()]);
    assert_eq!(s.output, vec());
    assert!(!s.partial && !s.variadic);
    let s = VecOp::Of.signature(&sort);
    assert_eq!((s.inputs, s.variadic), (vec![element()], true));
    let s = VecOp::Append.signature(&sort);
    assert_eq!((s.inputs, s.variadic), (vec![vec()], true));
    let s = VecOp::Get.signature(&sort);
    assert_eq!((s.output, s.partial), (element(), true));
    let s = VecOp::Contains.signature(&sort);
    assert_eq!((s.output, s.partial), (Operand::Unit, true));
    let s = VecOp::Length.signature(&sort);
    assert_eq!((s.output, s.partial), (Operand::I64, false));
    let s = VecOp::Range.signature(&sort);
    assert_eq!((s.inputs, s.output), (vec![Operand::I64], vec()));
}

#[test]
fn mapping_drops_undefined_results() {
    let map = VecMap {
        vec: as_sort(vec_sort("IVec", base("i64"))),
        output_vec: as_sort(vec_sort("UVec", eq_sort("U"))),
        fn_: function("f", vec![base("i64")], eq_sort("U")),
    };
    assert_eq!(
        map.collect(&vec![Some(4), None, Some(2), None]),
        Some(vec_of(true, &[4, 2]))
    );
    assert_eq!(map.collect(&vec![]), Some(vec_of(true, &[])));
    // The function is called on each item, in order.
    let halved = |v: Value| if v % 2 == 0 { Some(v / 2) } else { None };
    assert_eq!(
        map.apply(&vec_of(false, &[8, 3, 4, 5, 8]), halved),
        Some(vec_of(true, &[4, 2, 4]))
    );
    let seen = RefCell::new(vec![]);
    let noted = |v: Value| {
        seen.borrow_mut().push(v);
        Some(v)
    };
    assert_eq!(
        map.apply(&vec_of(false, &[7, 1, 7]), noted),
        Some(vec_of(true, &[7, 1, 7]))
    );
    assert_eq!(*seen.borrow(), vec![7, 1, 7]);
    assert_eq!(
        map.apply(&vec_of(false, &[]), halved),
        Some(vec_of(true, &[]))
    );
    match map.get_type_constraints(&Span::Generated) {
        TypeConstraint::Simple { name, sorts, .. } => {
            assert_eq!(name, "unstable-vec-map");
            assert_eq!(
                sorts,
                vec![
                    Arc::new(Sort::FunctionSort(map.fn_.clone())),
                    map.vec.clone(),
                    map.output_vec.clone()
                ]
            );
        }
        _ => panic!("wrong constraint"),
    }
}

#[test]
fn union_pairs_items_of_equal_vectors() {
    let union = Union {
        vec: as_sort(vec_sort("UVec", eq_sort("U"))),
    };
    assert_eq!(
        union.apply(
            &vec![70, 80],
            &vec![Some(plain(&[1, 2])), Some(plain(&[3, 2]))]
        ),
        Some((70, vec![(1, 3), (2, 2)]))
    );
    assert_eq!(
        union.apply(&vec![70, 80], &vec![Some(plain(&[1])), Some(plain(&[]))]),
        None
    );
    assert_eq!(union.apply(&vec![70], &vec![None]), None);
    assert_eq!(
        union.apply(&vec![70, 80], &vec![Some(plain(&[1])), None]),
        None
    );
    match union.get_type_constraints(&Span::Generated) {
        TypeConstraint::Simple { name, sorts, .. } => {
            assert_eq!(name, "vec-union");
            assert_eq!(sorts, vec![union.vec.clone(); 3]);
        }
        _ => panic!("wrong constraint"),
    }
}

fn shape(vecs: &[&[Value]]) -> Vec<i64> {
    let args: Vec<VecContainer> = vecs.iter().map(|v| plain(v)).collect();
    let r = Shape {}.apply(&args).unwrap();
    assert!(!r.do_rebuild);
    r.data
}

#[test]
fn shapes_number_values_as_they_are_seen() {
    let (a, b, y, z) = (11, 22, 33, 44);
    assert_eq!(shape(&[&[b], &[a]]), vec![0, 1]);
    assert_eq!(shape(&[&[y], &[z]]), vec![0, 1]);
    assert_eq!(shape(&[&[b, a, b], &[a, a]]), vec![0, 1, 0, 1, 1]);
    assert_eq!(shape(&[&[y, z, y], &[z, z]]), vec![0, 1, 0, 1, 1]);
    assert_eq!(shape(&[]), Vec::<i64>::new());
    assert_eq!(shape(&[&[], &[9]]), vec![0]);
}

#[test]
fn the_shape_of_a_shape_is_itself() {
    let once = shape(&[&[7, 3, 7, 9, 3]]);
    let again: Vec<Value> = once.iter().map(|n| *n as Value).collect();
    assert_eq!(shape(&[&again]), once);
}

fn find(args: &[&[i64]]) -> Option<Vec<i64>> {
    let args: Vec<Vec<i64>> = args.iter().map(|v| v.to_vec()).collect();
    FindMapping {}.apply(&args).map(|r: IntVec| {
        assert!(!r.do_rebuild);
        r.data
    })
}

fn apply(map: &[i64], mapping: &[i64]) -> Vec<i64> {
    ApplyMapping {}
        .apply(&map.to_vec(), &mapping.to_vec())
        .unwrap()
        .data
}

#[test]
fn the_found_mapping_turns_the_second_node_into_the_first() {
    let r = find(&[&[0, 1, 0], &[1, 2], &[1, 2, 1], &[2, 0]]).unwrap();
    assert_eq!(r, vec![2, 0, 1]);
    assert_eq!(apply(&[1, 2, 1], &r), vec![0, 1, 0]);
    assert_eq!(apply(&[2, 0], &r), vec![1, 2]);
}

#[test]
fn find_mapping_refuses_different_shapes() {
    // The second repeats a value where the first does not.
    assert_eq!(find(&[&[0, 1], &[0, 0]]), None);
    // The first repeats a value where the second does not.
    assert_eq!(find(&[&[0, 0], &[0, 1]]), None);
    // The lengths differ.
    assert_eq!(find(&[&[0, 1], &[0]]), None);
}

#[test]
fn find_mapping_needs_dense_values() {
    assert_eq!(find(&[&[5, 6], &[0, 2]]), None);
    assert_eq!(find(&[&[5, 6], &[1, 2]]), None);
    assert_eq!(find(&[&[5, 6], &[-1, 0]]), None);
    assert_eq!(find(&[&[5], &[i64::MAX]]), None);
    assert_eq!(find(&[&[5, -6], &[1, 0]]), Some(vec![-6, 5]));
}

#[test]
fn find_mapping_of_nothing_is_empty() {
    assert_eq!(find(&[]), Some(vec![]));
    assert_eq!(find(&[&[], &[]]), Some(vec![]));
    // A last argument without a partner is not looked at.
    assert_eq!(find(&[&[4], &[0], &[9, 9]]), Some(vec![4]));
}

#[test]
fn the_renaming_primitives_have_their_names() {
    assert_eq!(Shape {}.name(), "shape");
    assert_eq!(FindMapping {}.name(), "find-mapping");
    assert_eq!(ApplyMapping {}.name(), "apply-mapping");
    for (constraint, expected) in [
        (Shape {}.get_type_constraints(&Span::Generated), "shape"),
        (FindMapping {}.get_type_constraints(&Span::Generated), "shape"),
        (
            ApplyMapping {}.get_type_constraints(&Span::Generated),
            "apply-mapping",
        ),
    ] {
        match constraint {
            TypeConstraint::AllEqual {
                name,
                all_arguments_sort: None,
                ..
            } => assert_eq!(name, expected),
            _ => panic!("wrong constraint"),
        }
    }
}

#[test]
fn a_found_mapping_sends_no_two_values_to_one() {
    let r = find(&[&[9, 4, 9, 2], &[1, 0, 1, 2]]).unwrap();
    assert_eq!(r, vec![4, 9, 2]);
    for i in 0..r.len() {
        for j in 0..i {
            assert_ne!(r[i], r[j]);
        }
    }
}

#[test]
fn find_mapping_succeeds_exactly_on_equal_shapes() {
    let nodes: [&[i64]; 4] = [&[0, 1, 0], &[5, 3, 5], &[2, 2, 2], &[1, 0, 2]];
    for node in nodes {
        let values: Vec<Value> = node.iter().map(|n| *n as Value).collect();
        let shape = shape(&[&values]);
        assert!(find(&[node, &shape]).is_some());
        for other in nodes {
            let others: Vec<Value> = other.iter().map(|n| *n as Value).collect();
            let same = self::shape(&[&others]) == shape;
            assert_eq!(find(&[other, &shape]).is_some(), same);
        }
    }
}
