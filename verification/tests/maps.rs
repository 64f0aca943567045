use slotted::ast::{Expr, Literal, Span};
use slotted::sort::map::{
    entries, map_contains, map_get, map_insert, map_inverse, map_length, map_not_contains,
    map_remove, map_union, Compose, FindMapping, Inverse, MapContainer, MapOp, MapSort, Shape,
    SlotMap,
};
use slotted::sort::{
    EGraph, Operand, Primitive, Rebuilder, Sort, TypeConstraint, TypeError, TypeInfo, Value,
};
use std::collections::BTreeMap;
use std::sync::Arc;

fn data(entries: &[(Value, Value)]) -> BTreeMap<Value, Value> {
    entries.iter().cloned().collect()
}

fn container(keys: bool, vals: bool, entries: &[(Value, Value)]) -> MapContainer {
    MapContainer {
        do_rebuild_keys: keys,
        do_rebuild_vals: vals,
        data: data(entries),
    }
}

fn fixed(entries: &[(Value, Value)]) -> MapContainer {
    container(false, false, entries)
}

fn eq_sort(name: &str) -> Arc<Sort> {
    Arc::new(Sort::EqSort(name.to_string()))
}

fn base(name: &str) -> Arc<Sort> {
    Arc::new(Sort::BaseSort(name.to_string()))
}

fn map_sort(name: &str, key: Arc<Sort>, value: Arc<Sort>) -> MapSort {
    MapSort {
        name: name.to_string(),
        key,
        value,
    }
}

fn rebuilder(leaders: &[(Value, Value)]) -> Rebuilder {
    Rebuilder {
        leaders: data(leaders),
    }
}

fn var(name: &str, at: usize) -> Expr {
    let span = Span::Source {
        start: at,
        end: at + 1,
    };
    Expr::Var(span, name.to_string())
}

#[test]
fn entries_and_items_come_by_key() {
    let m = fixed(&[(9, 1), (2, 7), (5, 5)]);
    assert_eq!(entries(&m.data), vec![(2, 7), (5, 5), (9, 1)]);
    assert_eq!(m.iter(), vec![2, 7, 5, 5, 9, 1]);
    assert_eq!(fixed(&[]).iter(), Vec::<Value>::new());
}

#[test]
fn rebuilding_follows_the_flags() {
    let r = rebuilder(&[(1, 10), (3, 30)]);
    let cases = [
        (false, false, vec![(1, 3), (2, 4)], false),
        (true, false, vec![(10, 3), (2, 4)], true),
        (false, true, vec![(1, 30), (2, 4)], true),
        (true, true, vec![(10, 30), (2, 4)], true),
    ];
    for (keys, vals, expected, changes) in cases {
        let mut m = container(keys, vals, &[(1, 3), (2, 4)]);
        assert_eq!(m.rebuild_contents(&r), changes);
        assert_eq!(m, container(keys, vals, &expected));
    }
    let mut unchanged = container(true, true, &[(5, 6)]);
    assert!(!unchanged.rebuild_contents(&r));
    assert_eq!(unchanged, container(true, true, &[(5, 6)]));
}

#[test]
fn keys_that_become_one_keep_the_value_of_the_greatest() {
    let mut m = container(true, false, &[(1, 100), (4, 400), (2, 200)]);
    assert!(m.rebuild_contents(&rebuilder(&[(1, 9), (4, 9), (2, 9)])));
    assert_eq!(m.data, data(&[(9, 400)]));
}

#[test]
fn rebuilding_twice_changes_nothing() {
    let r = rebuilder(&[(1, 9), (2, 9), (7, 8)]);
    let mut m = container(true, true, &[(1, 7), (2, 8), (3, 1)]);
    assert!(m.rebuild_contents(&r));
    let once = m.clone();
    assert!(!m.rebuild_contents(&r));
    assert_eq!(m, once);
}

#[test]
fn make_sort_finds_its_sorts() {
    let info = TypeInfo {
        sorts: vec![base("i64"), eq_sort("U")],
    };
    let made = MapSort::make_sort(&info, "M".to_string(), &[var("U", 1), var("i64", 5)]).unwrap();
    assert_eq!(
        *made,
        Sort::MapSort(map_sort("M", eq_sort("U"), base("i64")))
    );
    match &*made {
        Sort::MapSort(sort) => {
            assert_eq!(sort.key(), eq_sort("U"));
            assert_eq!(sort.value(), base("i64"));
            assert_eq!(sort.name(), "M");
            assert_eq!(sort.inner_sorts(), vec![eq_sort("U"), base("i64")]);
            assert_eq!(sort.serialized_name(), "M");
        }
        _ => panic!("not a sort of maps"),
    }
}

#[test]
fn make_sort_reports_the_first_missing_sort() {
    let info = TypeInfo {
        sorts: vec![base("i64")],
    };
    let span = |at: usize| Span::Source {
        start: at,
        end: at + 1,
    };
    assert_eq!(
        MapSort::make_sort(&info, "M".to_string(), &[var("K", 1), var("V", 5)]),
        Err(TypeError::UndefinedSort("K".to_string(), span(1)))
    );
    assert_eq!(
        MapSort::make_sort(&info, "M".to_string(), &[var("i64", 1), var("V", 5)]),
        Err(TypeError::UndefinedSort("V".to_string(), span(5)))
    );
}

#[test]
fn names_are_those_of_the_language() {
    assert_eq!(MapSort::presort_name(), "Map");
    assert_eq!(
        MapSort::reserved_primitives(),
        vec![
            "map-empty",
            "map-insert",
            "map-get",
            "map-not-contains",
            "map-contains",
            "map-remove",
            "map-length"
        ]
    );
    assert_eq!(Shape {}.name(), "shape2");
    assert_eq!(Inverse {}.name(), "inverse");
    assert_eq!(Compose {}.name(), "compose");
    assert_eq!(FindMapping { sort: base("m") }.name(), "find-mapping");
}

#[test]
fn maps_hold_classes_through_any_depth() {
    let plain = map_sort("P", base("i64"), base("String"));
    assert!(!plain.is_eq_container_sort());
    assert!(map_sort("K", eq_sort("U"), base("i64")).is_eq_container_sort());
    assert!(map_sort("V", base("i64"), eq_sort("U")).is_eq_container_sort());
    let inner = Arc::new(Sort::MapSort(map_sort("V", base("i64"), eq_sort("U"))));
    assert!(inner.is_eq_container_sort());
    assert!(map_sort("D", base("i64"), inner.clone()).is_eq_container_sort());
    assert!(map_sort("E", inner, base("i64")).is_eq_container_sort());
    let flat = Arc::new(Sort::MapSort(plain));
    assert!(!map_sort("F", flat.clone(), flat).is_eq_container_sort());
    let other = Arc::new(Sort::OtherContainer("S".to_string(), true));
    assert!(map_sort("O", other, base("i64")).is_eq_container_sort());
}

#[test]
fn the_empty_map_follows_the_graph_as_its_sort_says() {
    assert_eq!(
        map_sort("P", base("i64"), base("i64")).map_empty(),
        fixed(&[])
    );
    assert_eq!(
        map_sort("K", eq_sort("U"), base("i64")).map_empty(),
        container(true, false, &[])
    );
    let inner = Arc::new(Sort::MapSort(map_sort("V", base("i64"), eq_sort("U"))));
    assert_eq!(
        map_sort("D", base("i64"), inner).map_empty(),
        container(false, true, &[])
    );
}

#[test]
fn map_operations_read_and_write_entries() {
    let m = container(true, false, &[(1, 10), (2, 20)]);
    assert_eq!(map_get(&m, 2), Some(20));
    assert_eq!(map_get(&m, 3), None);
    assert_eq!(map_length(&m), 2);
    assert_eq!(map_length(&fixed(&[])), 0);
    assert_eq!(map_contains(&m, 1), Some(()));
    assert_eq!(map_contains(&m, 10), None);
    assert_eq!(map_not_contains(&m, 1), None);
    assert_eq!(map_not_contains(&m, 10), Some(()));
    assert_eq!(
        map_insert(m.clone(), 1, 11),
        container(true, false, &[(1, 11), (2, 20)])
    );
    assert_eq!(
        map_insert(m.clone(), 3, 30),
        container(true, false, &[(1, 10), (2, 20), (3, 30)])
    );
    assert_eq!(
        map_remove(m.clone(), 1),
        container(true, false, &[(2, 20)])
    );
    assert_eq!(map_remove(m.clone(), 7), m);
}

#[test]
fn map_inverse_swaps_the_flags() {
    let m = container(true, false, &[(1, 7), (2, 7), (3, 8)]);
    assert_eq!(map_inverse(&m), container(false, true, &[(7, 2), (8, 3)]));
}

#[test]
fn map_union_needs_agreement() {
    let a = container(true, false, &[(1, 1), (2, 2)]);
    let b = container(false, true, &[(2, 2), (3, 3)]);
    assert_eq!(
        map_union(&a, &b),
        Some(container(true, false, &[(1, 1), (2, 2), (3, 3)]))
    );
    assert_eq!(map_union(&a, &b).unwrap().data, map_union(&b, &a).unwrap().data);
    let c = container(true, true, &[(2, 9)]);
    assert_eq!(map_union(&a, &c), None);
    assert_eq!(map_union(&c, &a), None);
    assert_eq!(map_union(&a, &fixed(&[])), Some(a));
}

#[test]
fn inner_values_carry_their_sorts() {
    let sort = map_sort("M", eq_sort("U"), base("i64"));
    let m = fixed(&[(5, 6), (1, 2)]);
    assert_eq!(
        sort.inner_values(&m),
        vec![
            (eq_sort("U"), 1),
            (base("i64"), 2),
            (eq_sort("U"), 5),
            (base("i64"), 6)
        ]
    );
}

fn call(head: &str, args: Vec<Expr>) -> Expr {
    Expr::Call(Span::Generated, head.to_string(), args)
}

fn number(n: i64) -> Expr {
    Expr::Lit(Span::Generated, Literal::Int(n))
}

#[test]
fn maps_are_printed_as_insertions() {
    let sort = map_sort("M", base("i64"), base("i64"));
    assert_eq!(sort.reconstruct_termdag(&vec![]), call("map-empty", vec![]));
    let terms = vec![number(1), number(2), number(5), number(6)];
    let expected = call(
        "map-insert",
        vec![
            call(
                "map-insert",
                vec![call("map-empty", vec![]), number(1), number(2)],
            ),
            number(5),
            number(6),
        ],
    );
    assert_eq!(sort.reconstruct_termdag(&terms), expected);
}

/// What a term for a map of integers stands for.
fn eval(sort: &MapSort, term: &Expr) -> MapContainer {
    match term {
        Expr::Call(_, head, args) if head == "map-empty" && args.is_empty() => sort.map_empty(),
        Expr::Call(_, head, args) if head == "map-insert" => match (&args[1], &args[2]) {
            (Expr::Lit(_, Literal::Int(k)), Expr::Lit(_, Literal::Int(v))) => {
                map_insert(eval(sort, &args[0]), *k as Value, *v as Value)
            }
            _ => panic!("not integers"),
        },
        _ => panic!("not a map"),
    }
}

#[test]
fn printed_maps_stand_for_themselves() {
    let sort = map_sort("M", base("i64"), base("i64"));
    let m = fixed(&[(4, 1), (2, 9), (7, 7)]);
    let terms: Vec<Expr> = m.iter().iter().map(|v| number(*v as i64)).collect();
    assert_eq!(eval(&sort, &sort.reconstruct_termdag(&terms)), m);
}

#[test]
fn primitives_are_registered_in_order() {
    let mut eg = EGraph {
        type_info: TypeInfo { sorts: vec![] },
        primitives: vec![],
    };
    let renaming = map_sort("Renaming", base("i64"), base("i64"));
    renaming.register_primitives(&mut eg);
    let ops: Vec<&'static str> = eg
        .primitives
        .iter()
        .map(|p| match p {
            Primitive::MapOp(op, sort) => {
                assert_eq!(*sort, renaming);
                op.name()
            }
            Primitive::MapShape(p) => p.name(),
            Primitive::MapInverse(p) => p.name(),
            Primitive::MapCompose(p) => p.name(),
            Primitive::MapFindMapping(p) => {
                assert_eq!(*p.sort, Sort::MapSort(renaming.clone()));
                p.name()
            }
            _ => panic!("not a primitive on maps"),
        })
        .collect();
    assert_eq!(
        ops,
        vec![
            "map-empty",
            "map-get",
            "map-insert",
            "map-remove",
            "map-length",
            "map-contains",
            "map-not-contains",
            "map-inverse",
            "map-union",
            "shape2",
            "inverse",
            "compose",
            "find-mapping"
        ]
    );
    let before = eg.primitives.len();
    map_sort("M", base("i64"), eq_sort("U")).register_primitives(&mut eg);
    assert_eq!(eg.primitives.len(), before + 12);
}

#[test]
fn signatures_name_the_sorts() {
    let sort = map_sort("M", eq_sort("U"), base("i64"));
    let map = || Operand::Of(Arc::new(Sort::MapSort(sort.clone())));
    let s = MapOp::Insert.signature(&sort);
    assert_eq!(
        s.inputs,
        vec![map(), Operand::Of(eq_sort("U")), Operand::Of(base("i64"))]
    );
    assert_eq!(s.output, map());
    assert!(!s.variadic && !s.partial);
    let s = MapOp::Get.signature(&sort);
    assert_eq!(s.inputs, vec![map(), Operand::Of(eq_sort("U"))]);
    assert_eq!(s.output, Operand::Of(base("i64")));
    assert!(s.partial);
    let s = MapOp::Length.signature(&sort);
    assert_eq!((s.inputs, s.output), (vec![map()], Operand::I64));
    let s = MapOp::NotContains.signature(&sort);
    assert_eq!(s.output, Operand::Unit);
    assert!(s.partial);
    let s = MapOp::Union.signature(&sort);
    assert_eq!((s.inputs, s.partial), (vec![map(), map()], true));
    assert!(MapOp::Empty.signature(&sort).inputs.is_empty());
}

#[test]
fn constraints_pin_the_sorts() {
    let span = Span::Generated;
    assert!(matches!(
        Shape {}.get_type_constraints(&span),
        TypeConstraint::Unconstrained
    ));
    match (Inverse {}).get_type_constraints(&span) {
        TypeConstraint::AllEqual {
            name,
            all_arguments_sort: None,
            ..
        } => assert_eq!(name, "inverse"),
        _ => panic!("wrong constraint"),
    }
    match (Compose {}).get_type_constraints(&span) {
        TypeConstraint::AllEqual {
            name,
            all_arguments_sort: None,
            ..
        } => assert_eq!(name, "compose"),
        _ => panic!("wrong constraint"),
    }
    match (FindMapping { sort: base("m") }).get_type_constraints(&span) {
        TypeConstraint::AllEqual {
            name,
            all_arguments_sort: Some(sort),
            ..
        } => {
            assert_eq!(name, "find-mapping");
            assert_eq!(sort, base("m"));
        }
        _ => panic!("wrong constraint"),
    }
}

#[test]
fn renaming_primitives_work_on_maps_only() {
    let m = container(true, true, &[(0, 1), (1, 2)]);
    let n = fixed(&[(7, 0), (8, 5)]);
    assert_eq!(
        Inverse {}.apply(&vec![Some(m.clone())]),
        Some(fixed(&[(1, 0), (2, 1)]))
    );
    assert_eq!(Inverse {}.apply(&vec![None]), None);
    assert_eq!(
        Compose {}.apply(&vec![Some(m.clone()), Some(n)]),
        Some(fixed(&[(7, 1)]))
    );
    assert_eq!(Compose {}.apply(&vec![None]), None);
    assert_eq!(Compose {}.apply(&vec![Some(m), None]), None);
}

#[test]
fn find_mapping_pairs_the_halves() {
    let find = FindMapping { sort: base("m") };
    let arg = |entries: &[(Value, Value)]| Some(container(true, true, entries));
    assert_eq!(find.apply(&vec![]), Some(fixed(&[])));
    assert_eq!(
        find.apply(&vec![
            arg(&[(0, 5)]),
            arg(&[(0, 6)]),
            arg(&[(0, 1)]),
            arg(&[(0, 2)])
        ]),
        Some(fixed(&[(1, 5), (2, 6)]))
    );
    assert_eq!(
        find.apply(&vec![
            arg(&[(0, 5)]),
            arg(&[(0, 5)]),
            arg(&[(0, 1)]),
            arg(&[(0, 2)])
        ]),
        None
    );
    assert_eq!(find.apply(&vec![arg(&[]), None]), None);
    // A last argument without a partner is not looked at.
    assert_eq!(
        find.apply(&vec![arg(&[(0, 5)]), arg(&[(0, 1)]), None]),
        Some(fixed(&[(1, 5)]))
    );
}

#[test]
fn shape_numbers_values_by_slot() {
    // The keys of the first map stand for the slots 8 and -2.
    let first = SlotMap {
        map: fixed(&[(0, 50), (1, 40)]),
        slots: vec![8, -2],
    };
    let second = SlotMap {
        map: fixed(&[(0, 50), (3, 60)]),
        slots: vec![1, 2],
    };
    let shape = Shape {}.apply(&vec![Some(first), Some(second)]).unwrap();
    let expected: BTreeMap<Value, i64> = [(40, 0), (50, 1), (60, 2)].into_iter().collect();
    assert_eq!(shape.data, expected);
    assert!(!shape.do_rebuild_keys && !shape.do_rebuild_vals);
    assert_eq!(Shape {}.apply(&vec![]).unwrap().data, BTreeMap::new());
    assert_eq!(Shape {}.apply(&vec![None]), None);
}
