use slotted::sort::map::{MapContainer, MapOp, MapSort};
use slotted::sort::operations::{MapDatum, VecDatum};
use slotted::sort::vec::{IntVec, VecContainer, VecOp, VecSort};
use slotted::sort::{Sort, Value};
use std::sync::Arc;

fn map(entries: &[(Value, Value)]) -> MapDatum {
    MapDatum::Container(MapContainer {
        do_rebuild_keys: true,
        do_rebuild_vals: false,
        data: entries.iter().cloned().collect(),
    })
}

fn key(v: Value) -> MapDatum {
    MapDatum::Value(v)
}

fn map_sort() -> MapSort {
    MapSort {
        name: "M".to_string(),
        key: Arc::new(Sort::EqSort("U".to_string())),
        value: Arc::new(Sort::BaseSort("i64".to_string())),
    }
}

#[test]
fn each_map_operation_applies_its_function() {
    let sort = map_sort();
    let m = || map(&[(1, 5), (2, 6)]);
    assert_eq!(sort.apply(MapOp::Empty, &vec![]), Some(map(&[])));
    assert_eq!(
        sort.apply(MapOp::Get, &vec![m(), key(2)]),
        Some(MapDatum::Value(6))
    );
    assert_eq!(sort.apply(MapOp::Get, &vec![m(), key(6)]), None);
    assert_eq!(
        sort.apply(MapOp::Insert, &vec![m(), key(2), key(9)]),
        Some(map(&[(1, 5), (2, 9)]))
    );
    assert_eq!(
        sort.apply(MapOp::Remove, &vec![m(), key(1)]),
        Some(map(&[(2, 6)]))
    );
    assert_eq!(
        sort.apply(MapOp::Length, &vec![m()]),
        Some(MapDatum::I64(2))
    );
    assert_eq!(
        sort.apply(MapOp::Contains, &vec![m(), key(1)]),
        Some(MapDatum::Unit)
    );
    assert_eq!(sort.apply(MapOp::Contains, &vec![m(), key(5)]), None);
    assert_eq!(
        sort.apply(MapOp::NotContains, &vec![m(), key(5)]),
        Some(MapDatum::Unit)
    );
    assert_eq!(sort.apply(MapOp::NotContains, &vec![m(), key(1)]), None);
    assert_eq!(
        sort.apply(MapOp::Inverse, &vec![m()]),
        Some(MapDatum::Container(MapContainer {
            do_rebuild_keys: false,
            do_rebuild_vals: true,
            data: [(5, 1), (6, 2)].into_iter().collect(),
        }))
    );
    assert_eq!(
        sort.apply(MapOp::Union, &vec![m(), map(&[(2, 6), (3, 7)])]),
        Some(map(&[(1, 5), (2, 6), (3, 7)]))
    );
    assert_eq!(sort.apply(MapOp::Union, &vec![m(), map(&[(2, 7)])]), None);
}

fn vector(items: &[Value]) -> VecDatum {
    VecDatum::Container(VecContainer {
        do_rebuild: true,
        data: items.to_vec(),
    })
}

fn item(v: Value) -> VecDatum {
    VecDatum::Value(v)
}

fn number(n: i64) -> VecDatum {
    VecDatum::I64(n)
}

#[test]
fn each_vector_operation_applies_its_function() {
    let sort = VecSort {
        name: "V".to_string(),
        element: Arc::new(Sort::EqSort("U".to_string())),
    };
    let v = || vector(&[4, 5, 6]);
    assert_eq!(sort.apply(VecOp::Empty, &vec![]), Some(vector(&[])));
    assert_eq!(
        sort.apply(VecOp::Of, &vec![item(8), item(7)]),
        Some(vector(&[8, 7]))
    );
    assert_eq!(sort.apply(VecOp::Of, &vec![]), Some(vector(&[])));
    assert_eq!(
        sort.apply(VecOp::Append, &vec![v(), vector(&[]), vector(&[4])]),
        Some(vector(&[4, 5, 6, 4]))
    );
    assert_eq!(
        sort.apply(VecOp::Push, &vec![v(), item(9)]),
        Some(vector(&[4, 5, 6, 9]))
    );
    assert_eq!(sort.apply(VecOp::Pop, &vec![v()]), Some(vector(&[4, 5])));
    assert_eq!(
        sort.apply(VecOp::Pop, &vec![vector(&[])]),
        Some(vector(&[]))
    );
    assert_eq!(sort.apply(VecOp::Length, &vec![v()]), Some(number(3)));
    assert_eq!(
        sort.apply(VecOp::Contains, &vec![v(), item(5)]),
        Some(VecDatum::Unit)
    );
    assert_eq!(sort.apply(VecOp::Contains, &vec![v(), item(1)]), None);
    assert_eq!(
        sort.apply(VecOp::NotContains, &vec![v(), item(1)]),
        Some(VecDatum::Unit)
    );
    assert_eq!(sort.apply(VecOp::NotContains, &vec![v(), item(5)]), None);
    assert_eq!(
        sort.apply(VecOp::Get, &vec![v(), number(1)]),
        Some(item(5))
    );
    assert_eq!(sort.apply(VecOp::Get, &vec![v(), number(3)]), None);
    assert_eq!(sort.apply(VecOp::Get, &vec![v(), number(-1)]), None);
    assert_eq!(
        sort.apply(VecOp::Put, &vec![v(), number(0), item(9)]),
        Some(vector(&[9, 5, 6]))
    );
    assert_eq!(
        sort.apply(VecOp::Remove, &vec![v(), number(1)]),
        Some(vector(&[4, 6]))
    );
    assert_eq!(
        sort.apply(VecOp::Range, &vec![number(3)]),
        Some(VecDatum::Ints(IntVec {
            do_rebuild: true,
            data: vec![0, 1, 2],
        }))
    );
    assert_eq!(
        sort.apply(VecOp::Range, &vec![number(-4)]),
        Some(VecDatum::Ints(IntVec {
            do_rebuild: true,
            data: vec![],
        }))
    );
}
