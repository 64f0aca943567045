use slotted::sort::map::{compose, find_mapping_data, inverse};
use slotted::sort::Value;
use std::collections::BTreeMap;

fn value(n: usize) -> Value {
    n as Value
}

fn map(entries: &[(usize, usize)]) -> BTreeMap<Value, Value> {
    entries
        .iter()
        .map(|(key, mapped_value)| (value(*key), value(*mapped_value)))
        .collect()
}

#[test]
fn test_find_mapping_data_canonicalizes_identity_entries() {
    let first = map(&[(0, 1)]);
    let second = map(&[(0, 2)]);

    let result = find_mapping_data(&[(&first, &second)]).unwrap();

    assert_eq!(result, map(&[(2, 1)]));
}

#[test]
fn test_find_mapping_data_0_1() {
    let first = map(&[(8, 1)]);
    let second = map(&[(8, 0)]);

    let result = find_mapping_data(&[(&first, &second)]).unwrap();

    assert_eq!(result, map(&[(0, 1)]));
}

#[test]
fn test_does_not_find_mapping_differ_shape() {
    let first = map(&[(8, 1), (9, 1)]);
    let second = map(&[(8, 2), (9, 1)]);

    assert_eq!(find_mapping_data(&[(&first, &second)]), None);
}

#[test]
fn test_does_not_find_mapping_same_shape() {
    let first = map(&[(8, 1), (9, 1)]);
    let second = map(&[(8, 2), (9, 2)]);

    assert_eq!(
        find_mapping_data(&[(&first, &second)]).unwrap(),
        map(&[(2, 1)])
    );
}

#[test]
fn test_does_find_mapping_good() {
    let first = map(&[(0, 1)]);
    let second = map(&[(0, 2)]);

    assert_eq!(
        find_mapping_data(&[(&first, &second)]),
        Some(map(&[(2, 1)]))
    );
}

// f(x, x), f(x, y)
#[test]
fn test_differ_shape() {
    let first = map(&[(0, 0)]);
    let first2 = map(&[(0, 0)]);
    let second = map(&[(0, 0)]);
    let second2 = map(&[(0, 1)]);
    assert_eq!(
        find_mapping_data(&[(&first, &second), (&first2, &second2)]),
        None
    );
}

#[test]
fn test_compose_only_uses_explicit_entries() {
    let m1 = map(&[(1, 9)]);
    let m2 = map(&[(0, 1), (2, 3)]);

    assert_eq!(compose(&m1, &m2), map(&[(0, 9)]));
}

#[test]
fn test_inverse_preserves_explicit_identity_entries() {
    let m = map(&[(0, 0), (1, 2)]);

    assert_eq!(inverse(&m), map(&[(0, 0), (2, 1)]));
}

#[test]
fn find_mapping_needs_the_same_keys() {
    let first = map(&[(0, 1)]);
    let second = map(&[(0, 1), (1, 2)]);
    assert_eq!(find_mapping_data(&[(&first, &second)]), None);
    assert_eq!(find_mapping_data(&[(&second, &first)]), None);
}

#[test]
fn find_mapping_refuses_two_images_of_one_value() {
    let first = map(&[(8, 1), (9, 2)]);
    let second = map(&[(8, 5), (9, 5)]);
    assert_eq!(find_mapping_data(&[(&first, &second)]), None);
}

#[test]
fn find_mapping_of_no_pairs_is_empty() {
    assert_eq!(find_mapping_data(&[]), Some(map(&[])));
}

#[test]
fn the_found_renaming_turns_each_second_map_into_the_first() {
    let first = [map(&[(0, 7), (1, 8)]), map(&[(0, 8), (5, 9)])];
    let second = [map(&[(0, 1), (1, 2)]), map(&[(0, 2), (5, 3)])];
    let r = find_mapping_data(&[(&first[0], &second[0]), (&first[1], &second[1])]).unwrap();
    assert_eq!(r, map(&[(1, 7), (2, 8), (3, 9)]));
    for i in 0..2 {
        assert_eq!(compose(&r, &second[i]), first[i]);
    }
}

#[test]
fn composition_is_associative() {
    let a = map(&[(1, 2), (3, 4), (5, 5)]);
    let b = map(&[(0, 1), (2, 3), (9, 9)]);
    let c = map(&[(7, 0), (8, 2), (6, 9)]);
    assert_eq!(
        compose(&compose(&a, &b), &c),
        compose(&a, &compose(&b, &c))
    );
    assert_eq!(compose(&compose(&a, &b), &c), map(&[(7, 2), (8, 4)]));
}

#[test]
fn inverting_an_injective_map_twice_gives_it_back() {
    let m = map(&[(0, 4), (1, 3), (2, 9)]);
    assert_eq!(inverse(&m), map(&[(4, 0), (3, 1), (9, 2)]));
    assert_eq!(inverse(&inverse(&m)), m);
    assert_eq!(compose(&inverse(&m), &m), map(&[(0, 0), (1, 1), (2, 2)]));
}

#[test]
fn the_inverse_keeps_the_greatest_key() {
    let m = map(&[(1, 7), (2, 7), (3, 8)]);
    assert_eq!(inverse(&m), map(&[(7, 2), (8, 3)]));
    assert_eq!(compose(&m, &inverse(&m)), map(&[(7, 7), (8, 8)]));
}

#[test]
fn a_node_moved_to_the_leader_of_a_child_keeps_its_view() {
    // The child's slots 1 and 2 are called 7 and 8 in the leader.
    let rename = map(&[(1, 7), (2, 8), (3, 9)]);
    let edge = map(&[(1, 20), (2, 30)]);
    let moved = compose(&edge, &inverse(&rename));
    assert_eq!(moved, map(&[(7, 20), (8, 30)]));
    assert_eq!(compose(&moved, &rename), edge);
}
