//! Numbering the items of a list by when they are first seen.

use vstd::prelude::*;

use crate::sort::Value;

verus! {

/// The items of `s` without repetitions, in the order in which they are first
/// seen.
pub open spec fn distinct<T>(s: Seq<T>) -> Seq<T>
    decreases s.len(),
{
    if s.len() == 0 {
        Seq::empty()
    } else {
        let before = distinct(s.drop_last());
        if before.contains(s.last()) {
            before
        } else {
            before.push(s.last())
        }
    }
}

/// The number of `v` among the items of `s`: how many other items are seen
/// before it.
pub open spec fn number_of<T>(s: Seq<T>, v: T) -> int {
    distinct(s).index_of(v)
}

/// Each item replaced by its number: the first item becomes zero, and each new
/// one gets the next number.
pub open spec fn shape_of<T>(s: Seq<T>) -> Seq<int> {
    Seq::new(s.len(), |i: int| number_of(s, s[i]))
}

/// Whether two lists repeat their items at the same places.
pub open spec fn same_aliasing<T, U>(a: Seq<T>, b: Seq<U>) -> bool {
    &&& a.len() == b.len()
    &&& forall|i: int, j: int|
        #![trigger a[i], a[j]]
        #![trigger b[i], b[j]]
        0 <= i < a.len() && 0 <= j < a.len() ==> (a[i] == a[j] <==> b[i] == b[j])
}

/// The distinct items are the items, each once.
pub proof fn distinct_items<T>(s: Seq<T>)
    ensures
        distinct(s).no_duplicates(),
        distinct(s).len() <= s.len(),
        forall|v: T| #[trigger] distinct(s).contains(v) <==> s.contains(v),
    decreases s.len(),
{
    if s.len() > 0 {
        let rest = s.drop_last();
        let before = distinct(rest);
        distinct_items(rest);
        assert forall|v: T| #[trigger] distinct(s).contains(v) <==> s.contains(v) by {
            assert(s =~= rest.push(s.last()));
            if s.contains(v) {
                let i = s.index_of(v);
                if i < rest.len() {
                    assert(rest[i] == v);
                    assert(before.contains(v));
                    let j = before.index_of(v);
                    assert(distinct(s)[j] == v);
                } else if !before.contains(v) {
                    assert(distinct(s)[before.len() as int] == v);
                }
            }
            if distinct(s).contains(v) {
                let j = distinct(s).index_of(v);
                if j < before.len() {
                    assert(before[j] == v);
                    assert(before.contains(v));
                    assert(rest.contains(v));
                    let i = rest.index_of(v);
                    assert(s[i] == v);
                } else {
                    assert(s[s.len() - 1] == v);
                }
            }
        }
    }
}

/// Seeing one more item adds it behind the distinct items, if it is new.
pub proof fn distinct_push<T>(s: Seq<T>, v: T)
    ensures
        distinct(s.push(v)) == if s.contains(v) {
            distinct(s)
        } else {
            distinct(s).push(v)
        },
{
    assert(s.push(v).drop_last() =~= s);
    distinct_items(s);
}

/// The place of an item in a list without repetitions.
pub proof fn index_in_distinct<T>(s: Seq<T>, i: int)
    requires
        s.no_duplicates(),
        0 <= i < s.len(),
    ensures
        s.index_of(s[i]) == i,
{
    assert(s.contains(s[i]));
}

/// The number of an item does not change when more items are seen, and a new
/// item gets the next number.
pub proof fn number_after_push<T>(s: Seq<T>, v: T)
    ensures
        forall|x: T| s.contains(x) ==> #[trigger] number_of(s.push(v), x) == number_of(s, x),
        !s.contains(v) ==> number_of(s.push(v), v) == distinct(s).len(),
{
    distinct_push(s, v);
    distinct_items(s);
    distinct_items(s.push(v));
    assert forall|x: T| s.contains(x) implies #[trigger] number_of(s.push(v), x) == number_of(
        s,
        x,
    ) by {
        assert(distinct(s).contains(x));
        let i = distinct(s).index_of(x);
        assert(distinct(s.push(v))[i] == x);
        index_in_distinct(distinct(s.push(v)), i);
    }
    if !s.contains(v) {
        assert(distinct(s.push(v))[distinct(s).len() as int] == v);
        index_in_distinct(distinct(s.push(v)), distinct(s).len() as int);
    }
}

/// The shape grows with the list.
pub proof fn shape_push<T>(s: Seq<T>, v: T)
    ensures
        shape_of(s.push(v)) == shape_of(s).push(
            if s.contains(v) {
                number_of(s, v)
            } else {
                distinct(s).len() as int
            },
        ),
{
    number_after_push(s, v);
    let longer = s.push(v);
    assert forall|i: int| 0 <= i < longer.len() implies shape_of(longer)[i] == shape_of(s).push(
        if s.contains(v) {
            number_of(s, v)
        } else {
            distinct(s).len() as int
        },
    )[i] by {
        if i < s.len() {
            assert(longer[i] == s[i]);
            assert(s.contains(s[i]));
        }
    }
    assert(shape_of(longer) =~= shape_of(s).push(
        if s.contains(v) {
            number_of(s, v)
        } else {
            distinct(s).len() as int
        },
    ));
}

/// A list of different values is no longer than there are values.
pub proof fn values_are_few(s: Seq<Value>)
    requires
        s.no_duplicates(),
    ensures
        s.len() <= 0x1_0000_0000,
{
    let numbers = s.map_values(|v: Value| v as int);
    assert(numbers.no_duplicates());
    numbers.unique_seq_to_set();
    vstd::set_lib::lemma_int_range(0, 0x1_0000_0000);
    assert(numbers.to_set().subset_of(vstd::set_lib::set_int_range(0, 0x1_0000_0000)));
    vstd::set_lib::lemma_len_subset(
        numbers.to_set(),
        vstd::set_lib::set_int_range(0, 0x1_0000_0000),
    );
}

// ---------------------------------------------------------------------------
// Laws
// ---------------------------------------------------------------------------
/// The numbers of a shape start at zero and leave no gap: each item that was
/// not seen before gets the count of the distinct items before it, and each
/// other item the number it had.
pub proof fn shape_numbers_first_occurrences<T>(s: Seq<T>, i: int)
    requires
        0 <= i < s.len(),
    ensures
        !s.take(i).contains(s[i]) ==> shape_of(s)[i] == distinct(s.take(i)).len(),
        forall|j: int|
            0 <= j < i && (#[trigger] s[j]) == s[i] ==> shape_of(s)[i] == shape_of(s)[j],
        0 <= shape_of(s)[i] < distinct(s).len(),
    decreases s.len(),
{
    let rest = s.drop_last();
    assert(s =~= rest.push(s.last()));
    shape_push(rest, s.last());
    distinct_items(s);
    assert(s.contains(s[i]));
    assert(distinct(s).contains(s[i]));
    if i < rest.len() {
        shape_numbers_first_occurrences(rest, i);
        assert(rest.take(i) =~= s.take(i));
    } else {
        assert(s.take(i) =~= rest);
    }
}

/// Two lists have the same shape exactly when they repeat their items at the
/// same places.
pub proof fn same_shape_iff_same_aliasing<T, U>(a: Seq<T>, b: Seq<U>)
    ensures
        shape_of(a) == shape_of(b) <==> same_aliasing(a, b),
{
    distinct_items(a);
    distinct_items(b);
    if shape_of(a) == shape_of(b) {
        assert(a.len() == shape_of(a).len());
        assert(b.len() == shape_of(b).len());
        assert forall|i: int, j: int|
            #![trigger a[i], a[j]]
            #![trigger b[i], b[j]]
            0 <= i < a.len() && 0 <= j < a.len() implies (a[i] == a[j] <==> b[i] == b[j]) by {
            assert(distinct(a).contains(a[i]) && distinct(a).contains(a[j]));
            assert(distinct(b).contains(b[i]) && distinct(b).contains(b[j]));
            assert(shape_of(a)[i] == shape_of(b)[i] && shape_of(a)[j] == shape_of(b)[j]);
            assert(distinct(a)[shape_of(a)[i]] == a[i] && distinct(a)[shape_of(a)[j]] == a[j]);
            assert(distinct(b)[shape_of(b)[i]] == b[i] && distinct(b)[shape_of(b)[j]] == b[j]);
        }
    }
    if same_aliasing(a, b) {
        same_aliasing_gives_same_shape(a, b);
    }
}

/// Lists that repeat their items at the same places have the same shape.
proof fn same_aliasing_gives_same_shape<T, U>(a: Seq<T>, b: Seq<U>)
    requires
        same_aliasing(a, b),
    ensures
        shape_of(a) == shape_of(b),
        distinct(a).len() == distinct(b).len(),
    decreases a.len(),
{
    if a.len() == 0 {
        assert(shape_of(a) =~= shape_of(b));
    } else {
        let a0 = a.drop_last();
        let b0 = b.drop_last();
        let n = a0.len() as int;
        assert(a =~= a0.push(a.last()));
        assert(b =~= b0.push(b.last()));
        assert forall|i: int, j: int|
            #![trigger a0[i], a0[j]]
            #![trigger b0[i], b0[j]]
            0 <= i < a0.len() && 0 <= j < a0.len() implies (a0[i] == a0[j] <==> b0[i] == b0[j]) by {
            assert(a[i] == a0[i] && a[j] == a0[j] && b[i] == b0[i] && b[j] == b0[j]);
        }
        same_aliasing_gives_same_shape(a0, b0);
        shape_push(a0, a.last());
        shape_push(b0, b.last());
        distinct_push(a0, a.last());
        distinct_push(b0, b.last());
        if a0.contains(a.last()) {
            let i = a0.index_of(a.last());
            assert(a[i] == a[n]);
            assert(b[i] == b[n]);
            assert(b0[i] == b.last());
            assert(shape_of(a0)[i] == shape_of(b0)[i]);
        }
        if b0.contains(b.last()) {
            let i = b0.index_of(b.last());
            assert(b[i] == b[n]);
            assert(a[i] == a[n]);
            assert(a0[i] == a.last());
        }
    }
}

/// Taking the shape of a shape changes nothing.
pub proof fn shape_is_idempotent<T>(s: Seq<T>)
    ensures
        shape_of(shape_of(s)) == shape_of(s),
{
    distinct_items(s);
    let shape = shape_of(s);
    assert forall|i: int, j: int|
        #![trigger s[i], s[j]]
        #![trigger shape[i], shape[j]]
        0 <= i < s.len() && 0 <= j < s.len() implies (s[i] == s[j] <==> shape[i] == shape[j]) by {
        assert(distinct(s).contains(s[i]) && distinct(s).contains(s[j]));
        assert(distinct(s)[shape[i]] == s[i] && distinct(s)[shape[j]] == s[j]);
    }
    same_aliasing_gives_same_shape(s, shape);
}

} // verus!
