//! Renamings as finite partial maps, and the operations on them.
//!
//! A renaming is explicit: a key that it does not mention is not renamed to
//! itself, it has no image.

use vstd::prelude::*;

use crate::sort::Value;

verus! {

/// A renaming.
pub type Renaming = Map<Value, Value>;

/// Ordinary composition of partial maps: `k` goes where `outer` sends the image
/// of `k` under `inner`.
pub open spec fn composed(outer: Renaming, inner: Renaming) -> Renaming {
    Map::new(
        |k: Value| inner.contains_key(k) && outer.contains_key(inner[k]),
        |k: Value| outer[inner[k]],
    )
}

/// Whether `k` is the greatest key of `m` with the property `p`.
pub open spec fn is_greatest_key(m: Renaming, p: spec_fn(Value) -> bool, k: Value) -> bool {
    &&& m.contains_key(k)
    &&& p(k)
    &&& forall|other: Value| m.contains_key(other) && #[trigger] p(other) ==> other <= k
}

/// The greatest key of `m` with the property `p`.
pub open spec fn greatest_key(m: Renaming, p: spec_fn(Value) -> bool) -> Value {
    choose|k: Value| is_greatest_key(m, p, k)
}

/// The greatest key with a property is unique.
pub proof fn greatest_key_is(m: Renaming, p: spec_fn(Value) -> bool, k: Value)
    requires
        is_greatest_key(m, p, k),
    ensures
        greatest_key(m, p) == k,
{
    let g = greatest_key(m, p);
    assert(is_greatest_key(m, p, g));
    assert(p(k) && p(g));
}

/// The keys that `m` sends to `v`.
pub open spec fn sent_to(m: Renaming, v: Value) -> spec_fn(Value) -> bool {
    |k: Value| m[k] == v
}

/// The inverse of the entries of `m`: each value goes back to the greatest key
/// that has it.
pub open spec fn inverted(m: Renaming) -> Renaming {
    Map::new(|v: Value| m.contains_value(v), |v: Value| greatest_key(m, sent_to(m, v)))
}

/// Whether two renamings agree wherever both are defined.
pub open spec fn compatible(a: Renaming, b: Renaming) -> bool {
    forall|k: Value| #[trigger] a.contains_key(k) && b.contains_key(k) ==> a[k] == b[k]
}

/// The union of two renamings; none where they disagree.
pub open spec fn united(a: Renaming, b: Renaming) -> Option<Renaming> {
    if compatible(a, b) {
        Some(a.union_prefer_right(b))
    } else {
        None
    }
}

/// Whether no two keys have the same image.
pub open spec fn is_injective(m: Renaming) -> bool {
    forall|j: Value, k: Value|
        #![trigger m[j], m[k]]
        m.contains_key(j) && m.contains_key(k) && m[j] == m[k] ==> j == k
}

/// Pairs of renamings, each a renaming of the first node and the one at the
/// same place of the second node.
pub type Pairs = Seq<(Renaming, Renaming)>;

/// Whether some pair forces the renaming between its nodes to send `from` to
/// `to`: the second renaming has the value `from` at a key where the first has
/// `to`.
pub open spec fn forced(pairs: Pairs, from: Value, to: Value) -> bool {
    exists|i: int, k: Value| forced_at(pairs, i, k, from, to)
}

/// The pair and the key at which `from` is forced to `to`.
pub open spec fn forced_at(pairs: Pairs, i: int, k: Value, from: Value, to: Value) -> bool {
    &&& 0 <= i < pairs.len()
    &&& pairs[i].0.contains_key(k)
    &&& pairs[i].1.contains_key(k)
    &&& pairs[i].1[k] == from
    &&& pairs[i].0[k] == to
}

/// Whether the renamings of each pair mention the same keys.
pub open spec fn same_keys(pairs: Pairs) -> bool {
    forall|i: int| 0 <= i < pairs.len() ==> (#[trigger] pairs[i]).0.dom() == pairs[i].1.dom()
}

/// Whether no value is forced to two values.
pub open spec fn forced_once(pairs: Pairs) -> bool {
    forall|from: Value, to: Value, other: Value|
        #![trigger forced(pairs, from, to), forced(pairs, from, other)]
        forced(pairs, from, to) && forced(pairs, from, other) ==> to == other
}

/// Whether no two values are forced to one value.
pub open spec fn forced_apart(pairs: Pairs) -> bool {
    forall|from: Value, other: Value, to: Value|
        #![trigger forced(pairs, from, to), forced(pairs, other, to)]
        forced(pairs, from, to) && forced(pairs, other, to) ==> from == other
}

/// Whether the second nodes are the first up to a renaming.
pub open spec fn mappable(pairs: Pairs) -> bool {
    same_keys(pairs) && forced_once(pairs) && forced_apart(pairs)
}

/// Whether `m` is exactly what the pairs force.
pub open spec fn is_forced_mapping(pairs: Pairs, m: Renaming) -> bool {
    forall|from: Value, to: Value| #[trigger]
        forced(pairs, from, to) <==> m.contains_key(from) && m[from] == to
}

/// Whether `s` lists the entries of `m` by increasing rank of their keys.
pub open spec fn is_ordered<K, W>(s: Seq<(K, W)>, m: Map<K, W>, rank: spec_fn(K) -> int) -> bool {
    &&& forall|i: int, j: int|
        0 <= i < j < s.len() ==> rank((#[trigger] s[i]).0) < rank((#[trigger] s[j]).0)
    &&& forall|i: int|
        0 <= i < s.len() ==> m.contains_key((#[trigger] s[i]).0) && m[s[i].0] == s[i].1
    &&& forall|k: K| #[trigger] m.contains_key(k) ==> s.contains((k, m[k]))
}

/// The entries of `m` by increasing rank of their keys.
pub open spec fn ordered<K, W>(m: Map<K, W>, rank: spec_fn(K) -> int) -> Seq<(K, W)> {
    choose|s: Seq<(K, W)>| is_ordered(s, m, rank)
}

/// There is only one way to list the entries of a map in order.
pub proof fn ordered_is<K, W>(s: Seq<(K, W)>, m: Map<K, W>, rank: spec_fn(K) -> int)
    requires
        is_ordered(s, m, rank),
    ensures
        ordered(m, rank) == s,
{
    ordered_entries_are_unique(ordered(m, rank), s, m, rank);
}

/// Two ordered lists of the entries of one map are equal.
proof fn ordered_entries_are_unique<K, W>(
    s: Seq<(K, W)>,
    t: Seq<(K, W)>,
    m: Map<K, W>,
    rank: spec_fn(K) -> int,
)
    requires
        is_ordered(s, m, rank),
        is_ordered(t, m, rank),
    ensures
        s == t,
    decreases s.len(),
{
    if s.len() > 0 {
        let k = s.last().0;
        assert(m.contains_key(s[s.len() - 1].0));
        assert(t.contains((k, m[k])));
        assert(m.contains_key(t[t.len() - 1].0));
        assert(s.contains((t.last().0, m[t.last().0])));
        let i = s.index_of((t.last().0, m[t.last().0]));
        let j = t.index_of((k, m[k]));
        assert(s[i].0 == t[t.len() - 1].0 && t[j].0 == s[s.len() - 1].0);
        assert(i == s.len() - 1 && j == t.len() - 1);
        let rest = m.remove(k);
        ordered_without_last(s, m, rank);
        ordered_without_last(t, m, rank);
        ordered_entries_are_unique(s.drop_last(), t.drop_last(), rest, rank);
        assert(s =~= s.drop_last().push(s.last()));
        assert(t =~= t.drop_last().push(t.last()));
    } else if t.len() > 0 {
        assert(m.contains_key(t[0].0));
        assert(s.contains((t[0].0, m[t[0].0])));
    } else {
        assert(s =~= t);
    }
}

/// Without its last entry, the list is that of the map without that key.
proof fn ordered_without_last<K, W>(s: Seq<(K, W)>, m: Map<K, W>, rank: spec_fn(K) -> int)
    requires
        is_ordered(s, m, rank),
        s.len() > 0,
    ensures
        is_ordered(s.drop_last(), m.remove(s.last().0), rank),
{
    let rest = m.remove(s.last().0);
    let t = s.drop_last();
    assert forall|i: int| 0 <= i < t.len() implies rest.contains_key((#[trigger] t[i]).0)
        && rest[t[i].0] == t[i].1 by {
        assert(t[i] == s[i]);
        assert(rank(s[i].0) < rank(s[s.len() - 1].0));
    }
    assert forall|k: K| #[trigger] rest.contains_key(k) implies t.contains((k, rest[k])) by {
        assert(m.contains_key(k));
        let i = s.index_of((k, m[k]));
        assert(s[i] == (k, m[k]));
        assert(i < t.len());
        assert(t[i] == (k, rest[k]));
    }
}

/// The rank of a value: its id.
pub open spec fn by_id() -> spec_fn(Value) -> int {
    |v: Value| v as int
}

/// The rank of a slot: its number.
pub open spec fn by_slot() -> spec_fn(i64) -> int {
    |slot: i64| slot as int
}

/// Whether `s` lists the entries of `m` in the order of their keys.
pub open spec fn is_entries(s: Seq<(Value, Value)>, m: Renaming) -> bool {
    is_ordered(s, m, by_id())
}

/// The entries of `m` in the order of their keys.
pub open spec fn entries_of(m: Renaming) -> Seq<(Value, Value)> {
    ordered(m, by_id())
}

/// The entries of every finite map can be listed in order.
pub proof fn entries_exist(m: Renaming)
    requires
        m.dom().finite(),
    ensures
        is_entries(entries_of(m), m),
{
    let s = listed(m);
    assert(is_ordered(s, m, by_id()));
}

/// Lists the entries of a finite map in order.
proof fn listed(m: Renaming) -> (s: Seq<(Value, Value)>)
    requires
        m.dom().finite(),
    ensures
        is_entries(s, m),
    decreases m.dom().len(),
{
    if m.dom().len() == 0 {
        let s = Seq::<(Value, Value)>::empty();
        assert forall|k: Value| #[trigger] m.contains_key(k) implies s.contains((k, m[k])) by {
            assert(m.dom().contains(k));
        }
        s
    } else {
        let any = m.dom().choose();
        assert(m.contains_key(any));
        let top = last_key_from(m, any);
        let rest = m.remove(top);
        let before = listed(rest);
        let s = before.push((top, m[top]));
        assert forall|i: int, j: int| 0 <= i < j < s.len() implies by_id()((#[trigger] s[i]).0)
            < by_id()((#[trigger] s[j]).0) by {
            assert(rest.contains_key(before[i].0));
            if j < before.len() {
                assert(s[j] == before[j]);
            } else {
                assert(m.contains_key(before[i].0));
            }
        }
        assert forall|i: int| 0 <= i < s.len() implies m.contains_key((#[trigger] s[i]).0)
            && m[s[i].0] == s[i].1 by {
            if i < before.len() {
                assert(rest.contains_key(before[i].0));
            }
        }
        assert forall|k: Value| #[trigger] m.contains_key(k) implies s.contains((k, m[k])) by {
            if k == top {
                assert(s[before.len() as int] == (k, m[k]));
            } else {
                assert(rest.contains_key(k));
                let i = before.index_of((k, rest[k]));
                assert(before.contains((k, rest[k])));
                assert(s[i] == (k, m[k]));
            }
        }
        s
    }
}

/// The greatest key, searched upwards from a key.
proof fn last_key_from(m: Renaming, k: Value) -> (top: Value)
    requires
        m.contains_key(k),
    ensures
        m.contains_key(top),
        forall|other: Value| #[trigger] m.contains_key(other) ==> other <= top,
    decreases u32::MAX - k,
{
    if exists|other: Value| #[trigger] m.contains_key(other) && other > k {
        let other = choose|other: Value| #[trigger] m.contains_key(other) && other > k;
        last_key_from(m, other)
    } else {
        k
    }
}

// ---------------------------------------------------------------------------
// Laws
// ---------------------------------------------------------------------------
/// Composition is associative.
pub proof fn compose_is_associative(a: Renaming, b: Renaming, c: Renaming)
    ensures
        composed(composed(a, b), c) == composed(a, composed(b, c)),
{
    assert(composed(composed(a, b), c) =~= composed(a, composed(b, c)));
}

/// Every value has a greatest key among those that have it.
pub proof fn greatest_key_exists(m: Renaming, v: Value)
    requires
        m.contains_value(v),
    ensures
        is_greatest_key(m, sent_to(m, v), greatest_key(m, sent_to(m, v))),
{
    let k = choose|k: Value| m.contains_key(k) && m[k] == v;
    let top = greatest_from(m, v, k);
    assert(is_greatest_key(m, sent_to(m, v), top));
}

/// A greatest key with the value `v`, searched upwards from a key with it.
proof fn greatest_from(m: Renaming, v: Value, k: Value) -> (top: Value)
    requires
        m.contains_key(k),
        m[k] == v,
    ensures
        is_greatest_key(m, sent_to(m, v), top),
    decreases u32::MAX - k,
{
    let p = sent_to(m, v);
    if exists|other: Value| m.contains_key(other) && m[other] == v && other > k {
        let other = choose|other: Value| m.contains_key(other) && m[other] == v && other > k;
        greatest_from(m, v, other)
    } else {
        assert(is_greatest_key(m, p, k));
        k
    }
}

/// Composing a renaming with its inverse is the identity over its values, also
/// where several keys share a value.
pub proof fn compose_with_inverse_is_identity(m: Renaming)
    ensures
        composed(m, inverted(m)) == Map::new(|v: Value| m.contains_value(v), |v: Value| v),
{
    let id = composed(m, inverted(m));
    assert forall|v: Value| m.contains_value(v) implies id.contains_key(v) && id[v] == v by {
        greatest_key_exists(m, v);
    }
    assert(id =~= Map::new(|v: Value| m.contains_value(v), |v: Value| v));
}

/// Composing the inverse of an injective renaming with it is the identity over
/// its keys.
pub proof fn inverse_composed_is_identity(m: Renaming)
    requires
        is_injective(m),
    ensures
        composed(inverted(m), m) == Map::new(|k: Value| m.contains_key(k), |k: Value| k),
{
    let id = composed(inverted(m), m);
    assert forall|k: Value| m.contains_key(k) implies id.contains_key(k) && id[k] == k by {
        assert(m.contains_value(m[k]));
        greatest_key_exists(m, m[k]);
    }
    assert(id =~= Map::new(|k: Value| m.contains_key(k), |k: Value| k));
}

/// The inverse of an injective renaming is injective, and inverting it again
/// gives the renaming back.
pub proof fn inverse_is_an_involution(m: Renaming)
    requires
        is_injective(m),
    ensures
        is_injective(inverted(m)),
        inverted(inverted(m)) == m,
{
    let inv = inverted(m);
    assert forall|v: Value| inv.contains_key(v) implies m.contains_key(inv[v]) && m[inv[v]]
        == v by {
        greatest_key_exists(m, v);
    }
    assert forall|k: Value| m.contains_key(k) implies inv.contains_key(m[k]) && inv[m[k]] == k by {
        assert(m.contains_value(m[k]));
        greatest_key_exists(m, m[k]);
    }
    let back = inverted(inv);
    assert forall|k: Value| m.contains_key(k) implies back.contains_key(k) && back[k] == m[k] by {
        assert(inv.contains_value(k)) by {
            assert(inv.contains_key(m[k]) && inv[m[k]] == k);
        }
        assert(is_greatest_key(inv, sent_to(inv, k), m[k]));
        greatest_key_is(inv, sent_to(inv, k), m[k]);
    }
    assert forall|k: Value| back.contains_key(k) implies m.contains_key(k) by {
        let v = choose|v: Value| inv.contains_key(v) && inv[v] == k;
        assert(m.contains_key(inv[v]));
    }
    assert(back =~= m);
}

/// A node that is moved to the leader of a child keeps its view of the child: if
/// `rename` leads from the child to its leader, the edge `edge` becomes
/// `(compose edge (inverse rename))`, and composing that with `rename` gives the
/// edge back.
pub proof fn child_rewrite_keeps_the_view(edge: Renaming, rename: Renaming)
    requires
        is_injective(rename),
        edge.dom().subset_of(rename.dom()),
    ensures
        composed(composed(edge, inverted(rename)), rename) == edge,
{
    inverse_composed_is_identity(rename);
    compose_is_associative(edge, inverted(rename), rename);
    let id = composed(inverted(rename), rename);
    assert forall|k: Value| #[trigger] composed(edge, id).contains_key(k) == edge.contains_key(k)
        && (edge.contains_key(k) ==> composed(edge, id)[k] == edge[k]) by {
        if edge.contains_key(k) {
            assert(edge.dom().contains(k));
            assert(rename.dom().contains(k));
        }
    }
    assert(composed(edge, id) =~= edge);
}

/// What pairs of equal nodes up to renaming force is an injective renaming that
/// turns each second renaming into the first.
pub proof fn forced_mapping_renames_second_to_first(pairs: Pairs, m: Renaming)
    requires
        mappable(pairs),
        is_forced_mapping(pairs, m),
    ensures
        is_injective(m),
        forall|i: int|
            0 <= i < pairs.len() ==> composed(m, (#[trigger] pairs[i]).1) == pairs[i].0,
{
    assert forall|j: Value, k: Value|
        #![trigger m[j], m[k]]
        m.contains_key(j) && m.contains_key(k) && m[j] == m[k] implies j == k by {
        assert(forced(pairs, j, m[j]));
        assert(forced(pairs, k, m[k]));
    }
    assert forall|i: int| 0 <= i < pairs.len() implies composed(m, (#[trigger] pairs[i]).1)
        == pairs[i].0 by {
        let (first, second) = pairs[i];
        let image = composed(m, second);
        assert(first.dom() == second.dom());
        assert forall|k: Value| #[trigger] image.contains_key(k) == first.contains_key(k) && (
        first.contains_key(k) ==> image[k] == first[k]) by {
            assert(first.contains_key(k) == first.dom().contains(k));
            assert(second.contains_key(k) == second.dom().contains(k));
            if second.contains_key(k) {
                assert(forced_at(pairs, i, k, second[k], first[k]));
                assert(forced(pairs, second[k], first[k]));
            }
        }
        assert(image =~= first);
    }
}

/// Any injective renaming that turns each second renaming into the first, and
/// is defined on all of the second's values, shows that the pairs force one
/// renaming; the forced one is part of it.
pub proof fn renaming_implies_forced_mapping(pairs: Pairs, r: Renaming)
    requires
        is_injective(r),
        forall|i: int|
            0 <= i < pairs.len() ==> composed(r, (#[trigger] pairs[i]).1) == pairs[i].0,
        forall|i: int, k: Value|
            0 <= i < pairs.len() && #[trigger] pairs[i].1.contains_key(k) ==> r.contains_key(
                pairs[i].1[k],
            ),
    ensures
        mappable(pairs),
        forall|from: Value, to: Value| #[trigger]
            forced(pairs, from, to) ==> r.contains_key(from) && r[from] == to,
{
    assert forall|from: Value, to: Value| #[trigger] forced(pairs, from, to) implies r.contains_key(
        from,
    ) && r[from] == to by {
        let (i, k) = choose|i: int, k: Value| forced_at(pairs, i, k, from, to);
        assert(composed(r, pairs[i].1) == pairs[i].0);
        assert(pairs[i].1.contains_key(k));
    }
    assert forall|i: int| 0 <= i < pairs.len() implies (#[trigger] pairs[i]).0.dom()
        == pairs[i].1.dom() by {
        assert(composed(r, pairs[i].1) == pairs[i].0);
        assert(pairs[i].0.dom() =~= pairs[i].1.dom());
    }
}

} // verus!
