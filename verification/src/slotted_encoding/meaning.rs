//! What the renaming expressions of encoded programs stand for, and that a term
//! gets the same edges wherever it stands.

use vstd::prelude::*;

use crate::ast::{ExprView, LiteralView, Span};
use crate::slotted_encoding::erasure::{
    arities_fit, body_edges_are_the_declared, declared_mask, each_arity_fits, interleaved_places,
    leaves_fit, no_places_taken, place, set_before,
};
use crate::slotted_encoding::machinery::{child_rules, pattern_edge, Pattern};
use crate::slotted_encoding::model::{
    action_expr, action_results, compose_call, compound_with_outgoing, compound_with_slots,
    edge_mask, empty_rename, expr_with_slots, exprs_with_slots, firsts, identity_over,
    identity_rename, insert_identity, inverse_call, leaf_slot, outer_slots, outgoing_edges,
    outgoing_of, path_through, slot_edges, top_expr, union_call, union_of_identities,
    values_identity, RuleScope, SlottedStateView,
};
use crate::slotted_encoding::slots::{child_has_slot, outer_slots_are_the_childrens};
use crate::sort::renaming::{
    child_rewrite_keeps_the_view, compatible, compose_is_associative,
    compose_with_inverse_is_identity, composed, forced_mapping_renames_second_to_first, inverted,
    is_forced_mapping, is_injective, mappable, united, Pairs, Renaming,
};
use crate::sort::Value;

verus! {

broadcast use body_edges_are_the_declared;

/// What renaming expressions are read by: the values of integers and the
/// renamings that the rename variables are bound to.
pub struct Reading {
    pub int_value: spec_fn(i64) -> Value,
    pub bound: spec_fn(Seq<char>) -> Renaming,
}

/// The value of an integer literal.
pub open spec fn slot_value(rd: Reading, e: ExprView) -> Option<Value> {
    match e {
        ExprView::Lit(_, LiteralView::Int(n)) => Some((rd.int_value)(n)),
        _ => None,
    }
}

/// The renaming that an expression stands for, if it is one.
pub open spec fn renaming_of(rd: Reading, e: ExprView) -> Option<Renaming>
    decreases e,
{
    match e {
        ExprView::Var(_, v) => Some((rd.bound)(v)),
        ExprView::Call(_, head, args) => if head == "map-empty"@ && args.len() == 0 {
            Some(Map::empty())
        } else if head == "map-insert"@ && args.len() == 3 {
            match (
                renaming_of(rd, args[0]),
                slot_value(rd, args[1]),
                slot_value(rd, args[2]),
            ) {
                (Some(m), Some(k), Some(v)) => Some(m.insert(k, v)),
                _ => None,
            }
        } else if head == "compose"@ && args.len() == 2 {
            match (renaming_of(rd, args[0]), renaming_of(rd, args[1])) {
                (Some(a), Some(b)) => Some(composed(a, b)),
                _ => None,
            }
        } else if head == "inverse"@ && args.len() == 1 {
            match renaming_of(rd, args[0]) {
                Some(a) => Some(inverted(a)),
                None => None,
            }
        } else if head == "map-union"@ && args.len() == 2 {
            match (renaming_of(rd, args[0]), renaming_of(rd, args[1])) {
                (Some(a), Some(b)) => united(a, b),
                _ => None,
            }
        } else {
            None
        },
        _ => None,
    }
}

/// The identity over a set of values.
pub open spec fn identity_on(values: Set<Value>) -> Renaming {
    Map::new(|v: Value| values.contains(v), |v: Value| v)
}

/// The values of a renaming.
pub open spec fn values_of(m: Renaming) -> Set<Value> {
    Set::new(|v: Value| m.contains_value(v))
}

/// The values of slots.
pub open spec fn slot_values(rd: Reading, slots: Seq<i64>) -> Set<Value> {
    Set::new(
        |v: Value|
            exists|i: int| 0 <= i < slots.len() && (rd.int_value)(#[trigger] slots[i]) == v,
    )
}

/// The values of the first `n` renamings together.
pub open spec fn all_values(ms: Seq<Renaming>, n: nat) -> Set<Value> {
    Set::new(|v: Value| exists|i: int| 0 <= i < n && (#[trigger] ms[i]).contains_value(v))
}

// ---------------------------------------------------------------------------
// Readings of the single forms
// ---------------------------------------------------------------------------
/// `(map-empty)` stands for the empty renaming.
pub proof fn empty_rename_reads(rd: Reading, span: Span)
    ensures
        renaming_of(rd, empty_rename(span)) == Some(identity_on(Set::empty())),
{
    assert(identity_on(Set::empty()) =~= Map::<Value, Value>::empty());
}

/// `(map-insert m k k)` adds the identity at one slot.
pub proof fn insert_identity_reads(rd: Reading, span: Span, m: ExprView, k: i64)
    requires
        renaming_of(rd, m) is Some,
    ensures
        renaming_of(rd, insert_identity(span, m, k)) == Some(
            renaming_of(rd, m)->0.insert((rd.int_value)(k), (rd.int_value)(k)),
        ),
{
    reveal_strlit("map-empty");
    reveal_strlit("map-insert");
}

/// `(compose a b)` stands for the composition.
pub proof fn compose_reads(rd: Reading, span: Span, a: ExprView, b: ExprView)
    requires
        renaming_of(rd, a) is Some,
        renaming_of(rd, b) is Some,
    ensures
        renaming_of(rd, compose_call(span, a, b)) == Some(
            composed(renaming_of(rd, a)->0, renaming_of(rd, b)->0),
        ),
{
    reveal_strlit("map-empty");
    reveal_strlit("map-insert");
    reveal_strlit("compose");
}

/// `(inverse a)` stands for the inverse.
pub proof fn inverse_reads(rd: Reading, span: Span, a: ExprView)
    requires
        renaming_of(rd, a) is Some,
    ensures
        renaming_of(rd, inverse_call(span, a)) == Some(inverted(renaming_of(rd, a)->0)),
{
    reveal_strlit("map-empty");
    reveal_strlit("map-insert");
    reveal_strlit("compose");
    reveal_strlit("inverse");
    assert("inverse"@.len() == 7 && "compose"@.len() == 7);
    assert("inverse"@[0] != "compose"@[0]);
}

/// `(map-union a b)` stands for the union, if there is one.
proof fn union_reads(rd: Reading, span: Span, a: ExprView, b: ExprView)
    requires
        renaming_of(rd, a) is Some,
        renaming_of(rd, b) is Some,
    ensures
        renaming_of(rd, union_call(span, a, b)) == united(
            renaming_of(rd, a)->0,
            renaming_of(rd, b)->0,
        ),
{
    reveal_strlit("map-empty");
    reveal_strlit("map-insert");
    reveal_strlit("compose");
    reveal_strlit("inverse");
    reveal_strlit("map-union");
    assert("map-union"@.len() == 9 && "map-empty"@.len() == 9);
    assert("map-union"@[4] != "map-empty"@[4]);
}

// ---------------------------------------------------------------------------
// Laws of the renaming expressions
// ---------------------------------------------------------------------------
/// The path to a child stands for the composition of the path to its parent
/// with the edge to the child.
pub proof fn path_composes_renamings(rd: Reading, span: Span, outer: ExprView, inner: ExprView)
    requires
        renaming_of(rd, outer) is Some,
        renaming_of(rd, inner) is Some,
    ensures
        renaming_of(rd, path_through(span, None, inner)) == renaming_of(rd, inner),
        renaming_of(rd, path_through(span, Some(outer), inner)) == Some(
            composed(renaming_of(rd, outer)->0, renaming_of(rd, inner)->0),
        ),
{
    compose_reads(rd, span, outer, inner);
}

/// `(compose e (inverse e))` stands for the identity over the values of `e`.
pub proof fn values_identity_is_identity(rd: Reading, span: Span, e: ExprView)
    requires
        renaming_of(rd, e) is Some,
    ensures
        renaming_of(rd, values_identity(span, e)) == Some(
            identity_on(values_of(renaming_of(rd, e)->0)),
        ),
{
    let m = renaming_of(rd, e)->0;
    inverse_reads(rd, span, e);
    compose_reads(rd, span, e, inverse_call(span, e));
    compose_with_inverse_is_identity(m);
    assert(identity_on(values_of(m)) =~= composed(m, inverted(m)));
}

/// The union of two identities is the identity over both sets: it always
/// exists.
pub proof fn union_of_two_identities(a: Set<Value>, b: Set<Value>)
    ensures
        united(identity_on(a), identity_on(b)) == Some(identity_on(a.union(b))),
{
    assert(compatible(identity_on(a), identity_on(b)));
    assert(identity_on(a).union_prefer_right(identity_on(b)) =~= identity_on(a.union(b)));
}

/// The identity that is synthesized over some edges always exists, and it is the
/// identity over all their values.
pub proof fn synthesized_identity_is_identity(
    rd: Reading,
    span: Span,
    edges: Seq<ExprView>,
    ms: Seq<Renaming>,
)
    requires
        edges.len() > 0,
        ms.len() == edges.len(),
        forall|i: int| 0 <= i < edges.len() ==> renaming_of(rd, #[trigger] edges[i]) == Some(ms[i]),
    ensures
        identity_over(span, edges) is Some,
        renaming_of(rd, identity_over(span, edges)->0) == Some(
            identity_on(all_values(ms, ms.len())),
        ),
{
    first_identities_unite(rd, span, edges, ms, edges.len());
}

/// The identities over the first `n` edges unite to the identity over their
/// values.
proof fn first_identities_unite(
    rd: Reading,
    span: Span,
    edges: Seq<ExprView>,
    ms: Seq<Renaming>,
    n: nat,
)
    requires
        0 < n <= edges.len(),
        ms.len() == edges.len(),
        forall|i: int| 0 <= i < edges.len() ==> renaming_of(rd, #[trigger] edges[i]) == Some(ms[i]),
    ensures
        renaming_of(rd, union_of_identities(span, edges, n)) == Some(
            identity_on(all_values(ms, n)),
        ),
    decreases n,
{
    if n == 1 {
        assert(renaming_of(rd, edges[0]) == Some(ms[0]));
        values_identity_is_identity(rd, span, edges[0]);
        assert(all_values(ms, 1) =~= values_of(ms[0]));
    } else {
        let k = (n - 1) as nat;
        first_identities_unite(rd, span, edges, ms, k);
        assert(renaming_of(rd, edges[n - 1]) == Some(ms[n - 1]));
        values_identity_is_identity(rd, span, edges[n - 1]);
        union_reads(
            rd,
            span,
            union_of_identities(span, edges, k),
            values_identity(span, edges[n - 1]),
        );
        union_of_two_identities(all_values(ms, k), values_of(ms[n - 1]));
        assert(all_values(ms, n) =~= all_values(ms, k).union(values_of(ms[n - 1]))) by {
            assert forall|v: Value| all_values(ms, k).union(values_of(ms[n - 1])).contains(
                v,
            ) implies all_values(ms, n).contains(v) by {
                if ms[n - 1].contains_value(v) {
                } else {
                    let i = choose|i: int| 0 <= i < k && (#[trigger] ms[i]).contains_value(v);
                    assert(ms[i].contains_value(v));
                }
            }
        }
    }
}

/// The edge of a child outside a rule stands for the identity at the child's
/// slots.
pub proof fn slot_edge_is_identity(rd: Reading, span: Span, slots: Seq<i64>, n: nat)
    requires
        n <= slots.len(),
    ensures
        renaming_of(rd, identity_rename(span, slots, n)) == Some(
            identity_on(slot_values(rd, slots.take(n as int))),
        ),
    decreases n,
{
    if n == 0 {
        empty_rename_reads(rd, span);
        assert(slot_values(rd, slots.take(0)) =~= Set::empty());
    } else {
        let k = (n - 1) as nat;
        slot_edge_is_identity(rd, span, slots, k);
        insert_identity_reads(rd, span, identity_rename(span, slots, k), slots[n - 1]);
        let v = (rd.int_value)(slots[n - 1]);
        let before = slot_values(rd, slots.take(k as int));
        let after = slot_values(rd, slots.take(n as int));
        assert(after =~= before.insert(v)) by {
            assert forall|x: Value| after.contains(x) == before.insert(v).contains(x) by {
                if after.contains(x) {
                    let i = choose|i: int|
                        0 <= i < n && (rd.int_value)(#[trigger] slots.take(n as int)[i]) == x;
                    if i < k {
                        assert(slots.take(k as int)[i] == slots.take(n as int)[i]);
                    }
                }
                if before.contains(x) {
                    let i = choose|i: int|
                        0 <= i < k && (rd.int_value)(#[trigger] slots.take(k as int)[i]) == x;
                    assert(slots.take(n as int)[i] == slots.take(k as int)[i]);
                }
                assert(slots.take(n as int)[n - 1] == slots[n - 1]);
            }
        }
        assert(identity_on(before).insert(v, v) =~= identity_on(after));
    }
}

// ---------------------------------------------------------------------------
// The machinery
// ---------------------------------------------------------------------------
/// Where a node renames to a leader with the same children, by the renaming that
/// `find-mapping` found between their edges, migrating the node gives it the
/// leader's edges.
pub proof fn migration_gives_the_leaders_edges(rd: Reading, pairs: Pairs, j: int, i: int)
    requires
        mappable(pairs),
        is_forced_mapping(pairs, (rd.bound)("R"@)),
        0 <= j < pairs.len(),
        renaming_of(rd, pattern_edge(Pattern::Plain, i)) == Some(pairs[j].1),
    ensures
        renaming_of(rd, pattern_edge(Pattern::Composed, i)) == Some(pairs[j].0),
{
    let rename = ExprView::Var(Span::Generated, "R"@);
    compose_reads(rd, Span::Generated, rename, pattern_edge(Pattern::Plain, i));
    forced_mapping_renames_second_to_first(pairs, (rd.bound)("R"@));
    assert(composed((rd.bound)("R"@), pairs[j].1) == pairs[j].0);
}

/// Where a child renames to its leader by an injective renaming that mentions
/// all slots of the child's edge, the rewritten edge to the leader, composed with
/// that renaming, is the edge to the child.
pub proof fn child_rule_keeps_the_view(rd: Reading, pos: usize)
    requires
        is_injective((rd.bound)("R"@)),
        (rd.bound)("r"@).dom().subset_of((rd.bound)("R"@).dom()),
    ensures
        ({
            let before = renaming_of(rd, pattern_edge(Pattern::ChildMatched(pos), pos as int));
            let after = renaming_of(rd, pattern_edge(Pattern::ChildReplaced(pos), pos as int));
            before is Some && after is Some && composed(after->0, (rd.bound)("R"@)) == before->0
        }),
{
    let edge = ExprView::Var(Span::Generated, "r"@);
    let rename = ExprView::Var(Span::Generated, "R"@);
    inverse_reads(rd, Span::Generated, rename);
    compose_reads(rd, Span::Generated, edge, inverse_call(Span::Generated, rename));
    child_rewrite_keeps_the_view((rd.bound)("r"@), (rd.bound)("R"@));
}

/// Renaming to a leader and on to its leader is renaming by what the
/// transitivity rule derives.
pub proof fn leader_renamings_compose(rd: Reading, edge: Renaming)
    ensures
        ({
            let first = ExprView::Var(Span::Generated, "R"@);
            let second = ExprView::Var(Span::Generated, "R2"@);
            let both = renaming_of(rd, compose_call(Span::Generated, second, first));
            both is Some && composed(both->0, edge) == composed(
                (rd.bound)("R2"@),
                composed((rd.bound)("R"@), edge),
            )
        }),
{
    let first = ExprView::Var(Span::Generated, "R"@);
    let second = ExprView::Var(Span::Generated, "R2"@);
    compose_reads(rd, Span::Generated, second, first);
    compose_is_associative((rd.bound)("R2"@), (rd.bound)("R"@), edge);
}

/// There is one child rule for each child that carries slots.
pub proof fn one_child_rule_per_slotted_child(
    name: Seq<char>,
    output: Seq<char>,
    mask: Seq<bool>,
    n: nat,
)
    ensures
        child_rules(name, output, mask, n).len() == set_before(mask, n),
    decreases n,
{
    if n > 0 {
        one_child_rule_per_slotted_child(name, output, mask, (n - 1) as nat);
    }
}

// ---------------------------------------------------------------------------
// One term, one encoding
// ---------------------------------------------------------------------------
/// A term of an encoded program, with the renamings that its edges stand for.
pub enum Node {
    /// A literal or a variable.
    Plain(ExprView),
    /// A call: its head, its children, and the renaming of each child that has
    /// an edge.
    Call(Seq<char>, Seq<Node>, Seq<Option<Option<Renaming>>>),
}

/// What an encoded term comes to.
pub open spec fn node_of(rd: Reading, ctors: Map<Seq<char>, Seq<bool>>, e: ExprView) -> Node
    decreases e,
{
    match e {
        ExprView::Call(span, head, args) => {
            let mask = declared_mask(ctors, head, args.len());
            Node::Call(
                head,
                Seq::new(
                    mask.len(),
                    |i: int|
                        if 0 <= place(mask, i) < args.len() {
                            node_of(rd, ctors, args[place(mask, i)])
                        } else {
                            arbitrary()
                        },
                ),
                Seq::new(
                    mask.len(),
                    |i: int|
                        if mask[i] {
                            Some(renaming_of(rd, args[place(mask, i) + 1]))
                        } else {
                            None
                        },
                ),
            )
        },
        _ => Node::Plain(e),
    }
}

/// Whether a term is made of literals and calls alone, none of which is a name
/// with recorded slots.
pub open spec fn is_ground(st: SlottedStateView, e: ExprView) -> bool
    decreases e, 0nat,
{
    match e {
        ExprView::Lit(_, _) => true,
        ExprView::Var(_, _) => false,
        ExprView::Call(span, head, args) => {
            &&& !(args.len() == 0 && st.let_outer_slots.contains_key(head))
            &&& first_are_ground(st, args, args.len())
        },
    }
}

/// Whether that holds of the first `n` terms of a list.
pub open spec fn first_are_ground(st: SlottedStateView, args: Seq<ExprView>, n: nat) -> bool
    decreases args, n,
{
    if n == 0 || n > args.len() {
        true
    } else {
        first_are_ground(st, args, (n - 1) as nat) && is_ground(st, args[n - 1])
    }
}

/// It then holds of each of them.
proof fn each_is_ground(st: SlottedStateView, args: Seq<ExprView>, n: nat)
    requires
        first_are_ground(st, args, n),
        n <= args.len(),
    ensures
        forall|i: int| 0 <= i < n ==> #[trigger] is_ground(st, args[i]),
    decreases n,
{
    if n > 0 {
        each_is_ground(st, args, (n - 1) as nat);
    }
}

/// Whether the outgoing rename of a term in a rule head stands for the identity
/// at the slots that the term has outside rules.
spec fn outgoing_fits(rd: Reading, out: Option<ExprView>, slots: Seq<i64>) -> bool {
    match out {
        Some(o) => renaming_of(rd, o) == Some(identity_on(slot_values(rd, slots))),
        None => slots.len() == 0,
    }
}

/// A ground term that is written in a rule head comes to the same node, edge by
/// edge, as the same term outside rules.
pub proof fn top_level_and_rule_heads_agree(
    rd: Reading,
    st: SlottedStateView,
    scope: RuleScope,
    e: ExprView,
)
    requires
        leaves_fit(st),
        arities_fit(st.rewritten_ctors, e),
        is_ground(st, e),
    ensures
        node_of(rd, st.rewritten_ctors, top_expr(st, e)) == node_of(
            rd,
            st.rewritten_ctors,
            action_expr(st, scope, e).0,
        ),
{
    encodings_agree(rd, st, scope, e);
}

/// The induction behind [`top_level_and_rule_heads_agree`].
proof fn encodings_agree(rd: Reading, st: SlottedStateView, scope: RuleScope, e: ExprView)
    requires
        leaves_fit(st),
        arities_fit(st.rewritten_ctors, e),
        is_ground(st, e),
    ensures
        node_of(rd, st.rewritten_ctors, top_expr(st, e)) == node_of(
            rd,
            st.rewritten_ctors,
            action_expr(st, scope, e).0,
        ),
        outgoing_fits(rd, action_expr(st, scope, e).1, expr_with_slots(st, e).1),
    decreases e,
{
    if let ExprView::Call(span, head, args) = e {
        let ctors = st.rewritten_ctors;
        let n = args.len();
        let tops = exprs_with_slots(st, args);
        let outs = action_results(st, scope, args);
        each_arity_fits(ctors, args, n);
        each_is_ground(st, args, n);
        if let Some(slot) = leaf_slot(st.leaf_ctors, head, args) {
            leaf_outgoing_fits(rd, span, slot);
        } else {
            assert forall|i: int| 0 <= i < n implies node_of(rd, ctors, (#[trigger] tops[i]).0)
                == node_of(rd, ctors, outs[i].0) && outgoing_fits(rd, outs[i].1, tops[i].1) by {
                assert(arities_fit(ctors, args[i]));
                assert(is_ground(st, args[i]));
                encodings_agree(rd, st, scope, args[i]);
                assert(tops[i] == expr_with_slots(st, args[i]));
                assert(outs[i] == action_expr(st, scope, args[i]));
            }
            if ctors.contains_key(head) {
                let mask = ctors[head];
                compounds_agree(rd, ctors, span, head, tops, outs, mask);
                compound_outgoing_fits(rd, span, tops, outs, mask, n);
                let edges = outgoing_of(outs, mask, n);
                let ms = renamings(rd, edges);
                if edges.len() > 0 {
                    synthesized_identity_is_identity(rd, span, edges, ms);
                } else {
                    let slots = outer_slots(tops, mask, n);
                    if slots.len() > 0 {
                        assert(slots.contains(slots[0]));
                        assert(slot_values(rd, slots).contains((rd.int_value)(slots[0])));
                        assert(!all_values(ms, 0).contains((rd.int_value)(slots[0])));
                    }
                }
            } else {
                let plain = edge_mask(ctors, head, n);
                assert forall|i: int| 0 <= i < n implies place(plain, i) == i by {
                    no_places_taken(plain, i as nat);
                }
                assert(firsts(tops).len() == n && firsts(outs).len() == n);
                let a = node_of(rd, ctors, ExprView::Call(span, head, firsts(tops)));
                let b = node_of(rd, ctors, ExprView::Call(span, head, firsts(outs)));
                assert(edge_mask(ctors, head, firsts(tops).len()) =~= plain);
                assert(edge_mask(ctors, head, firsts(outs).len()) =~= plain);
                assert forall|i: int| 0 <= i < n implies a->Call_1[i] == b->Call_1[i] by {
                    assert(tops[i].0 == firsts(tops)[i] && outs[i].0 == firsts(outs)[i]);
                }
                assert(a->Call_1 =~= b->Call_1);
                assert(a->Call_2 =~= b->Call_2);
            }
        }
    }
}

/// The outgoing rename of a leaf is the identity at its slot.
proof fn leaf_outgoing_fits(rd: Reading, span: Span, slot: i64)
    ensures
        outgoing_fits(rd, Some(insert_identity(span, empty_rename(span), slot)), seq![slot]),
{
    let slots = seq![slot];
    slot_edge_is_identity(rd, span, slots, 1);
    assert(slots.take(1) =~= slots);
    assert(identity_rename(span, slots, 1) == insert_identity(
        span,
        identity_rename(span, slots, 0),
        slot,
    ));
}

/// Two calls of a rewritten constructor come to the same node, if their children
/// do and the outgoing renames fit the slots.
proof fn compounds_agree(
    rd: Reading,
    ctors: Map<Seq<char>, Seq<bool>>,
    span: Span,
    head: Seq<char>,
    tops: Seq<(ExprView, Seq<i64>)>,
    outs: Seq<(ExprView, Option<ExprView>)>,
    mask: Seq<bool>,
)
    requires
        ctors.contains_key(head),
        mask == ctors[head],
        tops.len() == mask.len(),
        outs.len() == mask.len(),
        forall|i: int|
            0 <= i < mask.len() ==> node_of(rd, ctors, (#[trigger] tops[i]).0) == node_of(
                rd,
                ctors,
                outs[i].0,
            ) && outgoing_fits(rd, outs[i].1, tops[i].1),
    ensures
        node_of(rd, ctors, compound_with_slots(span, head, tops, mask).0) == node_of(
            rd,
            ctors,
            compound_with_outgoing(span, head, outs, mask).0,
        ),
{
    let n = mask.len();
    let top_edges = slot_edges(span, tops, mask);
    let out_edges = outgoing_edges(span, outs, mask);
    interleaved_places(firsts(tops), top_edges, mask, n);
    interleaved_places(firsts(outs), out_edges, mask, n);
    let a = node_of(rd, ctors, compound_with_slots(span, head, tops, mask).0);
    let b = node_of(rd, ctors, compound_with_outgoing(span, head, outs, mask).0);
    assert forall|i: int| 0 <= i < n implies a->Call_1[i] == b->Call_1[i] && a->Call_2[i]
        == b->Call_2[i] by {
        assert(place(mask, i) < place(mask, n as int));
        assert(firsts(tops)[i] == tops[i].0 && firsts(outs)[i] == outs[i].0);
        assert(outgoing_fits(rd, outs[i].1, tops[i].1));
        if mask[i] {
            let slots = tops[i].1;
            slot_edge_is_identity(rd, span, slots, slots.len());
            assert(slots.take(slots.len() as int) =~= slots);
            empty_rename_reads(rd, span);
            if slots.len() == 0 {
                assert(slot_values(rd, slots) =~= Set::empty());
            }
        }
    }
    assert(a->Call_1 =~= b->Call_1);
    assert(a->Call_2 =~= b->Call_2);
}

/// The renamings that expressions stand for.
spec fn renamings(rd: Reading, edges: Seq<ExprView>) -> Seq<Renaming> {
    Seq::new(edges.len(), |i: int| renaming_of(rd, edges[i])->0)
}

/// The outgoing renames of the first `n` children have together the values of
/// the outer slots.
proof fn compound_outgoing_fits(
    rd: Reading,
    span: Span,
    tops: Seq<(ExprView, Seq<i64>)>,
    outs: Seq<(ExprView, Option<ExprView>)>,
    mask: Seq<bool>,
    n: nat,
)
    requires
        n <= tops.len() == outs.len(),
        n <= mask.len(),
        forall|i: int|
            0 <= i < n ==> outgoing_fits(rd, outs[i].1, (#[trigger] tops[i]).1),
    ensures
        ({
            let edges = outgoing_of(outs, mask, n);
            &&& forall|i: int|
                0 <= i < edges.len() ==> renaming_of(rd, #[trigger] edges[i]) == Some(
                    renamings(rd, edges)[i],
                )
            &&& all_values(renamings(rd, edges), edges.len()) == slot_values(
                rd,
                outer_slots(tops, mask, n),
            )
        }),
    decreases n,
{
    let edges = outgoing_of(outs, mask, n);
    let slots = outer_slots(tops, mask, n);
    let ms = renamings(rd, edges);
    if n == 0 {
        assert(all_values(ms, 0) =~= slot_values(rd, slots));
    } else {
        let k = (n - 1) as nat;
        compound_outgoing_fits(rd, span, tops, outs, mask, k);
        let before = outgoing_of(outs, mask, k);
        let ms_before = renamings(rd, before);
        let slots_before = outer_slots(tops, mask, k);
        outer_slots_are_the_childrens(tops, mask, k);
        outer_slots_are_the_childrens(tops, mask, n);
        assert(outgoing_fits(rd, outs[n - 1].1, tops[n - 1].1));
        let last_slots = tops[n - 1].1;
        if mask[n - 1] {
            if let Some(o) = outs[n - 1].1 {
                assert(edges == before.push(o));
            }
        }
        assert forall|i: int| 0 <= i < edges.len() implies renaming_of(rd, #[trigger] edges[i])
            == Some(ms[i]) by {
            if i < before.len() {
                assert(edges[i] == before[i]);
                assert(ms_before[i] == ms[i]);
            }
        }
        assert forall|v: Value| all_values(ms, edges.len()).contains(v) == slot_values(
            rd,
            slots,
        ).contains(v) by {
            if all_values(ms, edges.len()).contains(v) {
                let i = choose|i: int|
                    0 <= i < edges.len() && (#[trigger] ms[i]).contains_value(v);
                if i < before.len() {
                    assert(edges[i] == before[i]);
                    assert(ms_before[i] == ms[i]);
                    assert(ms_before[i].contains_value(v));
                    assert(all_values(ms_before, before.len()).contains(v));
                    let j = choose|j: int|
                        0 <= j < slots_before.len() && (rd.int_value)(#[trigger] slots_before[j])
                            == v;
                    let s = slots_before[j];
                    assert(slots_before.contains(s));
                    assert(child_has_slot(tops, mask, k, s));
                    let c = choose|c: int|
                        0 <= c < k && mask[c] && (#[trigger] tops[c]).1.contains(s);
                    assert(tops[c].1.contains(s));
                    assert(child_has_slot(tops, mask, n, s));
                    assert(slots.contains(s));
                    assert(slots[slots.index_of(s)] == s);
                } else {
                    assert(ms[i] == identity_on(slot_values(rd, last_slots)));
                    assert(slot_values(rd, last_slots).contains(v));
                    let j = choose|j: int|
                        0 <= j < last_slots.len() && (rd.int_value)(#[trigger] last_slots[j]) == v;
                    let s = last_slots[j];
                    assert(tops[n - 1].1.contains(s));
                    assert(child_has_slot(tops, mask, n, s));
                    assert(slots.contains(s));
                    assert(slots[slots.index_of(s)] == s);
                }
            }
            if slot_values(rd, slots).contains(v) {
                let j = choose|j: int|
                    0 <= j < slots.len() && (rd.int_value)(#[trigger] slots[j]) == v;
                let s = slots[j];
                assert(slots.contains(s));
                assert(child_has_slot(tops, mask, n, s));
                let c = choose|c: int| 0 <= c < n && mask[c] && (#[trigger] tops[c]).1.contains(s);
                if c < k {
                    assert(tops[c].1.contains(s));
                    assert(child_has_slot(tops, mask, k, s));
                    assert(slots_before.contains(s));
                    assert(slots_before[slots_before.index_of(s)] == s);
                    assert(slot_values(rd, slots_before).contains(v));
                    assert(all_values(ms_before, before.len()).contains(v));
                    let i = choose|i: int|
                        0 <= i < before.len() && (#[trigger] ms_before[i]).contains_value(v);
                    assert(edges[i] == before[i]);
                    assert(ms[i] == ms_before[i]);
                    assert(ms[i].contains_value(v));
                } else {
                    let p = last_slots.index_of(s);
                    assert(last_slots[p] == s);
                    assert(slot_values(rd, last_slots).contains(v));
                    let m = identity_on(slot_values(rd, last_slots));
                    assert(m.contains_key(v) && m[v] == v);
                    assert(m.contains_value(v));
                    assert(edges[before.len() as int] == outs[n - 1].1->0);
                    assert(ms[before.len() as int] == m);
                }
            }
        }
        assert(all_values(ms, edges.len()) =~= slot_values(rd, slots));
    }
}

} // verus!
