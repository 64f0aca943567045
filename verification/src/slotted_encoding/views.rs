//! What the edge to each child of an encoded term says: the identity at the slots
//! of the child outside rules, and in rule heads the view of the child that the
//! rule body has.

use vstd::prelude::*;

use crate::ast::{ExprView, LiteralView, Span};
use crate::slotted_encoding::erasure::{
    arities_fit, declared_mask, each_arity_fits, interleaved_places, leaves_fit, no_places_taken,
    place,
};
use crate::slotted_encoding::meaning::{
    all_values, empty_rename_reads, identity_on, insert_identity_reads, renaming_of,
    slot_edge_is_identity, slot_values, synthesized_identity_is_identity, Reading,
};
use crate::slotted_encoding::model::{
    action_expr, action_results, empty_rename, expr_with_slots, exprs_with_slots, firsts, leaf_slot,
    outer_slots, outgoing_edges, outgoing_of, scope_rename, slot_edges, top_expr, RuleScope,
    SlottedStateView,
};
use crate::slotted_encoding::slots::{child_has_slot, outer_slots_are_the_childrens};
use crate::sort::renaming::Renaming;
use crate::sort::Value;

verus! {

// ---------------------------------------------------------------------------
// The view of a term
// ---------------------------------------------------------------------------
/// What is known of the parts of a term.
pub struct Known {
    /// For each rewritten constructor, which arguments carry slots.
    pub ctors: Map<Seq<char>, Seq<bool>>,
    /// The constructors that make a leaf out of a slot number.
    pub leaves: Set<Seq<char>>,
    /// The slots of named terms.
    pub named: Map<Seq<char>, Seq<i64>>,
    /// The views of variables.
    pub vars: spec_fn(Seq<char>) -> Renaming,
}

/// What is known outside rules: the slots of named terms, and nothing of
/// variables.
pub open spec fn known_outside(st: SlottedStateView) -> Known {
    Known {
        ctors: st.rewritten_ctors,
        leaves: st.leaf_ctors,
        named: st.let_outer_slots,
        vars: |v: Seq<char>| Map::<Value, Value>::empty(),
    }
}

/// What is known in a rule head: the views of variables, and nothing of named
/// terms.
pub open spec fn known_in_head(
    st: SlottedStateView,
    vars: spec_fn(Seq<char>) -> Renaming,
) -> Known {
    Known {
        ctors: st.rewritten_ctors,
        leaves: st.leaf_ctors,
        named: Map::empty(),
        vars,
    }
}

/// How a term's parent sees the slots of the term: a leaf and a named term by the
/// identity at their slots, a compound by the identity at all slots that the views
/// of its slotted children lead to, a variable by its own view. Other terms carry
/// no slots.
pub open spec fn view_of(rd: Reading, k: Known, e: ExprView) -> Renaming
    decreases e,
{
    match e {
        ExprView::Var(_, v) => (k.vars)(v),
        ExprView::Lit(_, _) => Map::empty(),
        ExprView::Call(_, head, args) => {
            let views = views_of(rd, k, args);
            if k.leaves.contains(head) && args.len() > 0 && (args[0] matches ExprView::Lit(
                _,
                LiteralView::Int(_),
            )) {
                identity_on(set![(rd.int_value)(args[0]->Lit_1->Int_0)])
            } else if args.len() == 0 && k.named.contains_key(head) {
                identity_on(slot_values(rd, k.named[head]))
            } else if k.ctors.contains_key(head) {
                identity_on(slotted_values(views, k.ctors[head]))
            } else {
                Map::empty()
            }
        },
    }
}

/// The views of the terms of a list.
pub open spec fn views_of(rd: Reading, k: Known, args: Seq<ExprView>) -> Seq<Renaming>
    decreases args,
{
    Seq::new(
        args.len(),
        |i: int|
            if 0 <= i < args.len() {
                view_of(rd, k, args[i])
            } else {
                arbitrary()
            },
    )
}

/// All values of the views at set positions.
pub open spec fn slotted_values(views: Seq<Renaming>, mask: Seq<bool>) -> Set<Value> {
    Set::new(
        |x: Value|
            exists|i: int|
                0 <= i < views.len() && 0 <= i < mask.len() && mask[i] && (
                #[trigger] views[i]).contains_value(x),
    )
}

/// Whether an encoded term is the user's term with an edge behind each slotted
/// child of each rewritten constructor, and each of these edges stands for the
/// view of its child.
pub open spec fn shows_views(rd: Reading, k: Known, e: ExprView, out: ExprView) -> bool
    decreases e, 0nat,
{
    match e {
        ExprView::Call(span, head, args) => out matches ExprView::Call(span2, head2, out_args)
            && span2 == span && head2 == head && {
            let mask = declared_mask(k.ctors, head, args.len());
            &&& mask.len() == args.len()
            &&& out_args.len() == place(mask, args.len() as int)
            &&& first_show_views(rd, k, args, out_args, mask, args.len())
        },
        _ => out == e,
    }
}

/// Whether that holds of the first `n` children of a call.
pub open spec fn first_show_views(
    rd: Reading,
    k: Known,
    args: Seq<ExprView>,
    out_args: Seq<ExprView>,
    mask: Seq<bool>,
    n: nat,
) -> bool
    decreases args, n,
{
    if n == 0 || n > args.len() {
        true
    } else {
        let at = place(mask, n - 1);
        &&& first_show_views(rd, k, args, out_args, mask, (n - 1) as nat)
        &&& shows_views(rd, k, args[n - 1], out_args[at])
        &&& mask[n - 1] ==> renaming_of(rd, out_args[at + 1]) == Some(view_of(rd, k, args[n - 1]))
    }
}

/// It holds of the first `n` children if it holds of each.
proof fn each_shows_views(
    rd: Reading,
    k: Known,
    args: Seq<ExprView>,
    out_args: Seq<ExprView>,
    mask: Seq<bool>,
    n: nat,
)
    requires
        n <= args.len(),
        forall|i: int|
            0 <= i < n ==> shows_views(rd, k, args[i], out_args[#[trigger] place(mask, i)]),
        forall|i: int|
            0 <= i < n && mask[i] ==> renaming_of(rd, out_args[(#[trigger] place(mask, i)) + 1])
                == Some(view_of(rd, k, args[i])),
    ensures
        first_show_views(rd, k, args, out_args, mask, n),
    decreases n,
{
    if n > 0 {
        each_shows_views(rd, k, args, out_args, mask, (n - 1) as nat);
        let at = place(mask, n - 1);
    }
}

/// A call without edges shows the views if its children do.
proof fn plain_call_shows_views(
    rd: Reading,
    k: Known,
    span: Span,
    head: Seq<char>,
    args: Seq<ExprView>,
    out_args: Seq<ExprView>,
)
    requires
        k.ctors.contains_key(head) ==> k.ctors[head].len() == args.len() && forall|i: int|
            0 <= i < args.len() ==> !#[trigger] k.ctors[head][i],
        out_args.len() == args.len(),
        forall|i: int| 0 <= i < args.len() ==> shows_views(rd, k, args[i], #[trigger] out_args[i]),
    ensures
        shows_views(
            rd,
            k,
            ExprView::Call(span, head, args),
            ExprView::Call(span, head, out_args),
        ),
{
    let mask = declared_mask(k.ctors, head, args.len());
    let n = args.len();
    assert forall|i: int| 0 <= i <= n implies #[trigger] place(mask, i) == i by {
        assert forall|j: int| 0 <= j < i implies !#[trigger] mask[j] by {
            if k.ctors.contains_key(head) {
                assert(!k.ctors[head][j]);
            }
        }
        no_places_taken(mask, i as nat);
    }
    assert(place(mask, n as int) == n);
    assert forall|i: int| 0 <= i < n implies shows_views(
        rd,
        k,
        args[i],
        out_args[#[trigger] place(mask, i)],
    ) by {
        assert(place(mask, i) == i);
        assert(shows_views(rd, k, args[i], out_args[i]));
    }
    each_shows_views(rd, k, args, out_args, mask, n);
}

/// A call of a rewritten constructor shows the views if its children do and its
/// edges stand for their views.
proof fn slotted_call_shows_views(
    rd: Reading,
    k: Known,
    span: Span,
    head: Seq<char>,
    args: Seq<ExprView>,
    children: Seq<ExprView>,
    edges: Seq<Option<ExprView>>,
)
    requires
        k.ctors.contains_key(head),
        k.ctors[head].len() == args.len(),
        children.len() == args.len(),
        forall|i: int| 0 <= i < args.len() ==> shows_views(rd, k, args[i], #[trigger] children[i]),
        forall|i: int|
            0 <= i < args.len() ==> ((#[trigger] edges[i]) is Some <==> k.ctors[head][i]) && (
            k.ctors[head][i] ==> renaming_of(rd, edges[i]->0) == Some(view_of(rd, k, args[i]))),
    ensures
        shows_views(
            rd,
            k,
            ExprView::Call(span, head, args),
            ExprView::Call(
                span,
                head,
                crate::slotted_encoding::model::interleave(children, edges, args.len()),
            ),
        ),
{
    let mask = k.ctors[head];
    let n = args.len();
    let whole = crate::slotted_encoding::model::interleave(children, edges, n);
    interleaved_places(children, edges, mask, n);
    assert forall|i: int| 0 <= i < n implies shows_views(
        rd,
        k,
        args[i],
        whole[#[trigger] place(mask, i)],
    ) by {
        assert(shows_views(rd, k, args[i], children[i]));
    }
    assert forall|i: int| 0 <= i < n && mask[i] implies renaming_of(
        rd,
        whole[(#[trigger] place(mask, i)) + 1],
    ) == Some(view_of(rd, k, args[i])) by {
        assert(edges[i] is Some);
    }
    each_shows_views(rd, k, args, whole, mask, n);
}

// ---------------------------------------------------------------------------
// Outside rules
// ---------------------------------------------------------------------------
/// Outside rules, each edge of an encoded term stands for the identity at the
/// slots of the child it leads to, and there are no other edges. The slots that
/// the encoding finds for a term are those of its view.
pub proof fn edges_outside_rules_show_the_slots(rd: Reading, st: SlottedStateView, e: ExprView)
    requires
        leaves_fit(st),
        arities_fit(st.rewritten_ctors, e),
    ensures
        shows_views(rd, known_outside(st), e, top_expr(st, e)),
        identity_on(slot_values(rd, expr_with_slots(st, e).1)) == view_of(
            rd,
            known_outside(st),
            e,
        ),
    decreases e,
{
    let k = known_outside(st);
    let ctors = st.rewritten_ctors;
    assert(identity_on(Set::empty()) =~= Map::<Value, Value>::empty());
    assert(slot_values(rd, Seq::empty()) =~= Set::empty());
    if let ExprView::Call(span, head, args) = e {
        let n = args.len();
        let results = exprs_with_slots(st, args);
        let children = firsts(results);
        let views = views_of(rd, k, args);
        each_arity_fits(ctors, args, n);
        assert forall|i: int| 0 <= i < n implies shows_views(
            rd,
            k,
            args[i],
            #[trigger] children[i],
        ) && identity_on(slot_values(rd, results[i].1)) == views[i] by {
            assert(arities_fit(ctors, args[i]));
            edges_outside_rules_show_the_slots(rd, st, args[i]);
            assert(results[i] == expr_with_slots(st, args[i]));
        }
        if let Some(slot) = leaf_slot(st.leaf_ctors, head, args) {
            assert(st.leaf_ctors.contains(head));
            assert(slot_values(rd, seq![slot]) =~= set![(rd.int_value)(slot)]) by {
                assert(seq![slot][0] == slot);
            }
            assert(args[0] is Lit);
            assert(shows_views(rd, k, args[0], args[0]));
            plain_call_shows_views(rd, k, span, head, args, args);
        } else if n == 0 && st.let_outer_slots.contains_key(head) {
            plain_call_shows_views(rd, k, span, head, args, args);
        } else if ctors.contains_key(head) {
            let mask = ctors[head];
            let edges = slot_edges(span, results, mask);
            assert forall|i: int| 0 <= i < n implies ((#[trigger] edges[i]) is Some <==> mask[i])
                && (mask[i] ==> renaming_of(rd, edges[i]->0) == Some(view_of(rd, k, args[i]))) by {
                assert(children[i] == results[i].0);
                let slots = results[i].1;
                slot_edge_is_identity(rd, span, slots, slots.len());
                assert(slots.take(slots.len() as int) =~= slots);
                assert(views[i] == view_of(rd, k, args[i]));
            }
            slotted_call_shows_views(rd, k, span, head, args, children, edges);
            assert forall|i: int| 0 <= i < n implies identity_on(
                slot_values(rd, (#[trigger] results[i]).1),
            ) == views[i] by {
                assert(children[i] == results[i].0);
            }
            slots_of_a_compound(rd, results, mask, views);
        } else {
            plain_call_shows_views(rd, k, span, head, args, children);
        }
    }
}

/// The outer slots of a compound are the values of the views of its slotted
/// children.
proof fn slots_of_a_compound(
    rd: Reading,
    results: Seq<(ExprView, Seq<i64>)>,
    mask: Seq<bool>,
    views: Seq<Renaming>,
)
    requires
        results.len() == mask.len(),
        views.len() == mask.len(),
        forall|i: int|
            0 <= i < mask.len() ==> identity_on(slot_values(rd, (#[trigger] results[i]).1))
                == views[i],
    ensures
        slot_values(rd, outer_slots(results, mask, mask.len())) == slotted_values(views, mask),
{
    let n = mask.len();
    let slots = outer_slots(results, mask, n);
    outer_slots_are_the_childrens(results, mask, n);
    assert forall|x: Value| slot_values(rd, slots).contains(x) == slotted_values(
        views,
        mask,
    ).contains(x) by {
        if slot_values(rd, slots).contains(x) {
            let j = choose|j: int| 0 <= j < slots.len() && (rd.int_value)(#[trigger] slots[j]) == x;
            let s = slots[j];
            assert(slots.contains(s));
            assert(child_has_slot(results, mask, n, s));
            let c = choose|c: int| 0 <= c < n && mask[c] && (#[trigger] results[c]).1.contains(s);
            let own = results[c].1;
            assert(own[own.index_of(s)] == s);
            assert(slot_values(rd, own).contains(x));
            assert(identity_on(slot_values(rd, own)) == views[c]);
            assert(views[c].contains_key(x) && views[c][x] == x);
            assert(views[c].contains_value(x));
        }
        if slotted_values(views, mask).contains(x) {
            let c = choose|c: int|
                0 <= c < views.len() && 0 <= c < mask.len() && mask[c] && (
                #[trigger] views[c]).contains_value(x);
            let own = results[c].1;
            assert(identity_on(slot_values(rd, own)) == views[c]);
            let key = choose|key: Value| views[c].contains_key(key) && views[c][key] == x;
            assert(slot_values(rd, own).contains(x));
            let j = choose|j: int| 0 <= j < own.len() && (rd.int_value)(#[trigger] own[j]) == x;
            let s = own[j];
            assert(own.contains(s));
            assert(results[c].1.contains(s));
            assert(child_has_slot(results, mask, n, s));
            assert(slots.contains(s));
            assert(slots[slots.index_of(s)] == s);
        }
    }
    assert(slot_values(rd, slots) =~= slotted_values(views, mask));
}

// ---------------------------------------------------------------------------
// In rule heads
// ---------------------------------------------------------------------------
/// Whether an outgoing rename stands for a view; none stands for the empty one.
pub open spec fn stands_for(rd: Reading, out: Option<ExprView>, view: Renaming) -> bool {
    match out {
        Some(o) => renaming_of(rd, o) == Some(view),
        None => view == Map::<Value, Value>::empty(),
    }
}

/// In a rule head, each edge of an encoded term stands for the view of the child
/// it leads to, given the views of the rule's variables, and there are no other
/// edges.
pub proof fn edges_in_heads_show_the_views(
    rd: Reading,
    st: SlottedStateView,
    scope: RuleScope,
    vars: spec_fn(Seq<char>) -> Renaming,
    e: ExprView,
)
    requires
        leaves_fit(st),
        arities_fit(st.rewritten_ctors, e),
        forall|v: Seq<char>| stands_for(rd, #[trigger] scope_rename(scope, v), vars(v)),
    ensures
        shows_views(rd, known_in_head(st, vars), e, action_expr(st, scope, e).0),
        stands_for(rd, action_expr(st, scope, e).1, view_of(rd, known_in_head(st, vars), e)),
    decreases e,
{
    let k = known_in_head(st, vars);
    let ctors = st.rewritten_ctors;
    let none = Map::<Value, Value>::empty();
    assert(identity_on(Set::empty()) =~= none);
    match e {
        ExprView::Var(_, v) => {
            assert(stands_for(rd, scope_rename(scope, v), vars(v)));
        },
        ExprView::Lit(_, _) => {},
        ExprView::Call(span, head, args) => {
            let n = args.len();
            let results = action_results(st, scope, args);
            let children = firsts(results);
            let views = views_of(rd, k, args);
            each_arity_fits(ctors, args, n);
            assert forall|i: int| 0 <= i < n implies shows_views(
                rd,
                k,
                args[i],
                #[trigger] children[i],
            ) && stands_for(rd, results[i].1, views[i]) by {
                assert(arities_fit(ctors, args[i]));
                edges_in_heads_show_the_views(rd, st, scope, vars, args[i]);
                assert(results[i] == action_expr(st, scope, args[i]));
            }
            if let Some(slot) = leaf_slot(st.leaf_ctors, head, args) {
                assert(st.leaf_ctors.contains(head));
                assert(args[0] is Lit);
                assert(shows_views(rd, k, args[0], args[0]));
                plain_call_shows_views(rd, k, span, head, args, args);
                empty_rename_reads(rd, span);
                insert_identity_reads(rd, span, empty_rename(span), slot);
                let x = (rd.int_value)(slot);
                assert(none.insert(x, x) =~= identity_on(set![x]));
            } else if ctors.contains_key(head) {
                let mask = ctors[head];
                let edges = outgoing_edges(span, results, mask);
                empty_rename_reads(rd, span);
                assert forall|i: int| 0 <= i < n implies ((#[trigger] edges[i]) is Some
                    <==> mask[i]) && (mask[i] ==> renaming_of(rd, edges[i]->0) == Some(
                    view_of(rd, k, args[i]),
                )) by {
                    assert(children[i] == results[i].0);
                    assert(stands_for(rd, results[i].1, views[i]));
                    assert(views[i] == view_of(rd, k, args[i]));
                }
                slotted_call_shows_views(rd, k, span, head, args, children, edges);
                assert forall|i: int| 0 <= i < n implies stands_for(
                    rd,
                    (#[trigger] results[i]).1,
                    views[i],
                ) by {
                    assert(children[i] == results[i].0);
                }
                outgoing_of_a_compound(rd, results, mask, views, n);
                let outs = outgoing_of(results, mask, n);
                let ms = Seq::new(outs.len(), |j: int| renaming_of(rd, outs[j])->0);
                if outs.len() > 0 {
                    synthesized_identity_is_identity(rd, span, outs, ms);
                }
                assert(all_values(ms, ms.len()) =~= slotted_values(views, mask)) by {
                    assert forall|x: Value| all_values(ms, ms.len()).contains(x)
                        == slotted_values(views, mask).contains(x) by {
                        if all_values(ms, ms.len()).contains(x) {
                            let j = choose|j: int|
                                0 <= j < ms.len() && (#[trigger] ms[j]).contains_value(x);
                            assert(renaming_of(rd, outs[j])->0.contains_value(x));
                            assert(reaches(rd, outs, x));
                            let c = choose|c: int|
                                0 <= c < n && mask[c] && (#[trigger] views[c]).contains_value(x);
                            assert(views[c].contains_value(x));
                        }
                        if slotted_values(views, mask).contains(x) {
                            let c = choose|c: int|
                                0 <= c < views.len() && 0 <= c < mask.len() && mask[c] && (
                                #[trigger] views[c]).contains_value(x);
                            assert(reaches(rd, outs, x));
                            let j = choose|j: int|
                                0 <= j < outs.len() && renaming_of(
                                    rd,
                                    #[trigger] outs[j],
                                )->0.contains_value(x);
                            assert(ms[j].contains_value(x));
                        }
                    }
                }
                if outs.len() == 0 {
                    assert(all_values(ms, ms.len()) =~= Set::empty());
                }
            } else {
                plain_call_shows_views(rd, k, span, head, args, children);
            }
        },
    }
}

/// Whether one of the renamings leads to the value.
spec fn reaches(rd: Reading, outs: Seq<ExprView>, x: Value) -> bool {
    exists|j: int|
        0 <= j < outs.len() && renaming_of(rd, #[trigger] outs[j])->0.contains_value(x)
}

/// The outgoing renames of a compound lead to the values of the views of its
/// slotted children.
proof fn outgoing_of_a_compound(
    rd: Reading,
    results: Seq<(ExprView, Option<ExprView>)>,
    mask: Seq<bool>,
    views: Seq<Renaming>,
    n: nat,
)
    requires
        n <= results.len() == mask.len(),
        views.len() == mask.len(),
        forall|i: int|
            0 <= i < mask.len() ==> stands_for(rd, (#[trigger] results[i]).1, views[i]),
    ensures
        ({
            let outs = outgoing_of(results, mask, n);
            &&& forall|j: int|
                0 <= j < outs.len() ==> renaming_of(rd, #[trigger] outs[j]) is Some
            &&& forall|x: Value| #[trigger]
                reaches(rd, outs, x) <==> exists|c: int|
                    0 <= c < n && mask[c] && (#[trigger] views[c]).contains_value(x)
        }),
    decreases n,
{
    let outs = outgoing_of(results, mask, n);
    if n > 0 {
        let before = outgoing_of(results, mask, (n - 1) as nat);
        outgoing_of_a_compound(rd, results, mask, views, (n - 1) as nat);
        assert(stands_for(rd, results[n - 1].1, views[n - 1]));
        assert forall|j: int| 0 <= j < outs.len() implies renaming_of(
            rd,
            #[trigger] outs[j],
        ) is Some by {
            if j < before.len() {
                assert(outs[j] == before[j]);
            }
        }
        assert forall|x: Value| #[trigger] reaches(rd, outs, x) <==> exists|c: int|
            0 <= c < n && mask[c] && (#[trigger] views[c]).contains_value(x) by {
            if reaches(rd, outs, x) {
                let j = choose|j: int|
                    0 <= j < outs.len() && renaming_of(rd, #[trigger] outs[j])->0.contains_value(x);
                if j < before.len() {
                    assert(outs[j] == before[j]);
                    assert(reaches(rd, before, x));
                } else {
                    assert(views[n - 1].contains_value(x));
                }
            }
            if exists|c: int| 0 <= c < n && mask[c] && (#[trigger] views[c]).contains_value(x) {
                let c = choose|c: int|
                    0 <= c < n && mask[c] && (#[trigger] views[c]).contains_value(x);
                if c < n - 1 {
                    assert(reaches(rd, before, x));
                    let j = choose|j: int|
                        0 <= j < before.len() && renaming_of(
                            rd,
                            #[trigger] before[j],
                        )->0.contains_value(x);
                    assert(outs[j] == before[j]);
                } else {
                    assert(results[n - 1].1 is Some);
                    assert(outs[before.len() as int] == results[n - 1].1->0);
                }
            }
        }
    }
}

} // verus!
