//! The encoding only adds edges: where they stand, and that dropping them gives
//! back the user's terms.

use vstd::prelude::*;

use crate::ast::{ExprView, Span};
use crate::slotted_encoding::machinery::{
    pattern_args, pattern_children, pattern_edge, pattern_edges, slotted_inputs, Pattern,
};
use crate::slotted_encoding::model::{
    action_expr, action_results, body_args, body_args_lengths, body_expr, edge_mask,
    expr_with_slots, exprs_with_slots, firsts, interleave, leaf_slot, outgoing_edges, path_through,
    path_without_edge, rename_name, shorter, slot_edges, top_expr, BodyContext, RuleScope,
    SlottedStateView,
};

verus! {

/// How many of the first `n` positions of a mask are set.
pub open spec fn set_before(mask: Seq<bool>, n: nat) -> nat
    decreases n,
{
    if n == 0 {
        0
    } else {
        set_before(mask, (n - 1) as nat) + if mask[n - 1] {
            1nat
        } else {
            0nat
        }
    }
}

/// Where the child at position `i` stands among the arguments with edges.
pub open spec fn place(mask: Seq<bool>, i: int) -> int {
    i + set_before(mask, i as nat)
}

/// Which of the `len` arguments of a call get an edge: those that the constructor
/// was declared to take slots at, and none for any other head.
pub open spec fn declared_mask(
    ctors: Map<Seq<char>, Seq<bool>>,
    head: Seq<char>,
    len: nat,
) -> Seq<bool> {
    if ctors.contains_key(head) {
        ctors[head]
    } else {
        Seq::new(len, |i: int| false)
    }
}

/// A rule body gives an edge to exactly these arguments.
pub broadcast proof fn body_edges_are_the_declared(
    ctors: Map<Seq<char>, Seq<bool>>,
    head: Seq<char>,
    len: nat,
)
    ensures
        #[trigger] edge_mask(ctors, head, len) == declared_mask(ctors, head, len),
        ctors.contains_key(head) ==> edge_mask(ctors, head, len) == ctors[head],
        !ctors.contains_key(head) ==> edge_mask(ctors, head, len).len() == len && forall|i: int|
            0 <= i < len ==> !#[trigger] edge_mask(ctors, head, len)[i],
{
    assert(edge_mask(ctors, head, len) =~= declared_mask(ctors, head, len));
}

/// Whether the edges are where the mask says.
pub open spec fn edges_fit(edges: Seq<Option<ExprView>>, mask: Seq<bool>, n: nat) -> bool {
    forall|i: int| 0 <= i < n ==> ((#[trigger] edges[i]) is Some <==> mask[i])
}

/// Interleaved arguments are the children at their places, each followed by its
/// edge where the mask is set.
pub proof fn interleaved_places(
    children: Seq<ExprView>,
    edges: Seq<Option<ExprView>>,
    mask: Seq<bool>,
    n: nat,
)
    requires
        edges_fit(edges, mask, n),
    ensures
        interleave(children, edges, n).len() == place(mask, n as int),
        forall|i: int|
            0 <= i < n ==> (#[trigger] place(mask, i)) < place(mask, n as int) && interleave(
                children,
                edges,
                n,
            )[place(mask, i)] == children[i],
        forall|i: int|
            0 <= i < n && mask[i] ==> (#[trigger] place(mask, i)) + 1 < place(mask, n as int)
                && interleave(children, edges, n)[place(mask, i) + 1] == edges[i]->0,
    decreases n,
{
    if n > 0 {
        let k = (n - 1) as nat;
        interleaved_places(children, edges, mask, k);
        assert(edges[n - 1] is Some <==> mask[n - 1]);
        let front = interleave(children, edges, k);
        let whole = interleave(children, edges, n);
        assert forall|i: int| 0 <= i < n implies (#[trigger] place(mask, i)) < place(mask, n as int)
            && whole[place(mask, i)] == children[i] by {
            if i < k {
                assert(place(mask, i) < place(mask, k as int));
                assert(front[place(mask, i)] == children[i]);
            }
        }
        assert forall|i: int| 0 <= i < n && mask[i] implies (#[trigger] place(mask, i)) + 1
            < place(mask, n as int) && whole[place(mask, i) + 1] == edges[i]->0 by {
            if i < k {
                assert(place(mask, i) + 1 < place(mask, k as int));
                assert(front[place(mask, i) + 1] == edges[i]->0);
            }
        }
    }
}

/// The places of the arguments in a rewritten signature.
pub proof fn slotted_input_places(inputs: Seq<Seq<char>>, mask: Seq<bool>, n: nat)
    ensures
        slotted_inputs(inputs, mask, n).len() == place(mask, n as int),
        forall|i: int|
            0 <= i < n ==> (#[trigger] place(mask, i)) < place(mask, n as int) && slotted_inputs(
                inputs,
                mask,
                n,
            )[place(mask, i)] == inputs[i],
        forall|i: int|
            0 <= i < n && mask[i] ==> (#[trigger] place(mask, i)) + 1 < place(mask, n as int)
                && slotted_inputs(inputs, mask, n)[place(mask, i) + 1] == "Renaming"@,
    decreases n,
{
    if n > 0 {
        let k = (n - 1) as nat;
        slotted_input_places(inputs, mask, k);
        let front = slotted_inputs(inputs, mask, k);
        let whole = slotted_inputs(inputs, mask, n);
        assert forall|i: int| 0 <= i < n implies (#[trigger] place(mask, i)) < place(mask, n as int)
            && whole[place(mask, i)] == inputs[i] by {
            if i < k {
                assert(place(mask, i) < place(mask, k as int));
                assert(front[place(mask, i)] == inputs[i]);
            }
        }
        assert forall|i: int| 0 <= i < n && mask[i] implies (#[trigger] place(mask, i)) + 1
            < place(mask, n as int) && whole[place(mask, i) + 1] == "Renaming"@ by {
            if i < k {
                assert(place(mask, i) + 1 < place(mask, k as int));
                assert(front[place(mask, i) + 1] == "Renaming"@);
            }
        }
    }
}

/// A mask without set positions takes no places.
pub proof fn no_places_taken(mask: Seq<bool>, n: nat)
    requires
        forall|i: int| 0 <= i < n ==> !#[trigger] mask[i],
    ensures
        place(mask, n as int) == n,
    decreases n,
{
    if n > 0 {
        no_places_taken(mask, (n - 1) as nat);
        assert(!mask[n - 1]);
    }
}

/// The term without its edges: of each call of a rewritten constructor, the
/// children at their places.
pub open spec fn erased(ctors: Map<Seq<char>, Seq<bool>>, e: ExprView) -> ExprView
    decreases e,
{
    match e {
        ExprView::Call(span, head, args) => if ctors.contains_key(head) {
            let mask = ctors[head];
            ExprView::Call(
                span,
                head,
                Seq::new(
                    mask.len(),
                    |i: int|
                        if 0 <= i < mask.len() && place(mask, i) < args.len() {
                            erased(ctors, args[place(mask, i)])
                        } else {
                            arbitrary()
                        },
                ),
            )
        } else {
            ExprView::Call(
                span,
                head,
                Seq::new(
                    args.len(),
                    |i: int|
                        if 0 <= i < args.len() {
                            erased(ctors, args[i])
                        } else {
                            arbitrary()
                        },
                ),
            )
        },
        _ => e,
    }
}

/// Whether every call of a rewritten constructor in a user's term has the
/// arguments that the constructor was declared with.
pub open spec fn arities_fit(ctors: Map<Seq<char>, Seq<bool>>, e: ExprView) -> bool
    decreases e, 0nat,
{
    match e {
        ExprView::Call(span, head, args) => {
            &&& ctors.contains_key(head) ==> args.len() == ctors[head].len()
            &&& first_arities_fit(ctors, args, args.len())
        },
        _ => true,
    }
}

/// Whether that holds of the first `n` terms of a list.
pub open spec fn first_arities_fit(
    ctors: Map<Seq<char>, Seq<bool>>,
    args: Seq<ExprView>,
    n: nat,
) -> bool
    decreases args, n,
{
    if n == 0 || n > args.len() {
        true
    } else {
        first_arities_fit(ctors, args, (n - 1) as nat) && arities_fit(ctors, args[n - 1])
    }
}

/// It then holds of each of them.
pub proof fn each_arity_fits(ctors: Map<Seq<char>, Seq<bool>>, args: Seq<ExprView>, n: nat)
    requires
        first_arities_fit(ctors, args, n),
        n <= args.len(),
    ensures
        forall|i: int| 0 <= i < n ==> #[trigger] arities_fit(ctors, args[i]),
    decreases n,
{
    if n > 0 {
        each_arity_fits(ctors, args, (n - 1) as nat);
    }
}

/// Whether the constructors of leaves have one argument, which carries no
/// slots.
pub open spec fn leaves_fit(st: SlottedStateView) -> bool {
    forall|c: Seq<char>| #[trigger]
        st.leaf_ctors.contains(c) ==> st.rewritten_ctors.contains_key(c)
            && st.rewritten_ctors[c] == seq![false]
}

/// A call is erased to the call of its erased children, if it has an edge
/// exactly where its constructor says.
proof fn erased_call(
    ctors: Map<Seq<char>, Seq<bool>>,
    span: Span,
    head: Seq<char>,
    children: Seq<ExprView>,
    edges: Seq<Option<ExprView>>,
    args: Seq<ExprView>,
)
    requires
        ctors.contains_key(head),
        args.len() == ctors[head].len(),
        edges_fit(edges, ctors[head], args.len()),
        forall|i: int| 0 <= i < args.len() ==> erased(ctors, #[trigger] children[i]) == args[i],
    ensures
        erased(ctors, ExprView::Call(span, head, interleave(children, edges, args.len())))
            == ExprView::Call(span, head, args),
{
    let mask = ctors[head];
    let n = args.len();
    interleaved_places(children, edges, mask, n);
    let whole = interleave(children, edges, n);
    let e = erased(ctors, ExprView::Call(span, head, whole));
    assert forall|i: int| 0 <= i < n implies e->Call_2[i] == args[i] by {
        assert(place(mask, i) < place(mask, n as int));
        assert(whole[place(mask, i)] == children[i]);
    }
    assert(e->Call_2 =~= args);
}

/// A term without calls of rewritten constructors below it is erased to itself
/// as its arguments are.
proof fn erased_plain(
    ctors: Map<Seq<char>, Seq<bool>>,
    span: Span,
    head: Seq<char>,
    children: Seq<ExprView>,
    args: Seq<ExprView>,
)
    requires
        !ctors.contains_key(head),
        children.len() == args.len(),
        forall|i: int| 0 <= i < args.len() ==> erased(ctors, #[trigger] children[i]) == args[i],
    ensures
        erased(ctors, ExprView::Call(span, head, children)) == ExprView::Call(span, head, args),
{
    let e = erased(ctors, ExprView::Call(span, head, children));
    assert(e->Call_2 =~= args);
}

/// Leaves and names are erased to themselves.
proof fn erased_leaf(st: SlottedStateView, span: Span, head: Seq<char>, args: Seq<ExprView>)
    requires
        leaves_fit(st),
        arities_fit(st.rewritten_ctors, ExprView::Call(span, head, args)),
        leaf_slot(st.leaf_ctors, head, args) is Some || args.len() == 0,
    ensures
        erased(st.rewritten_ctors, ExprView::Call(span, head, args)) == ExprView::Call(
            span,
            head,
            args,
        ),
{
    let ctors = st.rewritten_ctors;
    if ctors.contains_key(head) {
        let mask = ctors[head];
        let none: Seq<Option<ExprView>> = Seq::new(args.len(), |i: int| None);
        if args.len() > 0 {
            assert(st.leaf_ctors.contains(head));
            assert(args.len() == 1);
            assert(erased(ctors, args[0]) == args[0]);
            assert(interleave(args, none, 0) =~= Seq::empty());
            assert(interleave(args, none, 1) =~= args);
        } else {
            assert(interleave(args, none, 0) =~= args);
        }
        erased_call(ctors, span, head, args, none, args);
    } else {
        erased_plain(ctors, span, head, args, args);
    }
}

// ---------------------------------------------------------------------------
// Laws
// ---------------------------------------------------------------------------
/// Every rewritten call of a constructor has the arguments of its rewritten
/// signature: outside rules, in rule heads and in rule bodies.
pub proof fn rewritten_calls_fit_the_signature(
    st: SlottedStateView,
    scope: RuleScope,
    cx: BodyContext,
    path: Option<ExprView>,
    next: nat,
    span: Span,
    head: Seq<char>,
    args: Seq<ExprView>,
    inputs: Seq<Seq<char>>,
)
    requires
        leaves_fit(st),
        st.rewritten_ctors.contains_key(head),
        cx.ctors == st.rewritten_ctors,
        arities_fit(st.rewritten_ctors, ExprView::Call(span, head, args)),
        inputs.len() == args.len(),
    ensures
        ({
            let e = ExprView::Call(span, head, args);
            let signature = slotted_inputs(inputs, st.rewritten_ctors[head], inputs.len());
            &&& top_expr(st, e)->Call_2.len() == signature.len()
            &&& action_expr(st, scope, e).0->Call_2.len() == signature.len()
            &&& body_expr(cx, e, path, next).expr->Call_2.len() == signature.len()
        }),
{
    let e = ExprView::Call(span, head, args);
    let mask = st.rewritten_ctors[head];
    let n = args.len();
    slotted_input_places(inputs, mask, n);
    if leaf_slot(st.leaf_ctors, head, args) is Some {
        assert(st.leaf_ctors.contains(head));
        assert(set_before(mask, 0) == 0);
        assert(set_before(mask, 1) == 0);
    }
    let tops = exprs_with_slots(st, args);
    interleaved_places(firsts(tops), slot_edges(span, tops, mask), mask, n);
    let outs = action_results(st, scope, args);
    interleaved_places(firsts(outs), outgoing_edges(span, outs, mask), mask, n);
    each_arity_fits(st.rewritten_ctors, args, n);
    let r = body_args(cx, span, args, mask, path, next, n);
    body_args_only_add_edges(cx, span, args, mask, path, next, n);
    interleaved_places(r.children, r.edges, mask, n);
}

/// The nodes that the machinery of a constructor matches and makes have the
/// arguments of its rewritten signature, with an edge at every `Renaming`.
pub proof fn machinery_fits_the_signature(
    inputs: Seq<Seq<char>>,
    mask: Seq<bool>,
    p: Pattern,
    i: int,
)
    requires
        inputs.len() == mask.len(),
        0 <= i < mask.len(),
    ensures
        pattern_args(mask, p).len() == slotted_inputs(inputs, mask, inputs.len()).len(),
        pattern_args(mask, p)[place(mask, i)] == pattern_children(mask, p)[i],
        slotted_inputs(inputs, mask, inputs.len())[place(mask, i)] == inputs[i],
        mask[i] ==> pattern_args(mask, p)[place(mask, i) + 1] == pattern_edge(p, i)
            && slotted_inputs(inputs, mask, inputs.len())[place(mask, i) + 1] == "Renaming"@,
{
    slotted_input_places(inputs, mask, mask.len());
    interleaved_places(pattern_children(mask, p), pattern_edges(mask, p), mask, mask.len());
    assert(place(mask, i) < place(mask, mask.len() as int));
    assert(pattern_edges(mask, p)[i] is Some <==> mask[i]);
}

/// Outside rules, the encoding only adds edges to a term.
pub proof fn top_expr_only_adds_edges(st: SlottedStateView, e: ExprView)
    requires
        leaves_fit(st),
        arities_fit(st.rewritten_ctors, e),
    ensures
        erased(st.rewritten_ctors, top_expr(st, e)) == e,
    decreases e,
{
    if let ExprView::Call(span, head, args) = e {
        each_arity_fits(st.rewritten_ctors, args, args.len());
        let results = exprs_with_slots(st, args);
        let children = firsts(results);
        if leaf_slot(st.leaf_ctors, head, args) is Some || (args.len() == 0
            && st.let_outer_slots.contains_key(head)) {
            erased_leaf(st, span, head, args);
        } else {
            assert forall|i: int| 0 <= i < args.len() implies erased(
                st.rewritten_ctors,
                #[trigger] children[i],
            ) == args[i] by {
                assert(arities_fit(st.rewritten_ctors, args[i]));
                top_expr_only_adds_edges(st, args[i]);
                assert(results[i] == expr_with_slots(st, args[i]));
            }
            if st.rewritten_ctors.contains_key(head) {
                let mask = st.rewritten_ctors[head];
                erased_call(
                    st.rewritten_ctors,
                    span,
                    head,
                    children,
                    slot_edges(span, results, mask),
                    args,
                );
            } else {
                erased_plain(st.rewritten_ctors, span, head, children, args);
            }
        }
    }
}

/// In rule heads, the encoding only adds edges to a term.
pub proof fn action_expr_only_adds_edges(st: SlottedStateView, scope: RuleScope, e: ExprView)
    requires
        leaves_fit(st),
        arities_fit(st.rewritten_ctors, e),
    ensures
        erased(st.rewritten_ctors, action_expr(st, scope, e).0) == e,
    decreases e,
{
    if let ExprView::Call(span, head, args) = e {
        each_arity_fits(st.rewritten_ctors, args, args.len());
        let results = action_results(st, scope, args);
        let children = firsts(results);
        if leaf_slot(st.leaf_ctors, head, args) is Some {
            erased_leaf(st, span, head, args);
        } else {
            assert forall|i: int| 0 <= i < args.len() implies erased(
                st.rewritten_ctors,
                #[trigger] children[i],
            ) == args[i] by {
                assert(arities_fit(st.rewritten_ctors, args[i]));
                action_expr_only_adds_edges(st, scope, args[i]);
                assert(results[i] == action_expr(st, scope, args[i]));
            }
            if st.rewritten_ctors.contains_key(head) {
                let mask = st.rewritten_ctors[head];
                erased_call(
                    st.rewritten_ctors,
                    span,
                    head,
                    children,
                    outgoing_edges(span, results, mask),
                    args,
                );
            } else {
                erased_plain(st.rewritten_ctors, span, head, children, args);
            }
        }
    }
}

/// In rule bodies, the encoding only adds edges to a term.
pub proof fn body_expr_only_adds_edges(
    cx: BodyContext,
    e: ExprView,
    path: Option<ExprView>,
    next: nat,
)
    requires
        arities_fit(cx.ctors, e),
    ensures
        erased(cx.ctors, body_expr(cx, e, path, next).expr) == e,
    decreases e, 0nat,
{
    if let ExprView::Call(span, head, args) = e {
        each_arity_fits(cx.ctors, args, args.len());
        let mask = edge_mask(cx.ctors, head, args.len());
        let n = args.len();
        assert(shorter(args.len(), mask.len()) == n);
        let r = body_args(cx, span, args, mask, path, next, n);
        body_args_only_add_edges(cx, span, args, mask, path, next, n);
        if cx.ctors.contains_key(head) {
            erased_call(cx.ctors, span, head, r.children, r.edges, args);
        } else {
            body_args_lengths(cx, span, args, mask, path, next, n);
            interleave_without_edges(r.children, r.edges, n);
            assert(r.children.take(n as int) =~= r.children);
            erased_plain(cx.ctors, span, head, r.children, args);
        }
    }
}

/// The rewritten arguments of a call in a body are erased to the arguments, and
/// have an edge where the mask is set.
pub proof fn body_args_only_add_edges(
    cx: BodyContext,
    span: Span,
    args: Seq<ExprView>,
    mask: Seq<bool>,
    path: Option<ExprView>,
    next: nat,
    n: nat,
)
    requires
        n <= args.len(),
        n <= mask.len(),
        forall|i: int| 0 <= i < args.len() ==> #[trigger] arities_fit(cx.ctors, args[i]),
    ensures
        edges_fit(body_args(cx, span, args, mask, path, next, n).edges, mask, n),
        forall|i: int|
            0 <= i < n ==> erased(
                cx.ctors,
                #[trigger] body_args(cx, span, args, mask, path, next, n).children[i],
            ) == args[i],
    decreases args, n,
{
    if n > 0 {
        let k = (n - 1) as nat;
        let front = body_args(cx, span, args, mask, path, next, k);
        body_args_only_add_edges(cx, span, args, mask, path, next, k);
        body_args_lengths(cx, span, args, mask, path, next, k);
        assert(arities_fit(cx.ctors, args[n - 1]));
        let edge = ExprView::Var(span, rename_name(cx, front.next));
        body_expr_only_adds_edges(
            cx,
            args[n - 1],
            Some(path_through(span, path, edge)),
            front.next + 1,
        );
        body_expr_only_adds_edges(
            cx,
            args[n - 1],
            path_without_edge(args[n - 1], path),
            front.next,
        );
        let whole = body_args(cx, span, args, mask, path, next, n);
        assert forall|i: int| 0 <= i < n implies ((#[trigger] whole.edges[i]) is Some
            <==> mask[i]) by {
            if i < k {
                assert(whole.edges[i] == front.edges[i]);
            }
        }
        assert forall|i: int| 0 <= i < n implies erased(cx.ctors, #[trigger] whole.children[i])
            == args[i] by {
            if i < k {
                assert(whole.children[i] == front.children[i]);
            }
        }
    }
}

/// Without edges, interleaving is taking the first children.
proof fn interleave_without_edges(
    children: Seq<ExprView>,
    edges: Seq<Option<ExprView>>,
    n: nat,
)
    requires
        n <= children.len(),
        forall|i: int| 0 <= i < n ==> (#[trigger] edges[i]) is None,
    ensures
        interleave(children, edges, n) == children.take(n as int),
    decreases n,
{
    if n == 0 {
        assert(interleave(children, edges, n) =~= children.take(0));
    } else {
        interleave_without_edges(children, edges, (n - 1) as nat);
        assert(edges[n - 1] is None);
        assert(interleave(children, edges, n) =~= children.take(n as int));
    }
}

/// Without rewritten constructors there is nothing to erase.
proof fn nothing_to_erase(e: ExprView)
    ensures
        erased(Map::empty(), e) == e,
        arities_fit(Map::empty(), e),
    decreases e, 0nat,
{
    if let ExprView::Call(span, head, args) = e {
        let none = Map::<Seq<char>, Seq<bool>>::empty();
        assert forall|i: int| 0 <= i < args.len() implies erased(none, #[trigger] args[i])
            == args[i] by {
            nothing_to_erase(args[i]);
        }
        no_arities_to_fit(args, args.len());
        erased_plain(none, span, head, args, args);
    }
}

/// Without rewritten constructors every list of terms has the arguments that
/// are asked for.
proof fn no_arities_to_fit(args: Seq<ExprView>, n: nat)
    requires
        n <= args.len(),
    ensures
        first_arities_fit(Map::empty(), args, n),
    decreases args, n,
{
    if n > 0 {
        no_arities_to_fit(args, (n - 1) as nat);
        nothing_to_erase(args[n - 1]);
    }
}

/// As long as no constructor carries slots, terms stay as they are: outside
/// rules, in rule heads and in rule bodies.
pub proof fn terms_without_slots_stay(
    st: SlottedStateView,
    scope: RuleScope,
    cx: BodyContext,
    path: Option<ExprView>,
    next: nat,
    e: ExprView,
)
    requires
        st.rewritten_ctors == Map::<Seq<char>, Seq<bool>>::empty(),
        leaves_fit(st),
        cx.ctors == st.rewritten_ctors,
    ensures
        top_expr(st, e) == e,
        action_expr(st, scope, e).0 == e,
        body_expr(cx, e, path, next).expr == e,
{
    nothing_to_erase(e);
    top_expr_only_adds_edges(st, e);
    nothing_to_erase(top_expr(st, e));
    action_expr_only_adds_edges(st, scope, e);
    nothing_to_erase(action_expr(st, scope, e).0);
    body_expr_only_adds_edges(cx, e, path, next);
    nothing_to_erase(body_expr(cx, e, path, next).expr);
}

} // verus!
