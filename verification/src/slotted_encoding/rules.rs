//! What holds of rewritten rules: their edge renames are different variables,
//! the paths to one variable are equated, and nothing else is changed.

use vstd::prelude::*;

use crate::ast::{ActionView, Change, ExprView, FactView, RuleView, Span};
use crate::names::{fresh_name_is_reserved, fresh_name_reads_back, fresh_names_differ, number_read};
use crate::slotted_encoding::erasure::{
    action_expr_only_adds_edges, arities_fit, body_args_only_add_edges, body_edges_are_the_declared,
    body_expr_only_adds_edges, declared_mask, each_arity_fits, erased, first_arities_fit,
    interleaved_places, leaves_fit, no_places_taken, place, rewritten_calls_fit_the_signature,
    top_expr_only_adds_edges,
};
use crate::slotted_encoding::machinery::slotted_inputs;
use crate::slotted_encoding::model::{
    action_expr, body_args, body_args_lengths, body_args_next_grows, body_expr,
    body_expr_next_grows, body_fact, body_facts, body_facts_next_grows, edge_mask, head_action,
    head_args, head_exprs, interleave, neighbours_equal, paired_with, path_constraints,
    path_through, path_without_edge, paths_of, rename_hint, rename_name, shorter, top_action,
    top_args, top_expr, top_exprs, user_rule, BodyContext, RuleScope, SlottedStateView,
};

verus! {

broadcast use body_edges_are_the_declared;

// ---------------------------------------------------------------------------
// The edge renames of a body
// ---------------------------------------------------------------------------
/// The name of a variable, as a list.
pub open spec fn variable_name(e: ExprView) -> Seq<Seq<char>> {
    match e {
        ExprView::Var(_, name) => seq![name],
        _ => Seq::empty(),
    }
}

/// The rename variables at the edges of a rewritten term: before those below
/// each child comes the one at the child's edge.
pub open spec fn edge_names(ctors: Map<Seq<char>, Seq<bool>>, e: ExprView) -> Seq<Seq<char>>
    decreases e, 0nat,
{
    match e {
        ExprView::Call(span, head, args) => {
            let mask = declared_mask(ctors, head, args.len());
            first_edge_names(ctors, args, mask, mask.len())
        },
        _ => Seq::empty(),
    }
}

/// The rename variables at the edges of the first `n` children of a call.
pub open spec fn first_edge_names(
    ctors: Map<Seq<char>, Seq<bool>>,
    args: Seq<ExprView>,
    mask: Seq<bool>,
    n: nat,
) -> Seq<Seq<char>>
    decreases args, n,
{
    if n == 0 {
        Seq::empty()
    } else {
        let at = place(mask, n - 1);
        let front = first_edge_names(ctors, args, mask, (n - 1) as nat);
        let edge = if mask[n - 1] && 0 <= at + 1 < args.len() {
            variable_name(args[at + 1])
        } else {
            Seq::empty()
        };
        let below = if 0 <= at < args.len() {
            edge_names(ctors, args[at])
        } else {
            Seq::empty()
        };
        front + edge + below
    }
}

/// The rename variables at the edges of a rewritten fact.
pub open spec fn fact_edge_names(ctors: Map<Seq<char>, Seq<bool>>, f: FactView) -> Seq<Seq<char>> {
    match f {
        FactView::Eq(_, lhs, rhs) => edge_names(ctors, lhs) + edge_names(ctors, rhs),
        FactView::Fact(e) => edge_names(ctors, e),
    }
}

/// The rename variables at the edges of the first `n` rewritten facts.
pub open spec fn body_edge_names(
    ctors: Map<Seq<char>, Seq<bool>>,
    fs: Seq<FactView>,
    n: nat,
) -> Seq<Seq<char>>
    decreases n,
{
    if n == 0 {
        Seq::empty()
    } else {
        body_edge_names(ctors, fs, (n - 1) as nat) + fact_edge_names(ctors, fs[n - 1])
    }
}

/// The name of an edge rename is the reserved prefix, `r_slotted` and the running
/// number.
pub proof fn edges_are_named_by_number(cx: BodyContext, n: nat)
    ensures
        (cx.reserved + "r_slotted"@).is_prefix_of(rename_name(cx, n)),
        number_read(
            rename_name(cx, n).skip((cx.reserved + "r_slotted"@).len() as int),
        ) == n,
{
    fresh_name_reads_back(cx.reserved, "r_slotted"@, n);
}

/// The fresh names from one running number up to another.
pub open spec fn names_between(cx: BodyContext, from: nat, to: nat) -> Seq<Seq<char>> {
    Seq::new((to - from) as nat, |i: int| rename_name(cx, (from + i) as nat))
}

/// Fresh names are made one after the other.
proof fn names_join(cx: BodyContext, a: nat, b: nat, c: nat)
    requires
        a <= b <= c,
    ensures
        names_between(cx, a, b) + names_between(cx, b, c) == names_between(cx, a, c),
{
    assert(names_between(cx, a, b) + names_between(cx, b, c) =~= names_between(cx, a, c));
}

/// Rewriting more arguments leaves those before as they are.
proof fn body_args_stay(
    cx: BodyContext,
    span: Span,
    args: Seq<ExprView>,
    mask: Seq<bool>,
    path: Option<ExprView>,
    next: nat,
    m: nat,
    n: nat,
)
    requires
        m <= n <= args.len(),
    ensures
        forall|i: int|
            0 <= i < m ==> body_args(cx, span, args, mask, path, next, m).children[i]
                == #[trigger] body_args(cx, span, args, mask, path, next, n).children[i],
        forall|i: int|
            0 <= i < m ==> body_args(cx, span, args, mask, path, next, m).edges[i]
                == #[trigger] body_args(cx, span, args, mask, path, next, n).edges[i],
    decreases n,
{
    if m < n {
        body_args_stay(cx, span, args, mask, path, next, m, (n - 1) as nat);
        body_args_lengths(cx, span, args, mask, path, next, (n - 1) as nat);
    }
}

/// The edges of a rewritten term are the fresh names that were made for it, each
/// once and in the order in which they were made.
proof fn edges_are_fresh_names(
    cx: BodyContext,
    e: ExprView,
    path: Option<ExprView>,
    next: nat,
)
    requires
        arities_fit(cx.ctors, e),
    ensures
        edge_names(cx.ctors, body_expr(cx, e, path, next).expr) == names_between(
            cx,
            next,
            body_expr(cx, e, path, next).next,
        ),
    decreases e, 0nat,
{
    match e {
        ExprView::Call(span, head, args) => {
            let mask = edge_mask(cx.ctors, head, args.len());
            let n = args.len();
            each_arity_fits(cx.ctors, args, n);
            assert(shorter(n, mask.len()) == n);
            let r = body_args(cx, span, args, mask, path, next, n);
            let whole = interleave(r.children, r.edges, n);
            body_args_only_add_edges(cx, span, args, mask, path, next, n);
            interleaved_places(r.children, r.edges, mask, n);
            if !cx.ctors.contains_key(head) {
                no_places_taken(mask, n);
            }
            assert(edge_mask(cx.ctors, head, whole.len()) =~= mask);
            arg_edges_are_fresh_names(cx, span, args, mask, path, next, n);
        },
        _ => {
            assert(edge_names(cx.ctors, e) =~= names_between(cx, next, next));
        },
    }
}

/// The edges of the first `n` children of a rewritten call are the fresh names
/// that were made for them.
proof fn arg_edges_are_fresh_names(
    cx: BodyContext,
    span: Span,
    args: Seq<ExprView>,
    mask: Seq<bool>,
    path: Option<ExprView>,
    next: nat,
    n: nat,
)
    requires
        n <= args.len() == mask.len(),
        first_arities_fit(cx.ctors, args, args.len()),
    ensures
        ({
            let r = body_args(cx, span, args, mask, path, next, args.len());
            let whole = interleave(r.children, r.edges, args.len());
            first_edge_names(cx.ctors, whole, mask, n) == names_between(
                cx,
                next,
                body_args(cx, span, args, mask, path, next, n).next,
            )
        }),
    decreases args, n,
{
    let all = args.len();
    let r = body_args(cx, span, args, mask, path, next, all);
    let whole = interleave(r.children, r.edges, all);
    if n == 0 {
        assert(first_edge_names(cx.ctors, whole, mask, 0) =~= names_between(cx, next, next));
    } else {
        let k = (n - 1) as nat;
        each_arity_fits(cx.ctors, args, all);
        arg_edges_are_fresh_names(cx, span, args, mask, path, next, k);
        let front = body_args(cx, span, args, mask, path, next, k);
        let back = body_args(cx, span, args, mask, path, next, n);
        body_args_lengths(cx, span, args, mask, path, next, k);
        body_args_lengths(cx, span, args, mask, path, next, n);
        body_args_stay(cx, span, args, mask, path, next, n, all);
        body_args_only_add_edges(cx, span, args, mask, path, next, all);
        interleaved_places(r.children, r.edges, mask, all);
        body_args_next_grows(cx, span, args, mask, path, next, k, n);
        assert(place(mask, k as int) < place(mask, all as int));
        assert(r.children[k as int] == back.children[k as int]);
        assert(whole[place(mask, k as int)] == back.children[k as int]);
        assert(arities_fit(cx.ctors, args[k as int]));
        if mask[k as int] {
            let name = rename_name(cx, front.next);
            let edge = ExprView::Var(span, name);
            let child_path = Some(path_through(span, path, edge));
            edges_are_fresh_names(cx, args[k as int], child_path, front.next + 1);
            body_expr_next_grows(cx, args[k as int], child_path, front.next + 1);
            assert(r.edges[k as int] == back.edges[k as int]);
            assert(whole[place(mask, k as int) + 1] == edge);
            assert(variable_name(edge) =~= names_between(cx, front.next, front.next + 1));
            names_join(cx, front.next, front.next + 1, back.next);
            names_join(cx, next, front.next, back.next);
            assert(first_edge_names(cx.ctors, whole, mask, n) =~= names_between(
                cx,
                next,
                front.next,
            ) + (names_between(cx, front.next, front.next + 1) + names_between(
                cx,
                front.next + 1,
                back.next,
            )));
        } else {
            edges_are_fresh_names(
                cx,
                args[k as int],
                path_without_edge(args[k as int], path),
                front.next,
            );
            names_join(cx, next, front.next, back.next);
            assert(first_edge_names(cx.ctors, whole, mask, n) =~= names_between(
                cx,
                next,
                front.next,
            ) + names_between(cx, front.next, back.next));
        }
    }
}

/// Whether the calls of rewritten constructors in a fact have the arguments that
/// these were declared with.
pub open spec fn fact_arities_fit(ctors: Map<Seq<char>, Seq<bool>>, f: FactView) -> bool {
    match f {
        FactView::Eq(_, lhs, rhs) => arities_fit(ctors, lhs) && arities_fit(ctors, rhs),
        FactView::Fact(e) => arities_fit(ctors, e),
    }
}

/// The edges of the first `n` rewritten facts are the fresh names that were made
/// for them.
pub proof fn body_edges_are_fresh_names(cx: BodyContext, fs: Seq<FactView>, next: nat, n: nat)
    requires
        n <= fs.len(),
        forall|i: int| 0 <= i < fs.len() ==> fact_arities_fit(cx.ctors, #[trigger] fs[i]),
    ensures
        body_facts(cx, fs, next, n).facts.len() == n,
        body_edge_names(cx.ctors, body_facts(cx, fs, next, n).facts, n) == names_between(
            cx,
            next,
            body_facts(cx, fs, next, n).next,
        ),
    decreases n,
{
    if n == 0 {
        assert(body_edge_names(cx.ctors, body_facts(cx, fs, next, 0).facts, 0)
            =~= names_between(cx, next, next));
    } else {
        let k = (n - 1) as nat;
        body_edges_are_fresh_names(cx, fs, next, k);
        let front = body_facts(cx, fs, next, k);
        let last = body_fact(cx, fs[n - 1], front.next);
        let whole = body_facts(cx, fs, next, n);
        assert(fact_arities_fit(cx.ctors, fs[n - 1]));
        body_facts_next_grows(cx, fs, next, k, n);
        match fs[n - 1] {
            FactView::Eq(span, lhs, rhs) => {
                let l = body_expr(cx, lhs, None, front.next);
                edges_are_fresh_names(cx, lhs, None, front.next);
                edges_are_fresh_names(cx, rhs, None, l.next);
                body_expr_next_grows(cx, lhs, None, front.next);
                body_expr_next_grows(cx, rhs, None, l.next);
                names_join(cx, front.next, l.next, whole.next);
            },
            FactView::Fact(e) => {
                edges_are_fresh_names(cx, e, None, front.next);
            },
        }
        assert(fact_edge_names(cx.ctors, last.facts[0]) == names_between(
            cx,
            front.next,
            whole.next,
        ));
        names_join(cx, next, front.next, whole.next);
        assert(whole.facts[n - 1] == last.facts[0]);
        body_edge_names_prefix(cx.ctors, front.facts, whole.facts, k);
    }
}

/// Only the first `n` facts matter for the edges of the first `n`.
pub proof fn body_edge_names_prefix(
    ctors: Map<Seq<char>, Seq<bool>>,
    fs: Seq<FactView>,
    more: Seq<FactView>,
    n: nat,
)
    requires
        n <= fs.len() <= more.len(),
        forall|i: int| 0 <= i < n ==> fs[i] == more[i],
    ensures
        body_edge_names(ctors, fs, n) == body_edge_names(ctors, more, n),
    decreases n,
{
    if n > 0 {
        body_edge_names_prefix(ctors, fs, more, (n - 1) as nat);
    }
}

/// No rename variable stands at two edges of a rewritten rule body.
pub proof fn edges_of_a_body_are_different(cx: BodyContext, fs: Seq<FactView>, next: nat)
    requires
        forall|i: int| 0 <= i < fs.len() ==> fact_arities_fit(cx.ctors, #[trigger] fs[i]),
    ensures
        body_edge_names(
            cx.ctors,
            body_facts(cx, fs, next, fs.len()).facts,
            fs.len(),
        ).no_duplicates(),
{
    body_edges_are_fresh_names(cx, fs, next, fs.len());
    names_differ(cx, next, body_facts(cx, fs, next, fs.len()).next);
}

/// Whether a variable occurs in a term.
pub open spec fn occurs(v: Seq<char>, e: ExprView) -> bool
    decreases e, 0nat,
{
    match e {
        ExprView::Lit(_, _) => false,
        ExprView::Var(_, name) => name == v,
        ExprView::Call(_, _, args) => occurs_among(v, args, args.len()),
    }
}

/// Whether a variable occurs in the first `n` terms.
pub open spec fn occurs_among(v: Seq<char>, es: Seq<ExprView>, n: nat) -> bool
    decreases es, n,
{
    if n == 0 || n > es.len() {
        false
    } else {
        occurs_among(v, es, (n - 1) as nat) || occurs(v, es[n - 1])
    }
}

/// Whether a variable occurs in a fact.
pub open spec fn occurs_in_fact(v: Seq<char>, f: FactView) -> bool {
    match f {
        FactView::Eq(_, lhs, rhs) => occurs(v, lhs) || occurs(v, rhs),
        FactView::Fact(e) => occurs(v, e),
    }
}

/// Whether a variable occurs in an action or is bound by it.
pub open spec fn occurs_in_action(v: Seq<char>, a: ActionView) -> bool {
    match a {
        ActionView::Let(_, name, e) => name == v || occurs(v, e),
        ActionView::Assign(_, _, args, val) => occurs_among(v, args, args.len()) || occurs(v, val),
        ActionView::Change(_, _, _, args) => occurs_among(v, args, args.len()),
        ActionView::Union(_, lhs, rhs) => occurs(v, lhs) || occurs(v, rhs),
        ActionView::Panic(_, _) => false,
        ActionView::Expr(_, e) => occurs(v, e),
    }
}

/// Whether a variable occurs in a rule.
pub open spec fn occurs_in_rule(v: Seq<char>, rule: RuleView) -> bool {
    ||| exists|i: int| 0 <= i < rule.body.len() && occurs_in_fact(v, #[trigger] rule.body[i])
    ||| exists|i: int| 0 <= i < rule.head.len() && occurs_in_action(v, #[trigger] rule.head[i])
}

/// The rename variables of a rewritten rule capture no variable of the user's:
/// where none of these starts with the reserved prefix, none of them is a rename
/// variable.
pub proof fn edges_capture_no_variable(
    st: SlottedStateView,
    reserved: Seq<char>,
    next: nat,
    rule: RuleView,
)
    requires
        forall|i: int|
            0 <= i < rule.body.len() ==> fact_arities_fit(
                st.rewritten_ctors,
                #[trigger] rule.body[i],
            ),
        forall|v: Seq<char>| #[trigger] occurs_in_rule(v, rule) ==> !reserved.is_prefix_of(v),
    ensures
        ({
            let out = user_rule(st, reserved, next, rule).0;
            let names = body_edge_names(st.rewritten_ctors, out.body, rule.body.len());
            forall|i: int| 0 <= i < names.len() ==> !occurs_in_rule(#[trigger] names[i], rule)
        }),
{
    let cx = BodyContext { ctors: st.rewritten_ctors, reserved };
    let n = rule.body.len();
    let body = body_facts(cx, rule.body, next, n);
    let out = user_rule(st, reserved, next, rule).0;
    body_edges_are_fresh_names(cx, rule.body, next, n);
    body_edge_names_prefix(cx.ctors, body.facts, out.body, n);
    let names = body_edge_names(cx.ctors, out.body, n);
    assert forall|i: int| 0 <= i < names.len() implies !occurs_in_rule(
        #[trigger] names[i],
        rule,
    ) by {
        fresh_name_is_reserved(reserved, rename_hint(), (next + i) as nat);
        assert(names[i] == rename_name(cx, (next + i) as nat));
    }
}

/// How many positions with an edge the calls of a user's term have together.
pub open spec fn slotted_positions(ctors: Map<Seq<char>, Seq<bool>>, e: ExprView) -> nat
    decreases e, 0nat,
{
    match e {
        ExprView::Call(span, head, args) => first_slotted_positions(
            ctors,
            args,
            declared_mask(ctors, head, args.len()),
            args.len(),
        ),
        _ => 0,
    }
}

/// How many of them stand among and below the first `n` arguments of a call.
pub open spec fn first_slotted_positions(
    ctors: Map<Seq<char>, Seq<bool>>,
    args: Seq<ExprView>,
    mask: Seq<bool>,
    n: nat,
) -> nat
    decreases args, n,
{
    if n == 0 || n > args.len() {
        0
    } else {
        first_slotted_positions(ctors, args, mask, (n - 1) as nat) + (if mask[n - 1] {
            1nat
        } else {
            0nat
        }) + slotted_positions(ctors, args[n - 1])
    }
}

/// One fresh name is made for each position with an edge.
pub proof fn one_name_per_position(cx: BodyContext, e: ExprView, path: Option<ExprView>, next: nat)
    requires
        arities_fit(cx.ctors, e),
    ensures
        body_expr(cx, e, path, next).next == next + slotted_positions(cx.ctors, e),
    decreases e, 0nat,
{
    if let ExprView::Call(span, head, args) = e {
        let mask = edge_mask(cx.ctors, head, args.len());
        assert(shorter(args.len(), mask.len()) == args.len());
        one_name_per_argument_position(cx, span, args, mask, path, next, args.len());
    }
}

/// The same, among and below the first `n` arguments of a call.
proof fn one_name_per_argument_position(
    cx: BodyContext,
    span: Span,
    args: Seq<ExprView>,
    mask: Seq<bool>,
    path: Option<ExprView>,
    next: nat,
    n: nat,
)
    requires
        n <= args.len(),
        first_arities_fit(cx.ctors, args, args.len()),
    ensures
        body_args(cx, span, args, mask, path, next, n).next == next + first_slotted_positions(
            cx.ctors,
            args,
            mask,
            n,
        ),
    decreases args, n,
{
    if n > 0 {
        let k = (n - 1) as nat;
        one_name_per_argument_position(cx, span, args, mask, path, next, k);
        each_arity_fits(cx.ctors, args, args.len());
        assert(arities_fit(cx.ctors, args[n - 1]));
        let front = body_args(cx, span, args, mask, path, next, k);
        let edge = ExprView::Var(span, rename_name(cx, front.next));
        one_name_per_position(
            cx,
            args[n - 1],
            Some(path_through(span, path, edge)),
            front.next + 1,
        );
        one_name_per_position(
            cx,
            args[n - 1],
            path_without_edge(args[n - 1], path),
            front.next,
        );
    }
}

/// A rewritten body expression is the user's expression with edges; its edges
/// are different fresh variables, one for each position with an edge.
pub proof fn rewritten_body_expr_is_the_users(
    cx: BodyContext,
    e: ExprView,
    path: Option<ExprView>,
    next: nat,
)
    requires
        arities_fit(cx.ctors, e),
    ensures
        ({
            let out = body_expr(cx, e, path, next);
            &&& erased(cx.ctors, out.expr) == e
            &&& edge_names(cx.ctors, out.expr) == names_between(cx, next, out.next)
            &&& edge_names(cx.ctors, out.expr).len() == slotted_positions(cx.ctors, e)
            &&& edge_names(cx.ctors, out.expr).no_duplicates()
        }),
{
    body_expr_only_adds_edges(cx, e, path, next);
    edges_are_fresh_names(cx, e, path, next);
    one_name_per_position(cx, e, path, next);
    names_differ(cx, next, body_expr(cx, e, path, next).next);
}

/// Fresh names are different.
pub proof fn names_differ(cx: BodyContext, from: nat, to: nat)
    ensures
        names_between(cx, from, to).no_duplicates(),
{
    let names = names_between(cx, from, to);
    assert forall|i: int, j: int| 0 <= i < names.len() && 0 <= j < names.len() && i != j implies
        names[i] != names[j] by {
        fresh_names_differ(cx.reserved, rename_hint(), (from + i) as nat, (from + j) as nat);
    }
}

/// What is recorded for a name is only added to: behind more entries, the list
/// of the name starts with what it was before.
pub proof fn recorded_lists_only_grow<T>(
    before: Seq<(Seq<char>, T)>,
    more: Seq<(Seq<char>, T)>,
    name: Seq<char>,
)
    ensures
        paired_with(before + more, name, (before + more).len()) == paired_with(
            before,
            name,
            before.len(),
        ) + paired_with(more, name, more.len()),
        paired_with(before, name, before.len()).is_prefix_of(
            paired_with(before + more, name, (before + more).len()),
        ),
{
    first_lists_join(before, more, name, more.len());
}

/// The same, behind the first `n` of the new entries.
proof fn first_lists_join<T>(
    before: Seq<(Seq<char>, T)>,
    more: Seq<(Seq<char>, T)>,
    name: Seq<char>,
    n: nat,
)
    requires
        n <= more.len(),
    ensures
        paired_with(before + more, name, before.len() + n) == paired_with(
            before,
            name,
            before.len(),
        ) + paired_with(more, name, n),
    decreases n,
{
    let front = paired_with(before, name, before.len());
    if n == 0 {
        paired_prefix(before, before + more, name, before.len());
        assert(front + Seq::<T>::empty() =~= front);
    } else {
        let k = (n - 1) as nat;
        first_lists_join(before, more, name, k);
        assert((before + more)[before.len() + n - 1] == more[n - 1]);
        let back = paired_with(more, name, k);
        assert((front + back).push(more[n - 1].1) =~= front + back.push(more[n - 1].1));
    }
}

/// Only the first `n` entries are looked at.
proof fn paired_prefix<T>(
    a: Seq<(Seq<char>, T)>,
    b: Seq<(Seq<char>, T)>,
    name: Seq<char>,
    n: nat,
)
    requires
        forall|i: int| 0 <= i < n ==> a[i] == b[i],
    ensures
        paired_with(a, name, n) == paired_with(b, name, n),
    decreases n,
{
    if n > 0 {
        paired_prefix(a, b, name, (n - 1) as nat);
    }
}

// ---------------------------------------------------------------------------
// The variables at positions with an edge
// ---------------------------------------------------------------------------
/// The variables that stand at a position with an edge in a rewritten term, each
/// with the composition of the edges that lead to it.
pub open spec fn slotted_uses(
    ctors: Map<Seq<char>, Seq<bool>>,
    e: ExprView,
    path: Option<ExprView>,
) -> Seq<(Seq<char>, ExprView)>
    decreases e, 0nat,
{
    match e {
        ExprView::Call(span, head, args) => {
            let mask = declared_mask(ctors, head, args.len());
            first_slotted_uses(ctors, span, args, mask, path, mask.len())
        },
        _ => Seq::empty(),
    }
}

/// Those among and below the first `n` children of a call.
pub open spec fn first_slotted_uses(
    ctors: Map<Seq<char>, Seq<bool>>,
    span: Span,
    args: Seq<ExprView>,
    mask: Seq<bool>,
    path: Option<ExprView>,
    n: nat,
) -> Seq<(Seq<char>, ExprView)>
    decreases args, n,
{
    if n == 0 {
        Seq::empty()
    } else {
        let at = place(mask, n - 1);
        let front = first_slotted_uses(ctors, span, args, mask, path, (n - 1) as nat);
        if !(0 <= at < args.len()) {
            front
        } else if mask[n - 1] {
            let child_path = path_through(span, path, args[at + 1]);
            match args[at] {
                ExprView::Var(_, v) => front.push((v, child_path)),
                _ => front + slotted_uses(ctors, args[at], Some(child_path)),
            }
        } else {
            front + slotted_uses(ctors, args[at], path)
        }
    }
}

/// Those of a rewritten fact.
pub open spec fn fact_slotted_uses(ctors: Map<Seq<char>, Seq<bool>>, f: FactView) -> Seq<
    (Seq<char>, ExprView),
> {
    match f {
        FactView::Eq(_, lhs, rhs) => slotted_uses(ctors, lhs, None) + slotted_uses(
            ctors,
            rhs,
            None,
        ),
        FactView::Fact(e) => slotted_uses(ctors, e, None),
    }
}

/// Those of the first `n` rewritten facts.
pub open spec fn body_slotted_uses(
    ctors: Map<Seq<char>, Seq<bool>>,
    fs: Seq<FactView>,
    n: nat,
) -> Seq<(Seq<char>, ExprView)>
    decreases n,
{
    if n == 0 {
        Seq::empty()
    } else {
        body_slotted_uses(ctors, fs, (n - 1) as nat) + fact_slotted_uses(ctors, fs[n - 1])
    }
}

/// Below the top, exactly the variables at positions with an edge are recorded.
proof fn recorded_at_edges(cx: BodyContext, e: ExprView, path: Option<ExprView>, next: nat)
    requires
        arities_fit(cx.ctors, e),
    ensures
        e is Var || body_expr(cx, e, path, next).uses == slotted_uses(
            cx.ctors,
            body_expr(cx, e, path, next).expr,
            path,
        ),
    decreases e, 0nat,
{
    if let ExprView::Call(span, head, args) = e {
        let mask = edge_mask(cx.ctors, head, args.len());
        let n = args.len();
        each_arity_fits(cx.ctors, args, n);
        assert(shorter(n, mask.len()) == n);
        let r = body_args(cx, span, args, mask, path, next, n);
        let whole = interleave(r.children, r.edges, n);
        body_args_only_add_edges(cx, span, args, mask, path, next, n);
        interleaved_places(r.children, r.edges, mask, n);
        if !cx.ctors.contains_key(head) {
            no_places_taken(mask, n);
        }
        assert(edge_mask(cx.ctors, head, whole.len()) =~= mask);
        args_recorded_at_edges(cx, span, args, mask, path, next, n);
    }
}

/// The same, among and below the first `n` children of a rewritten call.
proof fn args_recorded_at_edges(
    cx: BodyContext,
    span: Span,
    args: Seq<ExprView>,
    mask: Seq<bool>,
    path: Option<ExprView>,
    next: nat,
    n: nat,
)
    requires
        n <= args.len() == mask.len(),
        first_arities_fit(cx.ctors, args, args.len()),
    ensures
        ({
            let r = body_args(cx, span, args, mask, path, next, args.len());
            let whole = interleave(r.children, r.edges, args.len());
            body_args(cx, span, args, mask, path, next, n).uses == first_slotted_uses(
                cx.ctors,
                span,
                whole,
                mask,
                path,
                n,
            )
        }),
    decreases args, n,
{
    let all = args.len();
    let r = body_args(cx, span, args, mask, path, next, all);
    let whole = interleave(r.children, r.edges, all);
    if n > 0 {
        let k = (n - 1) as nat;
        each_arity_fits(cx.ctors, args, all);
        args_recorded_at_edges(cx, span, args, mask, path, next, k);
        let front = body_args(cx, span, args, mask, path, next, k);
        let back = body_args(cx, span, args, mask, path, next, n);
        body_args_lengths(cx, span, args, mask, path, next, k);
        body_args_lengths(cx, span, args, mask, path, next, n);
        body_args_lengths(cx, span, args, mask, path, next, all);
        body_args_stay(cx, span, args, mask, path, next, n, all);
        body_args_only_add_edges(cx, span, args, mask, path, next, all);
        interleaved_places(r.children, r.edges, mask, all);
        assert(place(mask, k as int) < place(mask, all as int));
        assert(r.children[k as int] == back.children[k as int]);
        assert(whole[place(mask, k as int)] == back.children[k as int]);
        assert(arities_fit(cx.ctors, args[k as int]));
        if mask[k as int] {
            let edge = ExprView::Var(span, rename_name(cx, front.next));
            let child_path = path_through(span, path, edge);
            recorded_at_edges(cx, args[k as int], Some(child_path), front.next + 1);
            assert(r.edges[k as int] == back.edges[k as int]);
            assert(whole[place(mask, k as int) + 1] == edge);
            let child = body_expr(cx, args[k as int], Some(child_path), front.next + 1);
            assert(child.expr is Var <==> args[k as int] is Var);
            if let ExprView::Var(_, v) = args[k as int] {
                assert(child.uses == seq![(v, child_path)]);
                assert(front.uses + seq![(v, child_path)] =~= front.uses.push((v, child_path)));
            }
        } else {
            let child_path = path_without_edge(args[k as int], path);
            recorded_at_edges(cx, args[k as int], child_path, front.next);
            let child = body_expr(cx, args[k as int], child_path, front.next);
            if args[k as int] is Var {
                assert(child.uses == Seq::<(Seq<char>, ExprView)>::empty());
                assert(slotted_uses(cx.ctors, child.expr, path) == child.uses);
            }
        }
    }
}

/// The variables that the first `n` facts record are those at positions with an
/// edge.
pub proof fn facts_recorded_at_edges(cx: BodyContext, fs: Seq<FactView>, next: nat, n: nat)
    requires
        n <= fs.len(),
        forall|i: int| 0 <= i < fs.len() ==> fact_arities_fit(cx.ctors, #[trigger] fs[i]),
    ensures
        body_facts(cx, fs, next, n).facts.len() == n,
        body_facts(cx, fs, next, n).uses == body_slotted_uses(
            cx.ctors,
            body_facts(cx, fs, next, n).facts,
            n,
        ),
    decreases n,
{
    if n > 0 {
        let k = (n - 1) as nat;
        facts_recorded_at_edges(cx, fs, next, k);
        let front = body_facts(cx, fs, next, k);
        let last = body_fact(cx, fs[n - 1], front.next);
        let whole = body_facts(cx, fs, next, n);
        assert(fact_arities_fit(cx.ctors, fs[n - 1]));
        match fs[n - 1] {
            FactView::Eq(span, lhs, rhs) => {
                let l = body_expr(cx, lhs, None, front.next);
                recorded_at_edges(cx, lhs, None, front.next);
                recorded_at_edges(cx, rhs, None, l.next);
            },
            FactView::Fact(e) => {
                recorded_at_edges(cx, e, None, front.next);
            },
        }
        assert(last.uses == fact_slotted_uses(cx.ctors, last.facts[0]));
        assert(whole.facts[n - 1] == last.facts[0]);
        body_slotted_uses_prefix(cx.ctors, front.facts, whole.facts, k);
    }
}

/// Only the first `n` facts matter for the variables of the first `n`.
pub proof fn body_slotted_uses_prefix(
    ctors: Map<Seq<char>, Seq<bool>>,
    fs: Seq<FactView>,
    more: Seq<FactView>,
    n: nat,
)
    requires
        n <= fs.len() <= more.len(),
        forall|i: int| 0 <= i < n ==> fs[i] == more[i],
    ensures
        body_slotted_uses(ctors, fs, n) == body_slotted_uses(ctors, more, n),
    decreases n,
{
    if n > 0 {
        body_slotted_uses_prefix(ctors, fs, more, (n - 1) as nat);
    }
}

/// Each constraint that is added to a rewritten rule stands between two
/// neighbouring paths of one variable, both at positions with an edge.
pub proof fn constraints_stand_between_slotted_paths(
    st: SlottedStateView,
    reserved: Seq<char>,
    next: nat,
    rule: RuleView,
    f: FactView,
)
    requires
        forall|i: int|
            0 <= i < rule.body.len() ==> fact_arities_fit(
                st.rewritten_ctors,
                #[trigger] rule.body[i],
            ),
        user_rule(st, reserved, next, rule).0.body.skip(rule.body.len() as int).contains(f),
    ensures
        ({
            let out = user_rule(st, reserved, next, rule).0;
            let uses = body_slotted_uses(st.rewritten_ctors, out.body, rule.body.len());
            exists|v: Seq<char>, i: int|
                0 <= i && i + 1 < paths_of(uses, v).len() && f == FactView::Eq(
                    rule.span,
                    #[trigger] paths_of(uses, v)[i],
                    paths_of(uses, v)[i + 1],
                )
        }),
{
    let cx = BodyContext { ctors: st.rewritten_ctors, reserved };
    let n = rule.body.len();
    let body = body_facts(cx, rule.body, next, n);
    let out = user_rule(st, reserved, next, rule).0;
    facts_recorded_at_edges(cx, rule.body, next, n);
    body_slotted_uses_prefix(cx.ctors, body.facts, out.body, n);
    assert(out.body.skip(n as int) =~= path_constraints(rule.span, body.uses, body.uses.len()));
    only_paths_of_a_variable_are_equated(rule.span, body.uses, body.uses.len(), f);
}

// ---------------------------------------------------------------------------
// The paths of a variable
// ---------------------------------------------------------------------------
/// Neighbouring paths are equated, and nothing else is.
proof fn neighbours_are_equated(span: Span, paths: Seq<ExprView>, n: nat)
    ensures
        neighbours_equal(span, paths, n).len() == if n == 0 {
            0
        } else {
            (n - 1) as nat
        },
        forall|i: int|
            0 <= i < n - 1 ==> #[trigger] neighbours_equal(span, paths, n)[i] == FactView::Eq(
                span,
                paths[i],
                paths[i + 1],
            ),
    decreases n,
{
    if n > 1 {
        neighbours_are_equated(span, paths, (n - 1) as nat);
    }
}

/// A variable that was met among the first `n` uses has a first use among them.
proof fn first_use(uses: Seq<(Seq<char>, ExprView)>, v: Seq<char>, n: nat) -> (m: nat)
    requires
        n <= uses.len(),
        paired_with(uses, v, n).len() > 0,
    ensures
        0 < m <= n,
        uses[m - 1].0 == v,
        paired_with(uses, v, (m - 1) as nat).len() == 0,
    decreases n,
{
    let k = (n - 1) as nat;
    if paired_with(uses, v, k).len() > 0 {
        first_use(uses, v, k)
    } else {
        n
    }
}

/// The constraints of a variable's first use are among the constraints.
proof fn first_use_is_constrained(
    span: Span,
    uses: Seq<(Seq<char>, ExprView)>,
    m: nat,
    n: nat,
    f: FactView,
)
    requires
        0 < m <= n <= uses.len(),
        paired_with(uses, uses[m - 1].0, (m - 1) as nat).len() == 0,
        neighbours_equal(
            span,
            paths_of(uses, uses[m - 1].0),
            paths_of(uses, uses[m - 1].0).len(),
        ).contains(f),
    ensures
        path_constraints(span, uses, n).contains(f),
    decreases n,
{
    let front = path_constraints(span, uses, (n - 1) as nat);
    let paths = paths_of(uses, uses[n - 1].0);
    let last = neighbours_equal(span, paths, paths.len());
    if m == n {
        let i = last.index_of(f);
        assert((front + last)[front.len() + i] == f);
    } else {
        first_use_is_constrained(span, uses, m, (n - 1) as nat, f);
        let i = front.index_of(f);
        assert((front + last)[i] == f);
    }
}

/// The names that the first `n` uses speak of.
pub open spec fn names_used(uses: Seq<(Seq<char>, ExprView)>, n: nat) -> Set<Seq<char>>
    decreases n,
{
    if n == 0 {
        Set::empty()
    } else {
        names_used(uses, (n - 1) as nat).insert(uses[n - 1].0)
    }
}

/// How many of the first `m` uses are of names that were first met among the first
/// `n`.
spec fn uses_of_first(uses: Seq<(Seq<char>, ExprView)>, m: nat, n: nat) -> int
    decreases n,
{
    if n == 0 {
        0
    } else {
        let v = uses[n - 1].0;
        uses_of_first(uses, m, (n - 1) as nat) + if names_used(uses, (n - 1) as nat).contains(v) {
            0
        } else {
            paired_with(uses, v, m).len() as int
        }
    }
}

/// A name was used exactly if it has paths.
proof fn used_names_have_paths(uses: Seq<(Seq<char>, ExprView)>, v: Seq<char>, n: nat)
    ensures
        names_used(uses, n).contains(v) <==> paired_with(uses, v, n).len() > 0,
        names_used(uses, n).finite(),
    decreases n,
{
    if n > 0 {
        used_names_have_paths(uses, v, (n - 1) as nat);
    }
}

/// The name of a use was used.
proof fn uses_are_used(uses: Seq<(Seq<char>, ExprView)>, i: int, n: nat)
    requires
        0 <= i < n,
    ensures
        names_used(uses, n).contains(uses[i].0),
    decreases n,
{
    if i < n - 1 {
        uses_are_used(uses, i, (n - 1) as nat);
    }
}

/// One more use counts for the name that it is of.
proof fn one_more_use(uses: Seq<(Seq<char>, ExprView)>, m: nat, n: nat)
    ensures
        uses_of_first(uses, m + 1, n) == uses_of_first(uses, m, n) + if names_used(
            uses,
            n,
        ).contains(uses[m as int].0) {
            1int
        } else {
            0int
        },
    decreases n,
{
    if n > 0 {
        one_more_use(uses, m, (n - 1) as nat);
        let v = uses[n - 1].0;
        assert(paired_with(uses, v, m + 1).len() == paired_with(uses, v, m).len() + if v
            == uses[m as int].0 {
            1int
        } else {
            0int
        });
    }
}

/// Every use is of a name that was first met somewhere.
proof fn every_use_counts(uses: Seq<(Seq<char>, ExprView)>, m: nat, n: nat)
    requires
        m <= n,
    ensures
        uses_of_first(uses, m, n) == m,
    decreases m, n,
{
    if m > 0 {
        every_use_counts(uses, (m - 1) as nat, n);
        one_more_use(uses, (m - 1) as nat, n);
        uses_are_used(uses, m - 1, n);
    } else if n > 0 {
        every_use_counts(uses, 0, (n - 1) as nat);
    }
}

/// The constraints of the names that were first met among the first `n` uses.
proof fn constraints_by_name(span: Span, uses: Seq<(Seq<char>, ExprView)>, n: nat)
    requires
        n <= uses.len(),
    ensures
        path_constraints(span, uses, n).len() + names_used(uses, n).len() == uses_of_first(
            uses,
            uses.len(),
            n,
        ),
    decreases n,
{
    if n > 0 {
        let k = (n - 1) as nat;
        let v = uses[n - 1].0;
        constraints_by_name(span, uses, k);
        used_names_have_paths(uses, v, k);
        used_names_have_paths(uses, v, uses.len());
        uses_are_used(uses, n - 1, uses.len());
        neighbours_are_equated(span, paths_of(uses, v), paths_of(uses, v).len());
    }
}

/// A rewritten rule demands of each variable one equation less than it has paths,
/// and no other: the facts of the rewritten body are those of the user's body and
/// one for each use at a position with an edge but the first of each variable.
pub proof fn as_many_constraints_as_needed(
    st: SlottedStateView,
    reserved: Seq<char>,
    next: nat,
    rule: RuleView,
)
    requires
        forall|i: int|
            0 <= i < rule.body.len() ==> fact_arities_fit(
                st.rewritten_ctors,
                #[trigger] rule.body[i],
            ),
    ensures
        ({
            let out = user_rule(st, reserved, next, rule).0;
            let uses = body_slotted_uses(st.rewritten_ctors, out.body, rule.body.len());
            out.body.len() + names_used(uses, uses.len()).len() == rule.body.len() + uses.len()
        }),
{
    let cx = BodyContext { ctors: st.rewritten_ctors, reserved };
    let n = rule.body.len();
    let body = body_facts(cx, rule.body, next, n);
    let out = user_rule(st, reserved, next, rule).0;
    facts_recorded_at_edges(cx, rule.body, next, n);
    body_slotted_uses_prefix(cx.ctors, body.facts, out.body, n);
    constraints_by_name(rule.span, body.uses, body.uses.len());
    every_use_counts(body.uses, body.uses.len(), body.uses.len());
}

/// Where a rule body reaches a variable by several paths, the rewritten body
/// demands that each path equals the one before it.
pub proof fn paths_of_a_variable_are_equated(
    span: Span,
    uses: Seq<(Seq<char>, ExprView)>,
    v: Seq<char>,
    i: int,
)
    requires
        0 <= i,
        i + 1 < paths_of(uses, v).len(),
    ensures
        path_constraints(span, uses, uses.len()).contains(
            FactView::Eq(span, paths_of(uses, v)[i], paths_of(uses, v)[i + 1]),
        ),
{
    let paths = paths_of(uses, v);
    let m = first_use(uses, v, uses.len());
    neighbours_are_equated(span, paths, paths.len());
    let f = FactView::Eq(span, paths[i], paths[i + 1]);
    assert(neighbours_equal(span, paths, paths.len())[i] == f);
    first_use_is_constrained(span, uses, m, uses.len(), f);
}

/// The rewritten body demands nothing else: each added constraint equates two
/// neighbouring paths of one variable.
pub proof fn only_paths_of_a_variable_are_equated(
    span: Span,
    uses: Seq<(Seq<char>, ExprView)>,
    n: nat,
    f: FactView,
)
    requires
        n <= uses.len(),
        path_constraints(span, uses, n).contains(f),
    ensures
        exists|v: Seq<char>, i: int|
            0 <= i && i + 1 < paths_of(uses, v).len() && f == FactView::Eq(
                span,
                #[trigger] paths_of(uses, v)[i],
                paths_of(uses, v)[i + 1],
            ),
    decreases n,
{
    let c = path_constraints(span, uses, n);
    let at = c.index_of(f);
    assert(c[at] == f);
    let front = path_constraints(span, uses, (n - 1) as nat);
    let v = uses[n - 1].0;
    let paths = paths_of(uses, v);
    if at < front.len() {
        assert(front[at] == f);
        only_paths_of_a_variable_are_equated(span, uses, (n - 1) as nat, f);
    } else {
        neighbours_are_equated(span, paths, paths.len());
        let i = at - front.len();
        assert(neighbours_equal(span, paths, paths.len())[i] == f);
        assert(f == FactView::Eq(span, paths_of(uses, v)[i], paths_of(uses, v)[i + 1]));
    }
}

// ---------------------------------------------------------------------------
// The whole rule
// ---------------------------------------------------------------------------
/// A fact without its edges.
pub open spec fn erased_fact(ctors: Map<Seq<char>, Seq<bool>>, f: FactView) -> FactView {
    match f {
        FactView::Eq(span, lhs, rhs) => FactView::Eq(
            span,
            erased(ctors, lhs),
            erased(ctors, rhs),
        ),
        FactView::Fact(e) => FactView::Fact(erased(ctors, e)),
    }
}

/// The terms of a list without their edges.
pub open spec fn all_erased(ctors: Map<Seq<char>, Seq<bool>>, es: Seq<ExprView>) -> Seq<ExprView> {
    es.map_values(|e: ExprView| erased(ctors, e))
}

/// An action without its edges.
pub open spec fn erased_action(ctors: Map<Seq<char>, Seq<bool>>, a: ActionView) -> ActionView {
    match a {
        ActionView::Union(span, lhs, rhs) => ActionView::Union(
            span,
            erased(ctors, lhs),
            erased(ctors, rhs),
        ),
        ActionView::Let(span, v, e) => ActionView::Let(span, v, erased(ctors, e)),
        ActionView::Assign(span, head, args, val) => ActionView::Assign(
            span,
            head,
            all_erased(ctors, args),
            erased(ctors, val),
        ),
        ActionView::Change(span, change, head, args) => ActionView::Change(
            span,
            change,
            head,
            erased(ctors, ExprView::Call(span, head, args))->Call_2,
        ),
        ActionView::Expr(span, e) => ActionView::Expr(span, erased(ctors, e)),
        ActionView::Panic(span, msg) => a,
    }
}

/// Whether the calls of rewritten constructors in an action have the arguments
/// that these were declared with.
pub open spec fn action_arities_fit(ctors: Map<Seq<char>, Seq<bool>>, a: ActionView) -> bool {
    match a {
        ActionView::Union(_, lhs, rhs) => arities_fit(ctors, lhs) && arities_fit(ctors, rhs),
        ActionView::Let(_, _, e) => arities_fit(ctors, e),
        ActionView::Assign(_, _, args, val) => first_arities_fit(ctors, args, args.len())
            && arities_fit(ctors, val),
        ActionView::Change(span, _, head, args) => arities_fit(
            ctors,
            ExprView::Call(span, head, args),
        ),
        ActionView::Expr(_, e) => arities_fit(ctors, e),
        ActionView::Panic(_, _) => true,
    }
}

/// The first `n` rewritten facts are the user's facts with edges.
pub proof fn body_facts_only_add_edges(cx: BodyContext, fs: Seq<FactView>, next: nat, n: nat)
    requires
        n <= fs.len(),
        forall|i: int| 0 <= i < fs.len() ==> fact_arities_fit(cx.ctors, #[trigger] fs[i]),
    ensures
        body_facts(cx, fs, next, n).facts.len() == n,
        forall|i: int|
            0 <= i < n ==> erased_fact(cx.ctors, #[trigger] body_facts(cx, fs, next, n).facts[i])
                == fs[i],
    decreases n,
{
    if n > 0 {
        let k = (n - 1) as nat;
        body_facts_only_add_edges(cx, fs, next, k);
        let front = body_facts(cx, fs, next, k);
        let whole = body_facts(cx, fs, next, n);
        assert(fact_arities_fit(cx.ctors, fs[n - 1]));
        match fs[n - 1] {
            FactView::Eq(span, lhs, rhs) => {
                body_expr_only_adds_edges(cx, lhs, None, front.next);
                body_expr_only_adds_edges(
                    cx,
                    rhs,
                    None,
                    body_expr(cx, lhs, None, front.next).next,
                );
            },
            FactView::Fact(e) => {
                body_expr_only_adds_edges(cx, e, None, front.next);
            },
        }
        assert forall|i: int| 0 <= i < n implies erased_fact(
            cx.ctors,
            #[trigger] whole.facts[i],
        ) == fs[i] by {
            if i < k {
                assert(whole.facts[i] == front.facts[i]);
            }
        }
    }
}

/// A list of terms in a rule head only gets edges.
proof fn head_exprs_only_add_edges(st: SlottedStateView, scope: RuleScope, es: Seq<ExprView>)
    requires
        leaves_fit(st),
        first_arities_fit(st.rewritten_ctors, es, es.len()),
    ensures
        all_erased(st.rewritten_ctors, head_exprs(st, scope, es)) == es,
{
    each_arity_fits(st.rewritten_ctors, es, es.len());
    let out = head_exprs(st, scope, es);
    assert forall|i: int| 0 <= i < es.len() implies erased(
        st.rewritten_ctors,
        #[trigger] out[i],
    ) == es[i] by {
        assert(arities_fit(st.rewritten_ctors, es[i]));
        action_expr_only_adds_edges(st, scope, es[i]);
    }
    assert(all_erased(st.rewritten_ctors, out) =~= es);
}

/// An action of a rule head only gets edges.
proof fn head_action_only_adds_edges(st: SlottedStateView, scope: RuleScope, a: ActionView)
    requires
        leaves_fit(st),
        action_arities_fit(st.rewritten_ctors, a),
    ensures
        erased_action(st.rewritten_ctors, head_action(st, scope, a)) == a,
{
    match a {
        ActionView::Union(span, lhs, rhs) => {
            action_expr_only_adds_edges(st, scope, lhs);
            action_expr_only_adds_edges(st, scope, rhs);
        },
        ActionView::Let(span, v, e) => {
            action_expr_only_adds_edges(st, scope, e);
        },
        ActionView::Assign(span, head, args, val) => {
            head_exprs_only_add_edges(st, scope, args);
            action_expr_only_adds_edges(st, scope, val);
        },
        ActionView::Change(span, change, head, args) => {
            let call = ExprView::Call(span, head, args);
            action_expr_only_adds_edges(st, scope, call);
            let rewritten = action_expr(st, scope, call).0;
            assert(rewritten == ExprView::Call(
                span,
                head,
                head_args(st, scope, span, head, args),
            ));
        },
        ActionView::Expr(span, e) => {
            action_expr_only_adds_edges(st, scope, e);
        },
        ActionView::Panic(span, msg) => {},
    }
}

/// Outside rules, the encoding only adds edges to an action.
pub proof fn top_action_only_adds_edges(st: SlottedStateView, a: ActionView)
    requires
        leaves_fit(st),
        action_arities_fit(st.rewritten_ctors, a),
    ensures
        erased_action(st.rewritten_ctors, top_action(st, a).0) == a,
{
    let ctors = st.rewritten_ctors;
    match a {
        ActionView::Union(span, lhs, rhs) => {
            top_expr_only_adds_edges(st, lhs);
            top_expr_only_adds_edges(st, rhs);
        },
        ActionView::Let(span, v, e) => {
            top_expr_only_adds_edges(st, e);
        },
        ActionView::Assign(span, head, args, val) => {
            each_arity_fits(ctors, args, args.len());
            let out = top_exprs(st, args);
            assert forall|i: int| 0 <= i < args.len() implies erased(ctors, #[trigger] out[i])
                == args[i] by {
                assert(arities_fit(ctors, args[i]));
                top_expr_only_adds_edges(st, args[i]);
            }
            assert(all_erased(ctors, out) =~= args);
            top_expr_only_adds_edges(st, val);
        },
        ActionView::Change(span, change, head, args) => {
            let call = ExprView::Call(span, head, args);
            top_expr_only_adds_edges(st, call);
            assert(top_expr(st, call) == ExprView::Call(
                span,
                head,
                top_args(st, span, head, args),
            ));
        },
        ActionView::Expr(span, e) => {
            top_expr_only_adds_edges(st, e);
        },
        ActionView::Panic(span, msg) => {},
    }
}

/// A row of a rewritten constructor that is deleted or subsumed has the
/// arguments of the rewritten signature, outside rules and in rule heads.
pub proof fn changed_rows_fit_the_signature(
    st: SlottedStateView,
    scope: RuleScope,
    span: Span,
    change: Change,
    head: Seq<char>,
    args: Seq<ExprView>,
    inputs: Seq<Seq<char>>,
)
    requires
        leaves_fit(st),
        st.rewritten_ctors.contains_key(head),
        arities_fit(st.rewritten_ctors, ExprView::Call(span, head, args)),
        inputs.len() == args.len(),
    ensures
        ({
            let a = ActionView::Change(span, change, head, args);
            let signature = slotted_inputs(inputs, st.rewritten_ctors[head], inputs.len());
            &&& top_action(st, a).0->Change_3.len() == signature.len()
            &&& head_action(st, scope, a)->Change_3.len() == signature.len()
        }),
{
    let cx = BodyContext { ctors: st.rewritten_ctors, reserved: Seq::empty() };
    rewritten_calls_fit_the_signature(st, scope, cx, None, 0, span, head, args, inputs);
}

/// A rewritten rule is the user's rule with edges, and with the equations
/// between paths behind the body.
pub proof fn rewritten_rule_is_the_users_rule(
    st: SlottedStateView,
    reserved: Seq<char>,
    next: nat,
    rule: RuleView,
)
    requires
        leaves_fit(st),
        forall|i: int|
            0 <= i < rule.body.len() ==> fact_arities_fit(
                st.rewritten_ctors,
                #[trigger] rule.body[i],
            ),
        forall|i: int|
            0 <= i < rule.head.len() ==> action_arities_fit(
                st.rewritten_ctors,
                #[trigger] rule.head[i],
            ),
    ensures
        ({
            let out = user_rule(st, reserved, next, rule).0;
            let cx = BodyContext { ctors: st.rewritten_ctors, reserved };
            let uses = body_facts(cx, rule.body, next, rule.body.len()).uses;
            let n = rule.body.len() as int;
            &&& out.span == rule.span && out.name == rule.name && out.ruleset == rule.ruleset
            &&& out.body.len() >= n
            &&& forall|i: int|
                0 <= i < n ==> erased_fact(st.rewritten_ctors, #[trigger] out.body[i])
                    == rule.body[i]
            &&& out.body.skip(n) == path_constraints(rule.span, uses, uses.len())
            &&& out.head.len() == rule.head.len()
            &&& forall|i: int|
                0 <= i < rule.head.len() ==> erased_action(
                    st.rewritten_ctors,
                    #[trigger] out.head[i],
                ) == rule.head[i]
        }),
{
    let cx = BodyContext { ctors: st.rewritten_ctors, reserved };
    let body = body_facts(cx, rule.body, next, rule.body.len());
    let scope = RuleScope { span: rule.span, uses: body.uses, heads: body.heads };
    let out = user_rule(st, reserved, next, rule).0;
    let n = rule.body.len() as int;
    body_facts_only_add_edges(cx, rule.body, next, rule.body.len());
    assert forall|i: int| 0 <= i < n implies erased_fact(st.rewritten_ctors, #[trigger] out.body[i])
        == rule.body[i] by {
        assert(out.body[i] == body.facts[i]);
    }
    assert(out.body.skip(n) =~= path_constraints(rule.span, body.uses, body.uses.len()));
    assert forall|i: int| 0 <= i < rule.head.len() implies erased_action(
        st.rewritten_ctors,
        #[trigger] out.head[i],
    ) == rule.head[i] by {
        assert(action_arities_fit(st.rewritten_ctors, rule.head[i]));
        head_action_only_adds_edges(st, scope, rule.head[i]);
    }
}

} // verus!
