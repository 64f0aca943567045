//! How the head of a rewritten rule sees the variables that its body binds.

use vstd::prelude::*;

use crate::ast::{ActionView, ExprView, FactView, RuleView, Span};
use crate::slotted_encoding::erasure::{
    arities_fit, body_args_only_add_edges, body_edges_are_the_declared, each_arity_fits,
    interleaved_places, leaves_fit, place, set_before,
};
use crate::slotted_encoding::generated::set_position;
use crate::slotted_encoding::meaning::{
    all_values, compose_reads, identity_on, renaming_of, synthesized_identity_is_identity, Reading,
};
use crate::slotted_encoding::model::{
    action_expr, action_results, body_args, body_args_lengths, body_expr, body_fact, body_facts,
    edge_mask, head_action, head_args, head_exprs, head_renames, head_variable, interleave,
    paired_with, path_through, path_without_edge, paths_of, rename_name, scope_rename, shorter,
    user_rule, vars, BodyContext, RuleScope, SlottedStateView,
};
use crate::slotted_encoding::rules::{
    action_arities_fit, body_slotted_uses, body_slotted_uses_prefix, fact_arities_fit,
    facts_recorded_at_edges,
};
use crate::slotted_encoding::views::{
    edges_in_heads_show_the_views, known_in_head, shows_views, stands_for, Known,
};
use crate::sort::renaming::Renaming;
use crate::sort::Value;

verus! {

broadcast use body_edges_are_the_declared;

// ---------------------------------------------------------------------------
// Lists of named entries
// ---------------------------------------------------------------------------
/// The entries of a name.
pub open spec fn of_name<T>(name: Seq<char>) -> spec_fn((Seq<char>, T)) -> bool {
    |e: (Seq<char>, T)| e.0 == name
}

/// What a list pairs with a name are the entries of that name, in order.
pub proof fn paired_are_the_entries_of_the_name<T>(entries: Seq<(Seq<char>, T)>, name: Seq<char>)
    ensures
        paired_with(entries, name, entries.len()) == entries.filter(of_name(name)).map_values(
            |e: (Seq<char>, T)| e.1,
        ),
{
    first_paired(entries, name, entries.len());
    assert(entries.take(entries.len() as int) =~= entries);
}

/// The same, for the first `n` entries.
proof fn first_paired<T>(entries: Seq<(Seq<char>, T)>, name: Seq<char>, n: nat)
    requires
        n <= entries.len(),
    ensures
        paired_with(entries, name, n) == entries.take(n as int).filter(of_name(name)).map_values(
            |e: (Seq<char>, T)| e.1,
        ),
    decreases n,
{
    reveal(Seq::filter);
    let p = of_name(name);
    let f = |e: (Seq<char>, T)| e.1;
    let here = entries.take(n as int);
    if n == 0 {
        assert(here.filter(p).map_values(f) =~= Seq::empty());
    } else {
        let k = (n - 1) as nat;
        first_paired(entries, name, k);
        assert(here.drop_last() =~= entries.take(k as int));
        assert(here.last() == entries[n - 1]);
        assert(here.filter(p).map_values(f) =~= paired_with(entries, name, n));
    }
}

/// A name is paired with what an entry gives it, and with nothing else.
proof fn paired_contains<T>(entries: Seq<(Seq<char>, T)>, name: Seq<char>, n: nat, x: T)
    requires
        n <= entries.len(),
    ensures
        paired_with(entries, name, n).contains(x) <==> exists|i: int|
            0 <= i < n && #[trigger] entries[i] == (name, x),
    decreases n,
{
    if n > 0 {
        let k = (n - 1) as nat;
        paired_contains(entries, name, k, x);
        let front = paired_with(entries, name, k);
        let whole = paired_with(entries, name, n);
        if front.contains(x) {
            assert(whole[front.index_of(x)] == x);
        }
        if entries[n - 1] == (name, x) {
            assert(whole[front.len() as int] == x);
        }
        if whole.contains(x) {
            let i = whole.index_of(x);
            if i < front.len() {
                assert(front[i] == x);
            } else {
                assert(entries[n - 1] == (name, x));
            }
        }
    }
}

// ---------------------------------------------------------------------------
// What a body says of a variable
// ---------------------------------------------------------------------------
/// The expression that a fact equates a variable with, on whichever side the
/// variable stands.
pub open spec fn equated_with(f: FactView, v: Seq<char>) -> Option<ExprView> {
    match f {
        FactView::Eq(_, lhs, rhs) => if lhs matches ExprView::Var(_, w) && w == v {
            Some(rhs)
        } else if rhs matches ExprView::Var(_, w) && w == v {
            Some(lhs)
        } else {
            None
        },
        FactView::Fact(_) => None,
    }
}

/// Whether a fact equates a variable with the call of a rewritten constructor that
/// takes slots at position `p`.
pub open spec fn has_edge_at(
    ctors: Map<Seq<char>, Seq<bool>>,
    f: FactView,
    v: Seq<char>,
    p: int,
) -> bool {
    equated_with(f, v) matches Some(ExprView::Call(_, head, _)) && ctors.contains_key(head) && 0
        <= p < ctors[head].len() && ctors[head][p]
}

/// The edge at that position.
pub open spec fn edge_at(
    ctors: Map<Seq<char>, Seq<bool>>,
    f: FactView,
    v: Seq<char>,
    p: int,
) -> ExprView {
    let call = equated_with(f, v)->0;
    call->Call_2[place(ctors[call->Call_1], p) + 1]
}

/// The values of all edges of the calls that the first `n` facts equate a variable
/// with.
pub open spec fn values_of_equated_calls(
    rd: Reading,
    ctors: Map<Seq<char>, Seq<bool>>,
    fs: Seq<FactView>,
    n: nat,
    v: Seq<char>,
) -> Set<Value> {
    Set::new(
        |x: Value|
            exists|i: int, p: int|
                0 <= i < n && #[trigger] has_edge_at(ctors, fs[i], v, p) && renaming_of(
                    rd,
                    edge_at(ctors, fs[i], v, p),
                )->0.contains_value(x),
    )
}

/// How a rewritten body sees a variable: by the first path that leads to it, or,
/// where it stands at no edge, by the identity over all values of the edges of the
/// calls that it is equated with.
pub open spec fn body_view(
    rd: Reading,
    ctors: Map<Seq<char>, Seq<bool>>,
    fs: Seq<FactView>,
    n: nat,
    v: Seq<char>,
) -> Renaming {
    let uses = body_slotted_uses(ctors, fs, n).filter(of_name(v));
    if uses.len() > 0 {
        renaming_of(rd, uses[0].1)->0
    } else {
        identity_on(values_of_equated_calls(rd, ctors, fs, n, v))
    }
}

// ---------------------------------------------------------------------------
// Paths are renamings
// ---------------------------------------------------------------------------
/// The paths that a body expression records stand for renamings.
proof fn paths_read(
    rd: Reading,
    cx: BodyContext,
    e: ExprView,
    path: Option<ExprView>,
    next: nat,
)
    requires
        path matches Some(p) ==> renaming_of(rd, p) is Some,
    ensures
        forall|i: int|
            0 <= i < body_expr(cx, e, path, next).uses.len() ==> renaming_of(
                rd,
                (#[trigger] body_expr(cx, e, path, next).uses[i]).1,
            ) is Some,
    decreases e, 0nat,
{
    if let ExprView::Call(span, head, args) = e {
        let mask = edge_mask(cx.ctors, head, args.len());
        arg_paths_read(rd, cx, span, args, mask, path, next, shorter(args.len(), mask.len()));
    }
}

/// The same, for the first `n` arguments of a call.
proof fn arg_paths_read(
    rd: Reading,
    cx: BodyContext,
    span: Span,
    args: Seq<ExprView>,
    mask: Seq<bool>,
    path: Option<ExprView>,
    next: nat,
    n: nat,
)
    requires
        n <= args.len(),
        path matches Some(p) ==> renaming_of(rd, p) is Some,
    ensures
        forall|i: int|
            0 <= i < body_args(cx, span, args, mask, path, next, n).uses.len() ==> renaming_of(
                rd,
                (#[trigger] body_args(cx, span, args, mask, path, next, n).uses[i]).1,
            ) is Some,
    decreases args, n,
{
    if n > 0 {
        let k = (n - 1) as nat;
        arg_paths_read(rd, cx, span, args, mask, path, next, k);
        let front = body_args(cx, span, args, mask, path, next, k);
        let whole = body_args(cx, span, args, mask, path, next, n);
        let edge = ExprView::Var(span, rename_name(cx, front.next));
        if let Some(p) = path {
            compose_reads(rd, span, p, edge);
        }
        paths_read(rd, cx, args[n - 1], Some(path_through(span, path, edge)), front.next + 1);
        paths_read(rd, cx, args[n - 1], path_without_edge(args[n - 1], path), front.next);
        assert forall|i: int| 0 <= i < whole.uses.len() implies renaming_of(
            rd,
            (#[trigger] whole.uses[i]).1,
        ) is Some by {
            if i < front.uses.len() {
                assert(whole.uses[i] == front.uses[i]);
            }
        }
    }
}

/// The same, for the first `n` facts of a body.
proof fn fact_paths_read(rd: Reading, cx: BodyContext, fs: Seq<FactView>, next: nat, n: nat)
    ensures
        forall|i: int|
            0 <= i < body_facts(cx, fs, next, n).uses.len() ==> renaming_of(
                rd,
                (#[trigger] body_facts(cx, fs, next, n).uses[i]).1,
            ) is Some,
    decreases n,
{
    if n > 0 {
        let front = body_facts(cx, fs, next, (n - 1) as nat);
        fact_paths_read(rd, cx, fs, next, (n - 1) as nat);
        let whole = body_facts(cx, fs, next, n);
        let last = body_fact(cx, fs[n - 1], front.next);
        match fs[n - 1] {
            FactView::Eq(span, lhs, rhs) => {
                let l = body_expr(cx, lhs, None, front.next);
                paths_read(rd, cx, lhs, None, front.next);
                paths_read(rd, cx, rhs, None, l.next);
                assert forall|i: int| 0 <= i < last.uses.len() implies renaming_of(
                    rd,
                    (#[trigger] last.uses[i]).1,
                ) is Some by {
                    if i < l.uses.len() {
                        assert(last.uses[i] == l.uses[i]);
                    }
                }
            },
            FactView::Fact(e) => {
                paths_read(rd, cx, e, None, front.next);
            },
        }
        assert forall|i: int| 0 <= i < whole.uses.len() implies renaming_of(
            rd,
            (#[trigger] whole.uses[i]).1,
        ) is Some by {
            if i < front.uses.len() {
                assert(whole.uses[i] == front.uses[i]);
            } else {
                assert(whole.uses[i] == last.uses[i - front.uses.len()]);
            }
        }
    }
}

// ---------------------------------------------------------------------------
// The calls that a variable is equated with
// ---------------------------------------------------------------------------
/// The edge renames of a call are the variables at its edges, in order.
proof fn renames_are_the_edges(
    cx: BodyContext,
    span: Span,
    args: Seq<ExprView>,
    mask: Seq<bool>,
    path: Option<ExprView>,
    next: nat,
    n: nat,
)
    requires
        n <= args.len(),
        n <= mask.len(),
    ensures
        ({
            let r = body_args(cx, span, args, mask, path, next, n);
            &&& r.renames.len() == set_before(mask, n)
            &&& r.edges.len() == n
            &&& forall|i: int|
                0 <= i < n && #[trigger] mask[i] ==> set_before(mask, i as nat) < set_before(
                    mask,
                    n,
                ) && r.edges[i] == Some(
                    ExprView::Var(span, r.renames[set_before(mask, i as nat) as int]),
                )
        }),
    decreases n,
{
    if n > 0 {
        let k = (n - 1) as nat;
        renames_are_the_edges(cx, span, args, mask, path, next, k);
        let front = body_args(cx, span, args, mask, path, next, k);
        let r = body_args(cx, span, args, mask, path, next, n);
        assert forall|i: int| 0 <= i < n && #[trigger] mask[i] implies set_before(mask, i as nat)
            < set_before(mask, n) && r.edges[i] == Some(
            ExprView::Var(span, r.renames[set_before(mask, i as nat) as int]),
        ) by {
            if i < k {
                assert(r.edges[i] == front.edges[i]);
            }
        }
    }
}

/// The renames of a rewritten call are the variables at its edges.
proof fn renames_of_a_call(cx: BodyContext, e: ExprView, next: nat, r: Seq<char>)
    requires
        e is Call,
        cx.ctors.contains_key(e->Call_1),
        arities_fit(cx.ctors, e),
    ensures
        ({
            let out = body_expr(cx, e, None, next);
            let mask = cx.ctors[e->Call_1];
            &&& out.expr is Call && out.expr->Call_1 == e->Call_1
            &&& out.renames.contains(r) <==> exists|p: int|
                0 <= p < mask.len() && #[trigger] mask[p] && (out.expr->Call_2[place(mask, p)
                    + 1] matches ExprView::Var(_, w) && w == r)
            &&& forall|p: int|
                0 <= p < mask.len() && #[trigger] mask[p] ==> out.expr->Call_2[place(mask, p)
                    + 1] is Var
        }),
{
    let (span, head, args) = (e->Call_0, e->Call_1, e->Call_2);
    let mask = cx.ctors[head];
    let n = args.len();
    assert(edge_mask(cx.ctors, head, n) == mask);
    let b = body_args(cx, span, args, mask, None, next, n);
    let out = body_expr(cx, e, None, next);
    each_arity_fits(cx.ctors, args, n);
    body_args_only_add_edges(cx, span, args, mask, None, next, n);
    body_args_lengths(cx, span, args, mask, None, next, n);
    interleaved_places(b.children, b.edges, mask, n);
    renames_are_the_edges(cx, span, args, mask, None, next, n);
    let whole = interleave(b.children, b.edges, n);
    assert forall|p: int| 0 <= p < n && #[trigger] mask[p] implies whole[place(mask, p) + 1]
        == b.edges[p]->0 by {
        assert(place(mask, p) + 1 < place(mask, n as int));
    }
    if out.renames.contains(r) {
        let j = out.renames.index_of(r);
        let p = set_position(mask, n, j);
        assert(mask[p]);
    }
    if exists|p: int|
        0 <= p < mask.len() && #[trigger] mask[p] && (out.expr->Call_2[place(mask, p)
            + 1] matches ExprView::Var(_, w) && w == r) {
        let p = choose|p: int|
            0 <= p < mask.len() && #[trigger] mask[p] && (out.expr->Call_2[place(mask, p)
                + 1] matches ExprView::Var(_, w) && w == r);
        assert(b.renames[set_before(mask, p as nat) as int] == r);
    }
}

/// Whether one of the edges of the call that a fact equates a variable with is the
/// variable `r`.
spec fn has_edge_named(
    ctors: Map<Seq<char>, Seq<bool>>,
    f: FactView,
    v: Seq<char>,
    r: Seq<char>,
) -> bool {
    exists|p: int| #[trigger]
        has_edge_at(ctors, f, v, p) && (edge_at(ctors, f, v, p) matches ExprView::Var(_, w) && w
            == r)
}

/// What a fact records of a variable are the edges of the call that it equates the
/// variable with.
proof fn recorded_are_the_edges_of_a_fact(
    cx: BodyContext,
    f: FactView,
    next: nat,
    v: Seq<char>,
    r: Seq<char>,
)
    requires
        fact_arities_fit(cx.ctors, f),
    ensures
        body_fact(cx, f, next).heads.contains((v, r)) <==> has_edge_named(
            cx.ctors,
            body_fact(cx, f, next).facts[0],
            v,
            r,
        ),
        forall|p: int| #[trigger]
            has_edge_at(cx.ctors, body_fact(cx, f, next).facts[0], v, p) ==> edge_at(
                cx.ctors,
                body_fact(cx, f, next).facts[0],
                v,
                p,
            ) is Var,
{
    let out = body_fact(cx, f, next);
    let o = out.facts[0];
    if let FactView::Eq(span, lhs, rhs) = f {
        let l = body_expr(cx, lhs, None, next);
        let rr = body_expr(cx, rhs, None, l.next);
        let left = head_renames(head_variable(cx.ctors, rhs, lhs), l.renames);
        let right = head_renames(head_variable(cx.ctors, lhs, rhs), rr.renames);
        assert(out.heads == left + right);
        let ctors = cx.ctors;
        if rhs is Var && lhs is Call && ctors.contains_key(lhs->Call_1) {
            renames_of_a_call(cx, lhs, next, r);
            assert(right =~= Seq::empty());
            assert(out.heads =~= left);
            named_renames(rhs->Var_1, l.renames, v, r);
            same_edges(ctors, o, v, r, l.expr, rhs->Var_1);
        } else if lhs is Var && rhs is Call && ctors.contains_key(rhs->Call_1) {
            renames_of_a_call(cx, rhs, l.next, r);
            assert(left =~= Seq::empty());
            assert(out.heads =~= right);
            named_renames(lhs->Var_1, rr.renames, v, r);
            same_edges(ctors, o, v, r, rr.expr, lhs->Var_1);
        } else {
            assert(left =~= Seq::empty() && right =~= Seq::empty());
            assert(out.heads =~= Seq::empty());
            assert forall|p: int| !#[trigger] has_edge_at(ctors, o, v, p) by {
                assert(l.expr is Var <==> lhs is Var);
                assert(rr.expr is Var <==> rhs is Var);
            }
        }
    } else {
        assert forall|p: int| !#[trigger] has_edge_at(cx.ctors, o, v, p) by {}
    }
}

/// The renames that are recorded for the variable of a call.
proof fn named_renames(w: Seq<char>, renames: Seq<Seq<char>>, v: Seq<char>, r: Seq<char>)
    ensures
        head_renames(Some(w), renames).contains((v, r)) <==> w == v && renames.contains(r),
{
    let all = head_renames(Some(w), renames);
    if all.contains((v, r)) {
        let j = all.index_of((v, r));
        assert(all[j] == (w, renames[j]));
    }
    if w == v && renames.contains(r) {
        let j = renames.index_of(r);
        assert(all[j] == (v, r));
    }
}

/// The edges of the call that a fact equates a variable with.
proof fn same_edges(
    ctors: Map<Seq<char>, Seq<bool>>,
    o: FactView,
    v: Seq<char>,
    r: Seq<char>,
    call: ExprView,
    w: Seq<char>,
)
    requires
        call is Call,
        ctors.contains_key(call->Call_1),
        equated_with(o, w) == Some(call),
        o is Eq,
        (o->Eq_1 is Var && o->Eq_1->Var_1 == w && o->Eq_2 == call) || (o->Eq_2 is Var
            && o->Eq_2->Var_1 == w && o->Eq_1 == call),
        forall|p: int|
            0 <= p < ctors[call->Call_1].len() && #[trigger] ctors[call->Call_1][p]
                ==> call->Call_2[place(ctors[call->Call_1], p) + 1] is Var,
    ensures
        has_edge_named(ctors, o, v, r) <==> w == v && exists|p: int|
            0 <= p < ctors[call->Call_1].len() && #[trigger] ctors[call->Call_1][p] && (
            call->Call_2[place(ctors[call->Call_1], p) + 1] matches ExprView::Var(_, x) && x == r),
        forall|p: int| #[trigger] has_edge_at(ctors, o, v, p) ==> edge_at(ctors, o, v, p) is Var,
{
    let mask = ctors[call->Call_1];
    assert(v != w ==> equated_with(o, v) is None);
    if has_edge_named(ctors, o, v, r) {
        let p = choose|p: int| #[trigger]
            has_edge_at(ctors, o, v, p) && (edge_at(ctors, o, v, p) matches ExprView::Var(_, x)
                && x == r);
        assert(mask[p]);
    }
    if w == v {
        if exists|p: int|
            0 <= p < mask.len() && #[trigger] mask[p] && (call->Call_2[place(mask, p)
                + 1] matches ExprView::Var(_, x) && x == r) {
            let p = choose|p: int|
                0 <= p < mask.len() && #[trigger] mask[p] && (call->Call_2[place(mask, p)
                    + 1] matches ExprView::Var(_, x) && x == r);
            assert(has_edge_at(ctors, o, v, p));
        }
    }
    assert forall|p: int| #[trigger] has_edge_at(ctors, o, v, p) implies edge_at(
        ctors,
        o,
        v,
        p,
    ) is Var by {
        assert(mask[p]);
    }
}

/// What the first `n` facts record of a variable are the edges of the calls that
/// they equate it with.
proof fn recorded_are_the_edges(
    cx: BodyContext,
    fs: Seq<FactView>,
    next: nat,
    n: nat,
    v: Seq<char>,
    r: Seq<char>,
)
    requires
        n <= fs.len(),
        forall|i: int| 0 <= i < fs.len() ==> fact_arities_fit(cx.ctors, #[trigger] fs[i]),
    ensures
        ({
            let out = body_facts(cx, fs, next, n);
            &&& out.facts.len() == n
            &&& out.heads.contains((v, r)) <==> exists|i: int|
                0 <= i < n && has_edge_named(cx.ctors, #[trigger] out.facts[i], v, r)
            &&& forall|i: int, p: int|
                0 <= i < n && #[trigger] has_edge_at(cx.ctors, out.facts[i], v, p) ==> edge_at(
                    cx.ctors,
                    out.facts[i],
                    v,
                    p,
                ) is Var
        }),
    decreases n,
{
    if n > 0 {
        let k = (n - 1) as nat;
        recorded_are_the_edges(cx, fs, next, k, v, r);
        let front = body_facts(cx, fs, next, k);
        let last = body_fact(cx, fs[n - 1], front.next);
        let out = body_facts(cx, fs, next, n);
        assert(fact_arities_fit(cx.ctors, fs[n - 1]));
        recorded_are_the_edges_of_a_fact(cx, fs[n - 1], front.next, v, r);
        assert(out.facts[n - 1] == last.facts[0]);
        assert forall|i: int| 0 <= i < k implies out.facts[i] == #[trigger] front.facts[i] by {}
        if out.heads.contains((v, r)) {
            let j = out.heads.index_of((v, r));
            if j < front.heads.len() {
                assert(front.heads[j] == (v, r));
                let i = choose|i: int|
                    0 <= i < k && has_edge_named(cx.ctors, #[trigger] front.facts[i], v, r);
                assert(has_edge_named(cx.ctors, out.facts[i], v, r));
            } else {
                assert(last.heads[j - front.heads.len()] == (v, r));
                assert(has_edge_named(cx.ctors, out.facts[n - 1], v, r));
            }
        }
        if exists|i: int|
            0 <= i < n && has_edge_named(cx.ctors, #[trigger] out.facts[i], v, r) {
            let i = choose|i: int|
                0 <= i < n && has_edge_named(cx.ctors, #[trigger] out.facts[i], v, r);
            if i < k {
                assert(has_edge_named(cx.ctors, front.facts[i], v, r));
                let j = front.heads.index_of((v, r));
                assert(out.heads[j] == (v, r));
            } else {
                let j = last.heads.index_of((v, r));
                assert(out.heads[front.heads.len() + j] == (v, r));
            }
        }
        assert forall|i: int, p: int|
            0 <= i < n && #[trigger] has_edge_at(cx.ctors, out.facts[i], v, p) implies edge_at(
            cx.ctors,
            out.facts[i],
            v,
            p,
        ) is Var by {
            if i < k {
                assert(out.facts[i] == front.facts[i]);
            }
        }
    }
}

// ---------------------------------------------------------------------------
// Variables in the head
// ---------------------------------------------------------------------------
/// The calls that a variable is equated with depend on the first `n` facts alone.
proof fn equated_values_prefix(
    rd: Reading,
    ctors: Map<Seq<char>, Seq<bool>>,
    fs: Seq<FactView>,
    more: Seq<FactView>,
    n: nat,
    v: Seq<char>,
)
    requires
        forall|i: int| 0 <= i < n ==> #[trigger] fs[i] == more[i],
    ensures
        values_of_equated_calls(rd, ctors, fs, n, v) == values_of_equated_calls(
            rd,
            ctors,
            more,
            n,
            v,
        ),
{
    let a = values_of_equated_calls(rd, ctors, fs, n, v);
    let b = values_of_equated_calls(rd, ctors, more, n, v);
    assert forall|x: Value| a.contains(x) == b.contains(x) by {
        if a.contains(x) {
            let (i, p) = choose|i: int, p: int|
                0 <= i < n && #[trigger] has_edge_at(ctors, fs[i], v, p) && renaming_of(
                    rd,
                    edge_at(ctors, fs[i], v, p),
                )->0.contains_value(x);
            assert(has_edge_at(ctors, more[i], v, p));
        }
        if b.contains(x) {
            let (i, p) = choose|i: int, p: int|
                0 <= i < n && #[trigger] has_edge_at(ctors, more[i], v, p) && renaming_of(
                    rd,
                    edge_at(ctors, more[i], v, p),
                )->0.contains_value(x);
            assert(fs[i] == more[i]);
            assert(has_edge_at(ctors, fs[i], v, p));
        }
    }
    assert(a =~= b);
}

/// The rename that a rule head gives a variable stands for the view that the
/// rewritten body has of it.
proof fn scope_shows_the_body(
    rd: Reading,
    cx: BodyContext,
    span: Span,
    fs: Seq<FactView>,
    next: nat,
    v: Seq<char>,
)
    requires
        forall|i: int| 0 <= i < fs.len() ==> fact_arities_fit(cx.ctors, #[trigger] fs[i]),
    ensures
        ({
            let body = body_facts(cx, fs, next, fs.len());
            let scope = RuleScope { span, uses: body.uses, heads: body.heads };
            stands_for(
                rd,
                scope_rename(scope, v),
                body_view(rd, cx.ctors, body.facts, fs.len(), v),
            )
        }),
{
    let n = fs.len();
    let ctors = cx.ctors;
    let body = body_facts(cx, fs, next, n);
    let scope = RuleScope { span, uses: body.uses, heads: body.heads };
    facts_recorded_at_edges(cx, fs, next, n);
    fact_paths_read(rd, cx, fs, next, n);
    paired_are_the_entries_of_the_name(body.uses, v);
    let uses = body.uses.filter(of_name(v));
    let paths = paths_of(body.uses, v);
    assert(paths == uses.map_values(|u: (Seq<char>, ExprView)| u.1));
    if paths.len() > 0 {
        assert(paths[0] == uses[0].1);
        assert(paths.contains(paths[0]));
        paired_contains(body.uses, v, body.uses.len(), paths[0]);
        let i = choose|i: int|
            0 <= i < body.uses.len() && #[trigger] body.uses[i] == (v, paths[0]);
        assert(renaming_of(rd, body.uses[i].1) is Some);
    } else {
        let renames = paired_with(scope.heads, v, scope.heads.len());
        let edges = vars(span, renames);
        let ms = Seq::new(edges.len(), |j: int| (rd.bound)(renames[j]));
        let values = values_of_equated_calls(rd, ctors, body.facts, n, v);
        if edges.len() > 0 {
            synthesized_identity_is_identity(rd, span, edges, ms);
        }
        assert forall|x: Value| all_values(ms, ms.len()).contains(x) == values.contains(x) by {
            if all_values(ms, ms.len()).contains(x) {
                let j = choose|j: int| 0 <= j < ms.len() && (#[trigger] ms[j]).contains_value(x);
                let r = renames[j];
                assert(renames.contains(r));
                paired_contains(scope.heads, v, scope.heads.len(), r);
                let h = choose|h: int|
                    0 <= h < scope.heads.len() && #[trigger] scope.heads[h] == (v, r);
                assert(body.heads.contains((v, r)));
                recorded_are_the_edges(cx, fs, next, n, v, r);
                let i = choose|i: int|
                    0 <= i < n && has_edge_named(ctors, #[trigger] body.facts[i], v, r);
                let q = choose|q: int| #[trigger]
                    has_edge_at(ctors, body.facts[i], v, q) && (edge_at(
                        ctors,
                        body.facts[i],
                        v,
                        q,
                    ) matches ExprView::Var(_, w) && w == r);
                assert(has_edge_at(ctors, body.facts[i], v, q));
            }
            if values.contains(x) {
                let (i, q) = choose|i: int, q: int|
                    0 <= i < n && #[trigger] has_edge_at(ctors, body.facts[i], v, q)
                        && renaming_of(rd, edge_at(ctors, body.facts[i], v, q))->0.contains_value(
                        x,
                    );
                let edge = edge_at(ctors, body.facts[i], v, q);
                let r = edge->Var_1;
                recorded_are_the_edges(cx, fs, next, n, v, r);
                assert(edge is Var);
                assert(has_edge_named(ctors, body.facts[i], v, r));
                assert(body.heads.contains((v, r)));
                let h = body.heads.index_of((v, r));
                assert(scope.heads[h] == (v, r));
                paired_contains(scope.heads, v, scope.heads.len(), r);
                let j = renames.index_of(r);
                assert(ms[j].contains_value(x));
            }
        }
        assert(all_values(ms, ms.len()) =~= values);
        if edges.len() == 0 {
            assert(values =~= Set::empty());
            assert(identity_on(values) =~= Map::<Value, Value>::empty());
        }
    }
}

/// Whether an encoded action is the user's action with edges that stand for the
/// views of their children.
pub open spec fn action_shows_views(rd: Reading, k: Known, a: ActionView, out: ActionView) -> bool {
    match a {
        ActionView::Let(span, v, e) => out matches ActionView::Let(span2, v2, o) && span2 == span
            && v2 == v && shows_views(rd, k, e, o),
        ActionView::Assign(span, head, args, val) => out matches ActionView::Assign(
            span2,
            head2,
            outs,
            o,
        ) && span2 == span && head2 == head && outs.len() == args.len() && (forall|i: int|
            0 <= i < args.len() ==> shows_views(rd, k, args[i], #[trigger] outs[i]))
            && shows_views(rd, k, val, o),
        ActionView::Change(span, change, head, args) => out matches ActionView::Change(
            span2,
            change2,
            head2,
            outs,
        ) && span2 == span && change2 == change && head2 == head && shows_views(
            rd,
            k,
            ExprView::Call(span, head, args),
            ExprView::Call(span, head, outs),
        ),
        ActionView::Union(span, lhs, rhs) => out matches ActionView::Union(span2, l, r) && span2
            == span && shows_views(rd, k, lhs, l) && shows_views(rd, k, rhs, r),
        ActionView::Panic(_, _) => out == a,
        ActionView::Expr(span, e) => out matches ActionView::Expr(span2, o) && span2 == span
            && shows_views(rd, k, e, o),
    }
}

/// An action of a rule head gets the edges that stand for the views of their
/// children, given the views of the rule's variables.
proof fn head_action_shows_views(
    rd: Reading,
    st: SlottedStateView,
    scope: RuleScope,
    vars: spec_fn(Seq<char>) -> Renaming,
    a: ActionView,
)
    requires
        leaves_fit(st),
        action_arities_fit(st.rewritten_ctors, a),
        forall|v: Seq<char>| stands_for(rd, #[trigger] scope_rename(scope, v), vars(v)),
    ensures
        action_shows_views(rd, known_in_head(st, vars), a, head_action(st, scope, a)),
{
    let k = known_in_head(st, vars);
    match a {
        ActionView::Let(_, _, e) => {
            edges_in_heads_show_the_views(rd, st, scope, vars, e);
        },
        ActionView::Assign(_, _, args, val) => {
            let outs = head_exprs(st, scope, args);
            each_arity_fits(st.rewritten_ctors, args, args.len());
            assert forall|i: int| 0 <= i < args.len() implies shows_views(
                rd,
                k,
                args[i],
                #[trigger] outs[i],
            ) by {
                assert(arities_fit(st.rewritten_ctors, args[i]));
                edges_in_heads_show_the_views(rd, st, scope, vars, args[i]);
                assert(action_results(st, scope, args)[i] == action_expr(st, scope, args[i]));
            }
            edges_in_heads_show_the_views(rd, st, scope, vars, val);
        },
        ActionView::Change(span, _, head, args) => {
            let call = ExprView::Call(span, head, args);
            edges_in_heads_show_the_views(rd, st, scope, vars, call);
            assert(action_expr(st, scope, call).0 == ExprView::Call(
                span,
                head,
                head_args(st, scope, span, head, args),
            ));
        },
        ActionView::Union(_, lhs, rhs) => {
            edges_in_heads_show_the_views(rd, st, scope, vars, lhs);
            edges_in_heads_show_the_views(rd, st, scope, vars, rhs);
        },
        ActionView::Panic(_, _) => {},
        ActionView::Expr(_, e) => {
            edges_in_heads_show_the_views(rd, st, scope, vars, e);
        },
    }
}

/// The head of a rewritten rule is the user's head with an edge behind each
/// slotted child. Each edge stands for the view that the rewritten body has of the
/// child: a variable is seen by the first path that leads to it, and one that
/// stands at no edge by the identity over all values of the edges of the calls
/// that it is equated with, on whichever side; a new term by the identity over
/// what its children are seen by.
pub proof fn rule_heads_show_the_views_of_the_body(
    rd: Reading,
    st: SlottedStateView,
    reserved: Seq<char>,
    next: nat,
    rule: RuleView,
    j: int,
)
    requires
        leaves_fit(st),
        forall|i: int|
            0 <= i < rule.body.len() ==> fact_arities_fit(
                st.rewritten_ctors,
                #[trigger] rule.body[i],
            ),
        0 <= j < rule.head.len(),
        action_arities_fit(st.rewritten_ctors, rule.head[j]),
    ensures
        ({
            let out = user_rule(st, reserved, next, rule).0;
            let seen = |v: Seq<char>|
                body_view(rd, st.rewritten_ctors, out.body, rule.body.len(), v);
            &&& out.head.len() == rule.head.len()
            &&& action_shows_views(rd, known_in_head(st, seen), rule.head[j], out.head[j])
        }),
{
    let cx = BodyContext { ctors: st.rewritten_ctors, reserved };
    let n = rule.body.len();
    let body = body_facts(cx, rule.body, next, n);
    let scope = RuleScope { span: rule.span, uses: body.uses, heads: body.heads };
    let out = user_rule(st, reserved, next, rule).0;
    let seen = |v: Seq<char>| body_view(rd, st.rewritten_ctors, out.body, n, v);
    facts_recorded_at_edges(cx, rule.body, next, n);
    body_slotted_uses_prefix(cx.ctors, body.facts, out.body, n);
    assert forall|v: Seq<char>| stands_for(rd, #[trigger] scope_rename(scope, v), seen(v)) by {
        scope_shows_the_body(rd, cx, rule.span, rule.body, next, v);
        equated_values_prefix(rd, cx.ctors, body.facts, out.body, n, v);
    }
    head_action_shows_views(rd, st, scope, seen, rule.head[j]);
}

/// It does not matter for the head of a rule on which side of an equation a
/// variable stands that is equated with a call.
pub proof fn sides_of_an_equation_do_not_matter(
    st: SlottedStateView,
    reserved: Seq<char>,
    next: nat,
    rule: RuleView,
    swapped: RuleView,
    i: int,
)
    requires
        0 <= i < rule.body.len(),
        rule.body[i] is Eq,
        rule.body[i]->Eq_1 is Var,
        swapped == (RuleView {
            body: rule.body.update(
                i,
                FactView::Eq(rule.body[i]->Eq_0, rule.body[i]->Eq_2, rule.body[i]->Eq_1),
            ),
            ..rule
        }),
        rule.body[i]->Eq_2 is Call,
    ensures
        user_rule(st, reserved, next, rule).0.head == user_rule(
            st,
            reserved,
            next,
            swapped,
        ).0.head,
        user_rule(st, reserved, next, rule).1 == user_rule(st, reserved, next, swapped).1,
{
    let cx = BodyContext { ctors: st.rewritten_ctors, reserved };
    swapped_facts_record_the_same(cx, rule.body, swapped.body, next, i, rule.body.len());
}

/// The facts record the same with an equation turned round.
proof fn swapped_facts_record_the_same(
    cx: BodyContext,
    fs: Seq<FactView>,
    gs: Seq<FactView>,
    next: nat,
    i: int,
    n: nat,
)
    requires
        0 <= i < fs.len(),
        n <= fs.len(),
        fs[i] is Eq,
        fs[i]->Eq_1 is Var,
        fs[i]->Eq_2 is Call,
        gs == fs.update(i, FactView::Eq(fs[i]->Eq_0, fs[i]->Eq_2, fs[i]->Eq_1)),
    ensures
        body_facts(cx, fs, next, n).uses == body_facts(cx, gs, next, n).uses,
        body_facts(cx, fs, next, n).heads == body_facts(cx, gs, next, n).heads,
        body_facts(cx, fs, next, n).next == body_facts(cx, gs, next, n).next,
    decreases n,
{
    if n > 0 {
        swapped_facts_record_the_same(cx, fs, gs, next, i, (n - 1) as nat);
        let at = body_facts(cx, fs, next, (n - 1) as nat).next;
        if n - 1 == i {
            let a = body_fact(cx, fs[i], at);
            let b = body_fact(cx, gs[i], at);
            assert(a.uses =~= b.uses);
            assert(a.heads =~= b.heads);
        }
    }
}

} // verus!
