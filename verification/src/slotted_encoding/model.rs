//! What the slotted encoding makes of a program, as mathematical functions.

use vstd::prelude::*;

use crate::ast::{
    ActionView, CommandView, ExprView, FactView, LiteralView, RuleView, RunConfigView, ScheduleView,
    Span,
};
use crate::names::fresh_name;

verus! {

/// What the encoding knows of the program so far.
#[verifier::ext_equal]
pub struct SlottedStateView {
    /// The sorts whose values carry slots.
    pub u_sorts: Set<Seq<char>>,
    /// For each constructor of such a sort, which arguments are of such a sort.
    pub rewritten_ctors: Map<Seq<char>, Seq<bool>>,
    /// The constructors that make a leaf out of one slot number.
    pub leaf_ctors: Set<Seq<char>>,
    /// The outer slots of each named term.
    pub let_outer_slots: Map<Seq<char>, Seq<i64>>,
    /// Whether the sort of renamings has been declared.
    pub renaming_sort_emitted: bool,
}

/// The state before any command.
pub open spec fn initial_state() -> SlottedStateView {
    SlottedStateView {
        u_sorts: Set::empty(),
        rewritten_ctors: Map::empty(),
        leaf_ctors: Set::empty(),
        let_outer_slots: Map::empty(),
        renaming_sort_emitted: false,
    }
}

/// The hint of every fresh edge rename.
pub open spec fn rename_hint() -> Seq<char> {
    "r_slotted"@
}

/// The smaller of two lengths.
pub open spec fn shorter(a: nat, b: nat) -> nat {
    if a <= b {
        a
    } else {
        b
    }
}

// ---------------------------------------------------------------------------
// Renaming expressions
// ---------------------------------------------------------------------------
/// `(map-empty)`.
pub open spec fn empty_rename(span: Span) -> ExprView {
    ExprView::Call(span, "map-empty"@, Seq::empty())
}

/// The integer literal `k`.
pub open spec fn int_lit(span: Span, k: i64) -> ExprView {
    ExprView::Lit(span, LiteralView::Int(k))
}

/// `(map-insert m k k)`.
pub open spec fn insert_identity(span: Span, m: ExprView, k: i64) -> ExprView {
    ExprView::Call(span, "map-insert"@, seq![m, int_lit(span, k), int_lit(span, k)])
}

/// The identity at the first `n` of the given slots, as nested `map-insert`s.
pub open spec fn identity_rename(span: Span, slots: Seq<i64>, n: nat) -> ExprView
    decreases n,
{
    if n == 0 {
        empty_rename(span)
    } else {
        insert_identity(span, identity_rename(span, slots, (n - 1) as nat), slots[n - 1])
    }
}

/// `(compose a b)`.
pub open spec fn compose_call(span: Span, a: ExprView, b: ExprView) -> ExprView {
    ExprView::Call(span, "compose"@, seq![a, b])
}

/// `(inverse a)`.
pub open spec fn inverse_call(span: Span, a: ExprView) -> ExprView {
    ExprView::Call(span, "inverse"@, seq![a])
}

/// `(map-union a b)`.
pub open spec fn union_call(span: Span, a: ExprView, b: ExprView) -> ExprView {
    ExprView::Call(span, "map-union"@, seq![a, b])
}

/// The path to a child: the edge to it, behind the path to its parent.
pub open spec fn path_through(span: Span, outer: Option<ExprView>, inner: ExprView) -> ExprView {
    match outer {
        None => inner,
        Some(o) => compose_call(span, o, inner),
    }
}

/// `(compose e (inverse e))`: the identity over the values of `e`.
pub open spec fn values_identity(span: Span, e: ExprView) -> ExprView {
    compose_call(span, e, inverse_call(span, e))
}

/// The union of the identities over the values of the first `n` edges.
pub open spec fn union_of_identities(span: Span, edges: Seq<ExprView>, n: nat) -> ExprView
    decreases n,
{
    if n <= 1 {
        values_identity(span, edges[0])
    } else {
        union_call(
            span,
            union_of_identities(span, edges, (n - 1) as nat),
            values_identity(span, edges[n - 1]),
        )
    }
}

/// The identity over all values of the given edges; none without edges.
pub open spec fn identity_over(span: Span, edges: Seq<ExprView>) -> Option<ExprView> {
    if edges.len() == 0 {
        None
    } else {
        Some(union_of_identities(span, edges, edges.len()))
    }
}

/// The variables of the given names.
pub open spec fn vars(span: Span, names: Seq<Seq<char>>) -> Seq<ExprView> {
    names.map_values(|n: Seq<char>| ExprView::Var(span, n))
}

// ---------------------------------------------------------------------------
// Edges
// ---------------------------------------------------------------------------
/// The first `n` children, each followed by its edge where it has one.
pub open spec fn interleave(
    children: Seq<ExprView>,
    edges: Seq<Option<ExprView>>,
    n: nat,
) -> Seq<ExprView>
    decreases n,
{
    if n == 0 {
        Seq::empty()
    } else {
        let front = interleave(children, edges, (n - 1) as nat).push(children[n - 1]);
        match edges[n - 1] {
            Some(edge) => front.push(edge),
            None => front,
        }
    }
}

/// The slot of a leaf whose only argument is an integer literal.
pub open spec fn leaf_slot(
    leaf_ctors: Set<Seq<char>>,
    head: Seq<char>,
    args: Seq<ExprView>,
) -> Option<i64> {
    if leaf_ctors.contains(head) && args.len() > 0 {
        match args[0] {
            ExprView::Lit(_, LiteralView::Int(n)) => Some(n),
            _ => None,
        }
    } else {
        None
    }
}

// ---------------------------------------------------------------------------
// Expressions outside rules
// ---------------------------------------------------------------------------
/// The first `n` of `more` that are not there yet, behind `slots`.
pub open spec fn add_slots(slots: Seq<i64>, more: Seq<i64>, n: nat) -> Seq<i64>
    decreases n,
{
    if n == 0 {
        slots
    } else {
        let front = add_slots(slots, more, (n - 1) as nat);
        if front.contains(more[n - 1]) {
            front
        } else {
            front.push(more[n - 1])
        }
    }
}

/// The distinct slots of the first `n` children that carry slots, in the order
/// in which they are met.
pub open spec fn outer_slots(
    results: Seq<(ExprView, Seq<i64>)>,
    mask: Seq<bool>,
    n: nat,
) -> Seq<i64>
    decreases n,
{
    if n == 0 {
        Seq::empty()
    } else {
        let front = outer_slots(results, mask, (n - 1) as nat);
        if mask[n - 1] {
            add_slots(front, results[n - 1].1, results[n - 1].1.len())
        } else {
            front
        }
    }
}

/// The edges of a term outside a rule: the identity at each child's slots.
pub open spec fn slot_edges(
    span: Span,
    results: Seq<(ExprView, Seq<i64>)>,
    mask: Seq<bool>,
) -> Seq<Option<ExprView>> {
    Seq::new(
        shorter(results.len(), mask.len()),
        |i: int|
            if mask[i] {
                Some(identity_rename(span, results[i].1, results[i].1.len()))
            } else {
                None
            },
    )
}

/// The first components of a sequence of pairs.
pub open spec fn firsts<T>(results: Seq<(ExprView, T)>) -> Seq<ExprView> {
    results.map_values(|r: (ExprView, T)| r.0)
}

/// The call of a rewritten constructor outside a rule, and its outer slots,
/// given those of its arguments.
pub open spec fn compound_with_slots(
    span: Span,
    head: Seq<char>,
    results: Seq<(ExprView, Seq<i64>)>,
    mask: Seq<bool>,
) -> (ExprView, Seq<i64>) {
    let n = shorter(results.len(), mask.len());
    (
        ExprView::Call(
            span,
            head,
            interleave(firsts(results), slot_edges(span, results, mask), n),
        ),
        outer_slots(results, mask, n),
    )
}

/// An expression outside a rule with its edges, and its outer slots.
pub open spec fn expr_with_slots(st: SlottedStateView, e: ExprView) -> (ExprView, Seq<i64>)
    decreases e,
{
    match e {
        ExprView::Call(span, head, args) => {
            let results = exprs_with_slots(st, args);
            match leaf_slot(st.leaf_ctors, head, args) {
                Some(n) => (e, seq![n]),
                None => if args.len() == 0 && st.let_outer_slots.contains_key(head) {
                    (e, st.let_outer_slots[head])
                } else if st.rewritten_ctors.contains_key(head) {
                    compound_with_slots(span, head, results, st.rewritten_ctors[head])
                } else {
                    (ExprView::Call(span, head, firsts(results)), Seq::empty())
                },
            }
        },
        _ => (e, Seq::empty()),
    }
}

/// The results of [`expr_with_slots`] on a list.
pub open spec fn exprs_with_slots(st: SlottedStateView, args: Seq<ExprView>) -> Seq<
    (ExprView, Seq<i64>),
>
    decreases args,
{
    Seq::new(
        args.len(),
        |i: int|
            if 0 <= i < args.len() {
                expr_with_slots(st, args[i])
            } else {
                arbitrary()
            },
    )
}

/// An expression outside a rule with its edges.
pub open spec fn top_expr(st: SlottedStateView, e: ExprView) -> ExprView {
    expr_with_slots(st, e).0
}

/// The results of [`top_expr`] on a list.
pub open spec fn top_exprs(st: SlottedStateView, es: Seq<ExprView>) -> Seq<ExprView> {
    firsts(exprs_with_slots(st, es))
}

/// A fact outside a rule with its edges.
pub open spec fn top_fact(st: SlottedStateView, f: FactView) -> FactView {
    match f {
        FactView::Eq(span, lhs, rhs) => FactView::Eq(span, top_expr(st, lhs), top_expr(st, rhs)),
        FactView::Fact(e) => FactView::Fact(top_expr(st, e)),
    }
}

/// The facts of a check with their edges.
pub open spec fn top_facts(st: SlottedStateView, fs: Seq<FactView>) -> Seq<FactView> {
    fs.map_values(|f: FactView| top_fact(st, f))
}

/// The state after a name has been given to a term with the given outer slots.
pub open spec fn name_slots(
    st: SlottedStateView,
    name: Seq<char>,
    slots: Seq<i64>,
) -> SlottedStateView {
    if slots.len() == 0 {
        st
    } else {
        SlottedStateView { let_outer_slots: st.let_outer_slots.insert(name, slots), ..st }
    }
}

/// The arguments of a call outside a rule with their edges.
pub open spec fn top_args(
    st: SlottedStateView,
    span: Span,
    head: Seq<char>,
    args: Seq<ExprView>,
) -> Seq<ExprView> {
    top_expr(st, ExprView::Call(span, head, args))->Call_2
}

/// An action outside a rule with its edges, and the state after it. The row that
/// is deleted or subsumed gets the edges of the call that it stands for.
pub open spec fn top_action(st: SlottedStateView, a: ActionView) -> (
    ActionView,
    SlottedStateView,
) {
    match a {
        ActionView::Union(span, lhs, rhs) => (
            ActionView::Union(span, top_expr(st, lhs), top_expr(st, rhs)),
            st,
        ),
        ActionView::Let(span, v, e) => {
            let (rewritten, slots) = expr_with_slots(st, e);
            (ActionView::Let(span, v, rewritten), name_slots(st, v, slots))
        },
        ActionView::Assign(span, head, args, val) => {
            let (rewritten, slots) = expr_with_slots(st, val);
            let after = if args.len() == 0 {
                name_slots(st, head, slots)
            } else {
                st
            };
            (ActionView::Assign(span, head, top_exprs(st, args), rewritten), after)
        },
        ActionView::Change(span, change, head, args) => (
            ActionView::Change(span, change, head, top_args(st, span, head, args)),
            st,
        ),
        ActionView::Expr(span, e) => (ActionView::Expr(span, top_expr(st, e)), st),
        ActionView::Panic(span, msg) => (a, st),
    }
}

// ---------------------------------------------------------------------------
// Rule bodies
// ---------------------------------------------------------------------------
/// The constructors whose calls get edges, and the prefix of fresh names.
pub struct BodyContext {
    pub ctors: Map<Seq<char>, Seq<bool>>,
    pub reserved: Seq<char>,
}

/// The name of the edge rename that is made when the running number is `n`.
pub open spec fn rename_name(cx: BodyContext, n: nat) -> Seq<char> {
    fresh_name(cx.reserved, rename_hint(), n)
}

/// A rewritten body expression.
pub struct BodyExpr {
    pub expr: ExprView,
    /// The variables met at positions with an edge, each with the path by which
    /// it was reached.
    pub uses: Seq<(Seq<char>, ExprView)>,
    /// The edge renames of the outermost call.
    pub renames: Seq<Seq<char>>,
    /// The running number of fresh names afterwards.
    pub next: nat,
}

/// The rewritten arguments of a call in a body.
pub struct BodyArgs {
    pub children: Seq<ExprView>,
    pub edges: Seq<Option<ExprView>>,
    pub uses: Seq<(Seq<char>, ExprView)>,
    pub renames: Seq<Seq<char>>,
    pub next: nat,
}

/// Which of `len` arguments of `head` get an edge.
pub open spec fn edge_mask(
    ctors: Map<Seq<char>, Seq<bool>>,
    head: Seq<char>,
    len: nat,
) -> Seq<bool> {
    if ctors.contains_key(head) {
        ctors[head]
    } else {
        Seq::new(len, |i: int| false)
    }
}

/// The path that a child without an edge is reached by: that of its call, which
/// the slotted children below it go on from. A variable that is such a child has
/// no slots to view, so there is no path to it.
pub open spec fn path_without_edge(child: ExprView, path: Option<ExprView>) -> Option<ExprView> {
    match child {
        ExprView::Var(_, _) => None,
        _ => path,
    }
}

/// A body expression with a fresh edge rename behind each child that carries
/// slots.
pub open spec fn body_expr(
    cx: BodyContext,
    e: ExprView,
    path: Option<ExprView>,
    next: nat,
) -> BodyExpr
    decreases e, 0nat,
{
    match e {
        ExprView::Var(span, v) => BodyExpr {
            expr: e,
            uses: match path {
                Some(p) => seq![(v, p)],
                None => Seq::empty(),
            },
            renames: Seq::empty(),
            next,
        },
        ExprView::Lit(span, lit) => BodyExpr {
            expr: e,
            uses: Seq::empty(),
            renames: Seq::empty(),
            next,
        },
        ExprView::Call(span, head, args) => {
            let mask = edge_mask(cx.ctors, head, args.len());
            let n = shorter(args.len(), mask.len());
            let r = body_args(cx, span, args, mask, path, next, n);
            BodyExpr {
                expr: ExprView::Call(span, head, interleave(r.children, r.edges, n)),
                uses: r.uses,
                renames: r.renames,
                next: r.next,
            }
        },
    }
}

/// The first `n` arguments of a call in a body, from left to right.
pub open spec fn body_args(
    cx: BodyContext,
    span: Span,
    args: Seq<ExprView>,
    mask: Seq<bool>,
    path: Option<ExprView>,
    next: nat,
    n: nat,
) -> BodyArgs
    decreases args, n,
{
    if n == 0 || n > args.len() {
        BodyArgs {
            children: Seq::empty(),
            edges: Seq::empty(),
            uses: Seq::empty(),
            renames: Seq::empty(),
            next,
        }
    } else {
        let front = body_args(cx, span, args, mask, path, next, (n - 1) as nat);
        if mask[n - 1] {
            let name = rename_name(cx, front.next);
            let edge = ExprView::Var(span, name);
            let child = body_expr(
                cx,
                args[n - 1],
                Some(path_through(span, path, edge)),
                front.next + 1,
            );
            BodyArgs {
                children: front.children.push(child.expr),
                edges: front.edges.push(Some(edge)),
                uses: front.uses + child.uses,
                renames: front.renames.push(name),
                next: child.next,
            }
        } else {
            let child = body_expr(
                cx,
                args[n - 1],
                path_without_edge(args[n - 1], path),
                front.next,
            );
            BodyArgs {
                children: front.children.push(child.expr),
                edges: front.edges.push(None),
                uses: front.uses + child.uses,
                renames: front.renames,
                next: child.next,
            }
        }
    }
}

/// Rewriting an expression never turns the running number back.
pub proof fn body_expr_next_grows(
    cx: BodyContext,
    e: ExprView,
    path: Option<ExprView>,
    next: nat,
)
    ensures
        body_expr(cx, e, path, next).next >= next,
    decreases e, 0nat,
{
    if let ExprView::Call(span, head, args) = e {
        let mask = edge_mask(cx.ctors, head, args.len());
        let n = shorter(args.len(), mask.len());
        body_args_next_grows(cx, span, args, mask, path, next, 0, n);
    }
}

/// Rewriting more arguments never turns the running number back.
pub proof fn body_args_next_grows(
    cx: BodyContext,
    span: Span,
    args: Seq<ExprView>,
    mask: Seq<bool>,
    path: Option<ExprView>,
    next: nat,
    m: nat,
    n: nat,
)
    requires
        m <= n <= args.len(),
    ensures
        next <= body_args(cx, span, args, mask, path, next, m).next,
        body_args(cx, span, args, mask, path, next, m).next <= body_args(
            cx,
            span,
            args,
            mask,
            path,
            next,
            n,
        ).next,
    decreases args, n,
{
    if n > 0 {
        let k = (n - 1) as nat;
        let front = body_args(cx, span, args, mask, path, next, k);
        if m < n {
            body_args_next_grows(cx, span, args, mask, path, next, m, k);
        } else {
            body_args_next_grows(cx, span, args, mask, path, next, k, k);
        }
        let edge = ExprView::Var(span, rename_name(cx, front.next));
        body_expr_next_grows(
            cx,
            args[n - 1],
            Some(path_through(span, path, edge)),
            front.next + 1,
        );
        body_expr_next_grows(
            cx,
            args[n - 1],
            path_without_edge(args[n - 1], path),
            front.next,
        );
    }
}

/// The lists of rewritten arguments are as long as the arguments.
pub proof fn body_args_lengths(
    cx: BodyContext,
    span: Span,
    args: Seq<ExprView>,
    mask: Seq<bool>,
    path: Option<ExprView>,
    next: nat,
    n: nat,
)
    requires
        n <= args.len(),
    ensures
        body_args(cx, span, args, mask, path, next, n).children.len() == n,
        body_args(cx, span, args, mask, path, next, n).edges.len() == n,
    decreases n,
{
    if n > 0 {
        body_args_lengths(cx, span, args, mask, path, next, (n - 1) as nat);
    }
}

/// Only the first `n` children and edges matter for the first `n` of
/// [`interleave`].
pub proof fn interleave_prefix(
    children: Seq<ExprView>,
    edges: Seq<Option<ExprView>>,
    more_children: Seq<ExprView>,
    more_edges: Seq<Option<ExprView>>,
    n: nat,
)
    requires
        forall|i: int| 0 <= i < n ==> children[i] == more_children[i],
        forall|i: int| 0 <= i < n ==> edges[i] == more_edges[i],
    ensures
        interleave(children, edges, n) == interleave(more_children, more_edges, n),
    decreases n,
{
    if n > 0 {
        interleave_prefix(children, edges, more_children, more_edges, (n - 1) as nat);
    }
}

/// A rewritten list of body facts.
#[verifier::ext_equal]
pub struct BodyFacts {
    pub facts: Seq<FactView>,
    /// The variables met at positions with an edge, each with its path.
    pub uses: Seq<(Seq<char>, ExprView)>,
    /// The variables matched as the head of a call, each with an edge rename of
    /// that call.
    pub heads: Seq<(Seq<char>, Seq<char>)>,
    pub next: nat,
}

/// The variable that an equation matches as the head of a rewritten call on
/// its right side.
pub open spec fn head_variable(
    ctors: Map<Seq<char>, Seq<bool>>,
    var: ExprView,
    call: ExprView,
) -> Option<Seq<char>> {
    match (var, call) {
        (ExprView::Var(_, v), ExprView::Call(_, head, _)) => if ctors.contains_key(head) {
            Some(v)
        } else {
            None
        },
        _ => None,
    }
}

/// The head variable with each edge rename of its call.
pub open spec fn head_renames(head: Option<Seq<char>>, renames: Seq<Seq<char>>) -> Seq<
    (Seq<char>, Seq<char>),
> {
    match head {
        Some(v) => renames.map_values(|r: Seq<char>| (v, r)),
        None => Seq::empty(),
    }
}

/// A body fact with its edges.
pub open spec fn body_fact(cx: BodyContext, f: FactView, next: nat) -> BodyFacts {
    match f {
        FactView::Eq(span, lhs, rhs) => {
            let l = body_expr(cx, lhs, None, next);
            let r = body_expr(cx, rhs, None, l.next);
            BodyFacts {
                facts: seq![FactView::Eq(span, l.expr, r.expr)],
                uses: l.uses + r.uses,
                heads: head_renames(head_variable(cx.ctors, rhs, lhs), l.renames) + head_renames(
                    head_variable(cx.ctors, lhs, rhs),
                    r.renames,
                ),
                next: r.next,
            }
        },
        FactView::Fact(e) => {
            let r = body_expr(cx, e, None, next);
            BodyFacts {
                facts: seq![FactView::Fact(r.expr)],
                uses: r.uses,
                heads: Seq::empty(),
                next: r.next,
            }
        },
    }
}

/// The first `n` facts of a body with their edges, from left to right.
pub open spec fn body_facts(cx: BodyContext, fs: Seq<FactView>, next: nat, n: nat) -> BodyFacts
    decreases n,
{
    if n == 0 {
        BodyFacts { facts: Seq::empty(), uses: Seq::empty(), heads: Seq::empty(), next }
    } else {
        let front = body_facts(cx, fs, next, (n - 1) as nat);
        let last = body_fact(cx, fs[n - 1], front.next);
        BodyFacts {
            facts: front.facts + last.facts,
            uses: front.uses + last.uses,
            heads: front.heads + last.heads,
            next: last.next,
        }
    }
}

/// Rewriting a fact never turns the running number back.
pub proof fn body_fact_next_grows(cx: BodyContext, f: FactView, next: nat)
    ensures
        body_fact(cx, f, next).next >= next,
{
    match f {
        FactView::Eq(span, lhs, rhs) => {
            body_expr_next_grows(cx, lhs, None, next);
            body_expr_next_grows(cx, rhs, None, body_expr(cx, lhs, None, next).next);
        },
        FactView::Fact(e) => {
            body_expr_next_grows(cx, e, None, next);
        },
    }
}

/// Rewriting more facts never turns the running number back.
pub proof fn body_facts_next_grows(
    cx: BodyContext,
    fs: Seq<FactView>,
    next: nat,
    m: nat,
    n: nat,
)
    requires
        m <= n,
    ensures
        next <= body_facts(cx, fs, next, m).next,
        body_facts(cx, fs, next, m).next <= body_facts(cx, fs, next, n).next,
    decreases n,
{
    if n > 0 {
        let k = (n - 1) as nat;
        if m < n {
            body_facts_next_grows(cx, fs, next, m, k);
        } else {
            body_facts_next_grows(cx, fs, next, k, k);
        }
        body_fact_next_grows(cx, fs[n - 1], body_facts(cx, fs, next, k).next);
    }
}

/// What the first `n` entries pair with `name`, in order.
pub open spec fn paired_with<T>(entries: Seq<(Seq<char>, T)>, name: Seq<char>, n: nat) -> Seq<T>
    decreases n,
{
    if n == 0 {
        Seq::empty()
    } else {
        let front = paired_with(entries, name, (n - 1) as nat);
        if entries[n - 1].0 == name {
            front.push(entries[n - 1].1)
        } else {
            front
        }
    }
}

/// The paths by which a variable was reached.
pub open spec fn paths_of(uses: Seq<(Seq<char>, ExprView)>, v: Seq<char>) -> Seq<ExprView> {
    paired_with(uses, v, uses.len())
}

/// The first `n` paths are equal, neighbour by neighbour.
pub open spec fn neighbours_equal(span: Span, paths: Seq<ExprView>, n: nat) -> Seq<FactView>
    decreases n,
{
    if n <= 1 {
        Seq::empty()
    } else {
        neighbours_equal(span, paths, (n - 1) as nat).push(
            FactView::Eq(span, paths[n - 2], paths[n - 1]),
        )
    }
}

/// For each variable among the first `n` uses, in the order of first use: all
/// its paths are equal.
pub open spec fn path_constraints(
    span: Span,
    uses: Seq<(Seq<char>, ExprView)>,
    n: nat,
) -> Seq<FactView>
    decreases n,
{
    if n == 0 {
        Seq::empty()
    } else {
        let front = path_constraints(span, uses, (n - 1) as nat);
        let v = uses[n - 1].0;
        if paired_with(uses, v, (n - 1) as nat).len() == 0 {
            let paths = paths_of(uses, v);
            front + neighbours_equal(span, paths, paths.len())
        } else {
            front
        }
    }
}

// ---------------------------------------------------------------------------
// Rule heads
// ---------------------------------------------------------------------------
/// What a rule's head knows of the variables that its body binds.
pub struct RuleScope {
    pub span: Span,
    pub uses: Seq<(Seq<char>, ExprView)>,
    pub heads: Seq<(Seq<char>, Seq<char>)>,
}

/// The rename of a variable in a rule's head: the first path by which the body
/// reached it, or the identity over the slots of a call that it is the head of.
pub open spec fn scope_rename(scope: RuleScope, v: Seq<char>) -> Option<ExprView> {
    let paths = paths_of(scope.uses, v);
    if paths.len() > 0 {
        Some(paths[0])
    } else {
        let renames = paired_with(scope.heads, v, scope.heads.len());
        identity_over(scope.span, vars(scope.span, renames))
    }
}

/// The edges of a term in a rule's head: each child's outgoing rename.
pub open spec fn outgoing_edges(
    span: Span,
    results: Seq<(ExprView, Option<ExprView>)>,
    mask: Seq<bool>,
) -> Seq<Option<ExprView>> {
    Seq::new(
        shorter(results.len(), mask.len()),
        |i: int|
            if mask[i] {
                match results[i].1 {
                    Some(out) => Some(out),
                    None => Some(empty_rename(span)),
                }
            } else {
                None
            },
    )
}

/// The outgoing renames of the first `n` children that carry slots.
pub open spec fn outgoing_of(
    results: Seq<(ExprView, Option<ExprView>)>,
    mask: Seq<bool>,
    n: nat,
) -> Seq<ExprView>
    decreases n,
{
    if n == 0 {
        Seq::empty()
    } else {
        let front = outgoing_of(results, mask, (n - 1) as nat);
        match results[n - 1].1 {
            Some(out) => if mask[n - 1] {
                front.push(out)
            } else {
                front
            },
            None => front,
        }
    }
}

/// The call of a rewritten constructor in a rule's head, and its outgoing
/// rename, given those of its arguments.
pub open spec fn compound_with_outgoing(
    span: Span,
    head: Seq<char>,
    results: Seq<(ExprView, Option<ExprView>)>,
    mask: Seq<bool>,
) -> (ExprView, Option<ExprView>) {
    let n = shorter(results.len(), mask.len());
    (
        ExprView::Call(
            span,
            head,
            interleave(firsts(results), outgoing_edges(span, results, mask), n),
        ),
        identity_over(span, outgoing_of(results, mask, n)),
    )
}

/// An expression of a rule's head with its edges, and its outgoing rename.
pub open spec fn action_expr(st: SlottedStateView, scope: RuleScope, e: ExprView) -> (
    ExprView,
    Option<ExprView>,
)
    decreases e,
{
    match e {
        ExprView::Var(span, v) => (e, scope_rename(scope, v)),
        ExprView::Lit(span, lit) => (e, None),
        ExprView::Call(span, head, args) => {
            let results = action_results(st, scope, args);
            match leaf_slot(st.leaf_ctors, head, args) {
                Some(n) => (e, Some(insert_identity(span, empty_rename(span), n))),
                None => if st.rewritten_ctors.contains_key(head) {
                    compound_with_outgoing(span, head, results, st.rewritten_ctors[head])
                } else {
                    (ExprView::Call(span, head, firsts(results)), None)
                },
            }
        },
    }
}

/// The results of [`action_expr`] on a list.
pub open spec fn action_results(
    st: SlottedStateView,
    scope: RuleScope,
    args: Seq<ExprView>,
) -> Seq<(ExprView, Option<ExprView>)>
    decreases args,
{
    Seq::new(
        args.len(),
        |i: int|
            if 0 <= i < args.len() {
                action_expr(st, scope, args[i])
            } else {
                arbitrary()
            },
    )
}

/// The rewritten expressions of a list.
pub open spec fn head_exprs(
    st: SlottedStateView,
    scope: RuleScope,
    es: Seq<ExprView>,
) -> Seq<ExprView> {
    firsts(action_results(st, scope, es))
}

/// The arguments of a call in a rule's head with their edges.
pub open spec fn head_args(
    st: SlottedStateView,
    scope: RuleScope,
    span: Span,
    head: Seq<char>,
    args: Seq<ExprView>,
) -> Seq<ExprView> {
    action_expr(st, scope, ExprView::Call(span, head, args)).0->Call_2
}

/// An action of a rule's head with its edges. The row that is deleted or
/// subsumed gets the edges of the call that it stands for.
pub open spec fn head_action(st: SlottedStateView, scope: RuleScope, a: ActionView) -> ActionView {
    match a {
        ActionView::Union(span, lhs, rhs) => ActionView::Union(
            span,
            action_expr(st, scope, lhs).0,
            action_expr(st, scope, rhs).0,
        ),
        ActionView::Let(span, v, e) => ActionView::Let(span, v, action_expr(st, scope, e).0),
        ActionView::Assign(span, head, args, val) => ActionView::Assign(
            span,
            head,
            head_exprs(st, scope, args),
            action_expr(st, scope, val).0,
        ),
        ActionView::Change(span, change, head, args) => ActionView::Change(
            span,
            change,
            head,
            head_args(st, scope, span, head, args),
        ),
        ActionView::Expr(span, e) => ActionView::Expr(span, action_expr(st, scope, e).0),
        ActionView::Panic(span, msg) => a,
    }
}

/// The actions of a rule's head with their edges.
pub open spec fn head_actions(
    st: SlottedStateView,
    scope: RuleScope,
    s: Seq<ActionView>,
) -> Seq<ActionView> {
    s.map_values(|a: ActionView| head_action(st, scope, a))
}

/// A user's rule with its edges, and the running number of fresh names after
/// it.
pub open spec fn user_rule(
    st: SlottedStateView,
    reserved: Seq<char>,
    next: nat,
    rule: RuleView,
) -> (RuleView, nat) {
    let cx = BodyContext { ctors: st.rewritten_ctors, reserved };
    let body = body_facts(cx, rule.body, next, rule.body.len());
    let scope = RuleScope { span: rule.span, uses: body.uses, heads: body.heads };
    (
        RuleView {
            span: rule.span,
            head: head_actions(st, scope, rule.head),
            body: body.facts + path_constraints(rule.span, body.uses, body.uses.len()),
            name: rule.name,
            ruleset: rule.ruleset,
        },
        body.next,
    )
}

// ---------------------------------------------------------------------------
// Schedules
// ---------------------------------------------------------------------------
/// `(saturate slotted)`.
pub open spec fn saturate_slotted(span: Span) -> ScheduleView {
    ScheduleView::Saturate(
        span,
        Box::new(
            ScheduleView::Run(span, RunConfigView { ruleset: "slotted"@, until: None }),
        ),
    )
}

/// A schedule with the slotted rules saturated after every run step.
pub open spec fn instrumented(s: ScheduleView) -> ScheduleView
    decreases s,
{
    match s {
        ScheduleView::Run(span, config) => ScheduleView::Sequence(
            span,
            seq![s, saturate_slotted(span)],
        ),
        ScheduleView::Saturate(span, inner) => ScheduleView::Saturate(
            span,
            Box::new(instrumented(*inner)),
        ),
        ScheduleView::Repeat(span, n, inner) => ScheduleView::Repeat(
            span,
            n,
            Box::new(instrumented(*inner)),
        ),
        ScheduleView::Sequence(span, items) => ScheduleView::Sequence(
            span,
            all_instrumented(items),
        ),
    }
}

/// The results of [`instrumented`] on a list.
pub open spec fn all_instrumented(items: Seq<ScheduleView>) -> Seq<ScheduleView>
    decreases items,
{
    Seq::new(
        items.len(),
        |i: int|
            if 0 <= i < items.len() {
                instrumented(items[i])
            } else {
                arbitrary()
            },
    )
}

// ---------------------------------------------------------------------------
// Commands
// ---------------------------------------------------------------------------
/// The encoder: its state and its generator of fresh names.
#[verifier::ext_equal]
pub struct EncoderView {
    pub state: SlottedStateView,
    pub reserved: Seq<char>,
    pub count: nat,
}

/// A command that declares nothing, with its edges, and the encoder after it.
pub open spec fn rewritten_command(enc: EncoderView, cmd: CommandView) -> (
    CommandView,
    EncoderView,
)
    decreases cmd,
{
    let st = enc.state;
    match cmd {
        CommandView::Action(a) => {
            let (rewritten, after) = top_action(st, a);
            (CommandView::Action(rewritten), EncoderView { state: after, ..enc })
        },
        CommandView::Check(span, fs) => (
            CommandView::Check(span, top_facts(st, fs)),
            enc,
        ),
        CommandView::Extract(span, e, variants) => (
            CommandView::Extract(span, top_expr(st, e), top_expr(st, variants)),
            enc,
        ),
        CommandView::Fail(span, inner) => {
            let (rewritten, after) = rewritten_command(enc, *inner);
            (CommandView::Fail(span, Box::new(rewritten)), after)
        },
        CommandView::Output { span, file, exprs } => (
            CommandView::Output { span, file, exprs: top_exprs(st, exprs) },
            enc,
        ),
        CommandView::Rule { rule } => {
            let (rewritten, next) = user_rule(st, enc.reserved, enc.count, rule);
            (CommandView::Rule { rule: rewritten }, EncoderView { count: next, ..enc })
        },
        CommandView::RunSchedule(schedule) => (
            CommandView::RunSchedule(instrumented(schedule)),
            enc,
        ),
        other => (other, enc),
    }
}

/// Rewriting a command never turns the running number back.
pub proof fn rewritten_command_count_grows(enc: EncoderView, cmd: CommandView)
    ensures
        rewritten_command(enc, cmd).1.count >= enc.count,
    decreases cmd,
{
    match cmd {
        CommandView::Fail(span, inner) => {
            rewritten_command_count_grows(enc, *inner);
        },
        CommandView::Rule { rule } => {
            let cx = BodyContext { ctors: enc.state.rewritten_ctors, reserved: enc.reserved };
            body_facts_next_grows(cx, rule.body, enc.count, 0, rule.body.len());
        },
        _ => {},
    }
}

} // verus!
