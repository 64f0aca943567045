//! Rewrites a program into slotted form.
//!
//! In a slotted e-graph an e-class has free slots and each child of an e-node
//! is stored with a renaming of its slots, so that terms which differ only in
//! the names of their slots share an e-class. The pass in this module gives an
//! ordinary program that behaviour: each constructor with slotted children gets
//! a `Renaming` argument behind every such child (its *edge*), terms and rules
//! get the edges that fit, and rules of the `slotted` ruleset find and merge
//! terms that are equal up to renaming.

use vstd::prelude::*;
use vstd::string::*;

use crate::ast::{
    actions, actions_push, call_view, clone_exprs, command_of, commands, commands_add,
    commands_push, exprs, exprs_push, facts, facts_push, make_call, program, schedules,
    sequence_view, Action, Command, Expr, ExprView, Fact, FunctionSubtype, Literal, NCommand, Rule,
    Schedule, Span,
};
use crate::names::{texts, NameSet, NameTable, SymbolGen};
use crate::slotted_encoding::erasure::{arities_fit, erased};
use crate::slotted_encoding::machinery::{
    compound_machinery, leaf_pair_rule, make_compound_machinery, make_leaf_pair_rule,
    make_maintenance, make_program_preamble, make_saturate_slotted, make_sort_preamble,
};
use crate::slotted_encoding::model::{
    action_expr, action_results, add_slots, all_instrumented, body_args, body_args_lengths,
    body_args_next_grows, body_expr, body_expr_next_grows, body_fact, body_facts,
    body_facts_next_grows, compound_with_slots, edge_mask, empty_rename, expr_with_slots,
    exprs_with_slots, firsts, head_action, head_actions, head_args, head_exprs, head_renames,
    head_variable, identity_over, identity_rename, initial_state, insert_identity, instrumented,
    int_lit, interleave, interleave_prefix, leaf_slot, name_slots, neighbours_equal, outer_slots,
    outgoing_edges, outgoing_of, paired_with, path_constraints, path_through, paths_of, rename_name,
    rewritten_command, saturate_slotted, scope_rename, shorter, slot_edges, top_action, top_args,
    top_expr, top_exprs, top_fact, top_facts, union_of_identities, user_rule, values_identity, vars,
    BodyContext, EncoderView, RuleScope, SlottedStateView,
};
use crate::slotted_encoding::program::{
    declares, encoded, encoded_count_grows, handled, makes_leaf, slot_mask, sort_preamble,
};
use crate::slotted_encoding::rules::{
    edge_names, names_between, recorded_lists_only_grow, rewritten_body_expr_is_the_users,
    slotted_positions,
};
use crate::slotted_encoding::size::{fresh_names_are_few, program_size, spend_program};

pub mod commands;
pub mod erasure;
pub mod generated;
pub mod laws;
pub mod machinery;
pub mod meaning;
pub mod model;
pub mod program;
pub mod rule_views;
pub mod rules;
pub mod size;
pub mod slots;
pub mod views;

verus! {

/// What the pass remembers from command to command.
#[derive(Debug)]
pub struct SlottedState {
    /// The user's sorts whose values carry slots.
    pub u_sorts: NameSet,
    /// For each constructor of such a sort, which of its arguments are of such
    /// a sort and so are followed by a `Renaming`.
    pub rewritten_ctors: NameTable<Vec<bool>>,
    /// The constructors that make a leaf out of one slot number.
    pub leaf_ctors: NameSet,
    /// The outer slots of each named term.
    pub let_outer_slots: NameTable<Vec<i64>>,
    /// Whether the sort of renamings has been declared.
    pub renaming_sort_emitted: bool,
}

/// The views of the values of a table.
pub open spec fn value_views<T>(m: Map<Seq<char>, Vec<T>>) -> Map<Seq<char>, Seq<T>> {
    m.map_values(|v: Vec<T>| v@)
}

impl View for SlottedState {
    type V = SlottedStateView;

    open spec fn view(&self) -> SlottedStateView {
        SlottedStateView {
            u_sorts: self.u_sorts@,
            rewritten_ctors: value_views(self.rewritten_ctors@),
            leaf_ctors: self.leaf_ctors@,
            let_outer_slots: value_views(self.let_outer_slots@),
            renaming_sort_emitted: self.renaming_sort_emitted,
        }
    }
}

impl Default for SlottedState {
    fn default() -> (r: Self)
        ensures
            r@ == initial_state(),
    {
        let r = SlottedState {
            u_sorts: NameSet::new(),
            rewritten_ctors: NameTable::new(),
            leaf_ctors: NameSet::new(),
            let_outer_slots: NameTable::new(),
            renaming_sort_emitted: false,
        };
        assert(r@ =~= initial_state());
        r
    }
}

// ---------------------------------------------------------------------------
// Renaming expressions
// ---------------------------------------------------------------------------
/// Makes a call with two arguments.
fn binary_call(span: Span, head: &str, a: Expr, b: Expr) -> (r: Expr)
    ensures
        r@ == ExprView::Call(span, head@, seq![a@, b@]),
{
    let args: Vec<Expr> = vec![a, b];
    assert(exprs(args@) =~= seq![a@, b@]);
    make_call(span, String::from_str(head), args)
}

/// The path that descends into a child: the edge to it, behind the path to its
/// parent.
pub fn compose_path(span: Span, outer: Option<Expr>, inner: Expr) -> (r: Expr)
    ensures
        r@ == path_through(
            span,
            match outer {
                Some(o) => Some(o@),
                None => None,
            },
            inner@,
        ),
{
    match outer {
        None => inner,
        Some(o) => binary_call(span, "compose", o, inner),
    }
}

/// `(compose e (inverse e))`: the identity over the values of `e`.
pub fn id_on_values_expr(span: Span, edge: Expr) -> (r: Expr)
    ensures
        r@ == values_identity(span, edge@),
{
    let args: Vec<Expr> = vec![edge.clone()];
    assert(exprs(args@) =~= seq![edge@]);
    let inverse = make_call(span, String::from_str("inverse"), args);
    binary_call(span, "compose", edge, inverse)
}

/// The identity over the values of the rename variable of the given name.
pub fn id_on_values(span: Span, rename_var: &String) -> (r: Expr)
    ensures
        r@ == values_identity(span, ExprView::Var(span, rename_var@)),
{
    id_on_values_expr(span, Expr::Var(span, rename_var.clone()))
}

/// The identity over the union of the values of the rename variables of the
/// given names; none without names.
pub fn synthesize_identity(span: Span, renames: &Vec<String>) -> (r: Option<Expr>)
    ensures
        match r {
            Some(e) => identity_over(span, vars(span, texts(renames@))) == Some(e@),
            None => identity_over(span, vars(span, texts(renames@))) is None,
        },
{
    if renames.len() == 0 {
        return None;
    }
    let ghost edges = vars(span, texts(renames@));
    let mut acc = id_on_values(span, &renames[0]);
    let mut i: usize = 1;
    while i < renames.len()
        invariant
            1 <= i <= renames.len(),
            edges == vars(span, texts(renames@)),
            acc@ == union_of_identities(span, edges, i as nat),
        decreases renames.len() - i,
    {
        let next = id_on_values(span, &renames[i]);
        acc = binary_call(span, "map-union", acc, next);
        i += 1;
    }
    Some(acc)
}

/// Like [`synthesize_identity`], over arbitrary edges.
pub fn synthesize_identity_from_exprs(span: Span, edges: &Vec<Expr>) -> (r: Option<Expr>)
    ensures
        match r {
            Some(e) => identity_over(span, exprs(edges@)) == Some(e@),
            None => identity_over(span, exprs(edges@)) is None,
        },
{
    if edges.len() == 0 {
        return None;
    }
    let mut acc = id_on_values_expr(span, edges[0].clone());
    let mut i: usize = 1;
    while i < edges.len()
        invariant
            1 <= i <= edges.len(),
            acc@ == union_of_identities(span, exprs(edges@), i as nat),
        decreases edges.len() - i,
    {
        let next = id_on_values_expr(span, edges[i].clone());
        acc = binary_call(span, "map-union", acc, next);
        i += 1;
    }
    Some(acc)
}

/// Makes `(map-empty)`.
fn make_empty_rename(span: Span) -> (r: Expr)
    ensures
        r@ == empty_rename(span),
{
    let args: Vec<Expr> = Vec::new();
    assert(exprs(args@) =~= Seq::empty());
    make_call(span, String::from_str("map-empty"), args)
}

/// Makes `(map-insert m k k)`.
fn make_insert_identity(span: Span, m: Expr, k: i64) -> (r: Expr)
    ensures
        r@ == insert_identity(span, m@, k),
{
    let key = Expr::Lit(span, Literal::Int(k));
    let value = Expr::Lit(span, Literal::Int(k));
    let args: Vec<Expr> = vec![m, key, value];
    assert(exprs(args@) =~= seq![m@, int_lit(span, k), int_lit(span, k)]);
    make_call(span, String::from_str("map-insert"), args)
}

/// `(map-insert (map-empty) k k)`: the identity at one slot.
pub fn identity_at(span: Span, k: i64) -> (r: Expr)
    ensures
        r@ == insert_identity(span, empty_rename(span), k),
{
    make_insert_identity(span, make_empty_rename(span), k)
}

/// The identity at the given slots.
fn identity_at_all(span: Span, slots: &Vec<i64>) -> (r: Expr)
    ensures
        r@ == identity_rename(span, slots@, slots@.len()),
{
    let mut r = make_empty_rename(span);
    let mut i: usize = 0;
    while i < slots.len()
        invariant
            i <= slots.len(),
            r@ == identity_rename(span, slots@, i as nat),
        decreases slots.len() - i,
    {
        r = make_insert_identity(span, r, slots[i]);
        i += 1;
    }
    r
}

/// Puts those of `more` behind `slots` that are not there yet.
fn append_new_slots(slots: &mut Vec<i64>, more: &Vec<i64>)
    ensures
        final(slots)@ == add_slots(old(slots)@, more@, more@.len()),
{
    let mut i: usize = 0;
    while i < more.len()
        invariant
            i <= more.len(),
            slots@ == add_slots(old(slots)@, more@, i as nat),
        decreases more.len() - i,
    {
        let s = more[i];
        let mut found = false;
        let mut j: usize = 0;
        while j < slots.len()
            invariant
                j <= slots.len(),
                found == slots@.take(j as int).contains(s),
            decreases slots.len() - j,
        {
            if slots[j] == s {
                found = true;
            }
            proof {
                let before = slots@.take(j as int);
                let after = slots@.take(j + 1);
                assert(after =~= before.push(slots@[j as int]));
                assert(after[j as int] == slots@[j as int]);
                if before.contains(s) {
                    let k = before.index_of(s);
                    assert(after[k] == s);
                }
                if after.contains(s) && slots@[j as int] != s {
                    let k = after.index_of(s);
                    assert(before[k] == s);
                }
            }
            j += 1;
        }
        assert(slots@.take(j as int) =~= slots@);
        if !found {
            slots.push(s);
        }
        i += 1;
    }
}

// ---------------------------------------------------------------------------
// The pass
// ---------------------------------------------------------------------------
/// The pass: what it remembers, and its generator of fresh names.
#[derive(Debug)]
pub struct SlottedInstrumentor {
    pub slotted_state: SlottedState,
    pub symbol_gen: SymbolGen,
}

impl View for SlottedInstrumentor {
    type V = EncoderView;

    open spec fn view(&self) -> EncoderView {
        EncoderView {
            state: self.slotted_state@,
            reserved: self.symbol_gen.reserved@,
            count: self.symbol_gen.count as nat,
        }
    }
}

impl SlottedInstrumentor {
    /// A pass that has not seen a command yet.
    pub fn new(symbol_gen: SymbolGen) -> (r: Self)
        ensures
            r@.state == initial_state(),
            r.symbol_gen == symbol_gen,
    {
        SlottedInstrumentor { slotted_state: SlottedState::default(), symbol_gen }
    }

    /// Whether `sort` is one of the user's sorts whose values carry slots.
    pub fn is_u_sort(&self, sort: &String) -> (r: bool)
        ensures
            r == self@.state.u_sorts.contains(sort@),
    {
        self.slotted_state.u_sorts.contains(sort)
    }

    /// The edge mask of a rewritten constructor.
    fn ctor_mask(&self, head: &String) -> (r: Option<&Vec<bool>>)
        ensures
            match r {
                Some(mask) => self@.state.rewritten_ctors.contains_key(head@)
                    && self@.state.rewritten_ctors[head@] == mask@,
                None => !self@.state.rewritten_ctors.contains_key(head@),
            },
    {
        self.slotted_state.rewritten_ctors.get(head)
    }

    /// The slot of a leaf whose argument is an integer literal.
    fn literal_leaf_slot(&self, head: &String, args: &Vec<Expr>) -> (r: Option<i64>)
        ensures
            r == leaf_slot(self@.state.leaf_ctors, head@, exprs(args@)),
    {
        if args.len() > 0 && self.slotted_state.leaf_ctors.contains(head) {
            assert(exprs(args@)[0] == args@[0]@);
            match &args[0] {
                Expr::Lit(_, Literal::Int(n)) => Some(*n),
                _ => None,
            }
        } else {
            None
        }
    }

    /// Rewrites an expression outside a rule and returns it with its outer
    /// slots: the slot of a leaf, the slots recorded for a named term, and for
    /// a compound the distinct slots of its children.
    pub fn rewrite_expr_with_slots(&self, expr: &Expr) -> (r: (Expr, Vec<i64>))
        ensures
            r.0@ == expr_with_slots(self@.state, expr@).0,
            r.1@ == expr_with_slots(self@.state, expr@).1,
        decreases expr, 0nat,
    {
        match expr {
            Expr::Var(span, v) => (Expr::Var(*span, v.clone()), Vec::new()),
            Expr::Lit(span, lit) => (Expr::Lit(*span, lit.clone()), Vec::new()),
            Expr::Call(span, head, args) => {
                proof {
                    call_view(*expr);
                }
                if let Some(n) = self.literal_leaf_slot(head, args) {
                    let slots: Vec<i64> = vec![n];
                    assert(slots@ =~= seq![n]);
                    return (expr.clone(), slots);
                }
                if args.len() == 0 {
                    if let Some(slots) = self.slotted_state.let_outer_slots.get(head) {
                        let copy = slots.clone();
                        assert(copy@ =~= slots@);
                        return (expr.clone(), copy);
                    }
                }
                if let Some(mask) = self.ctor_mask(head) {
                    return self.rewrite_compound_call(*span, head, args, mask);
                }
                let mut out: Vec<Expr> = Vec::new();
                let mut i: usize = 0;
                while i < args.len()
                    invariant
                        i <= args.len(),
                        out.len() == i,
                        expr matches Expr::Call(_, _, a) && a == args,
                        forall|j: int|
                            0 <= j < i ==> out@[j]@ == top_expr(self@.state, args@[j]@),
                    decreases args.len() - i,
                {
                    out.push(self.rewrite_expr_with_slots(&args[i]).0);
                    i += 1;
                }
                assert(exprs(out@) =~= top_exprs(self@.state, exprs(args@)));
                (make_call(*span, head.clone(), out), Vec::new())
            },
        }
    }

    /// Rewrites the call of a rewritten constructor outside a rule. Behind each
    /// child that carries slots comes the identity at the child's slots; the
    /// outer slots of the call are the distinct slots of these children, in the
    /// order in which they are met.
    pub fn rewrite_compound_call(
        &self,
        span: Span,
        head: &String,
        args: &Vec<Expr>,
        mask: &Vec<bool>,
    ) -> (r: (Expr, Vec<i64>))
        ensures
            r.0@ == compound_with_slots(
                span,
                head@,
                exprs_with_slots(self@.state, exprs(args@)),
                mask@,
            ).0,
            r.1@ == compound_with_slots(
                span,
                head@,
                exprs_with_slots(self@.state, exprs(args@)),
                mask@,
            ).1,
        decreases args, 1nat,
    {
        broadcast use exprs_push;

        let ghost results = exprs_with_slots(self@.state, exprs(args@));
        let ghost children = firsts(results);
        let ghost edges = slot_edges(span, results, mask@);
        let mut outer: Vec<i64> = Vec::new();
        let mut new_args: Vec<Expr> = Vec::new();
        let mut i: usize = 0;
        assert(exprs(new_args@) =~= Seq::empty());
        while i < args.len() && i < mask.len()
            invariant
                i <= args.len(),
                i <= mask.len(),
                results == exprs_with_slots(self@.state, exprs(args@)),
                children == firsts(results),
                edges == slot_edges(span, results, mask@),
                outer@ == outer_slots(results, mask@, i as nat),
                exprs(new_args@) == interleave(children, edges, i as nat),
            decreases args.len() - i,
        {
            assert(results[i as int] == expr_with_slots(self@.state, args@[i as int]@));
            let (child, slots) = self.rewrite_expr_with_slots(&args[i]);
            new_args.push(child);
            if mask[i] {
                append_new_slots(&mut outer, &slots);
                new_args.push(identity_at_all(span, &slots));
            }
            i += 1;
        }
        (make_call(span, head.clone(), new_args), outer)
    }

    /// Rewrites an expression outside a rule.
    pub fn rewrite_expr(&self, expr: &Expr) -> (r: Expr)
        ensures
            r@ == top_expr(self@.state, expr@),
    {
        self.rewrite_expr_with_slots(expr).0
    }

    /// Rewrites the arguments of a call outside a rule.
    fn rewrite_args(&self, span: Span, head: &String, args: &Vec<Expr>) -> (r: Vec<Expr>)
        ensures
            exprs(r@) == top_args(self@.state, span, head@, exprs(args@)),
    {
        let call = make_call(span, head.clone(), clone_exprs(args));
        args_of(self.rewrite_expr(&call))
    }

    /// Rewrites a list of expressions outside a rule.
    fn rewrite_exprs(&self, es: &Vec<Expr>) -> (r: Vec<Expr>)
        ensures
            exprs(r@) == top_exprs(self@.state, exprs(es@)),
    {
        let mut r: Vec<Expr> = Vec::new();
        let mut i: usize = 0;
        while i < es.len()
            invariant
                i <= es.len(),
                r.len() == i,
                forall|j: int| 0 <= j < i ==> r@[j]@ == top_expr(self@.state, es@[j]@),
            decreases es.len() - i,
        {
            r.push(self.rewrite_expr(&es[i]));
            i += 1;
        }
        assert(exprs(r@) =~= top_exprs(self@.state, exprs(es@)));
        r
    }
}

/// The arguments of a call.
fn args_of(call: Expr) -> (r: Vec<Expr>)
    requires
        call@ is Call,
    ensures
        exprs(r@) == call@->Call_2,
{
    match call {
        Expr::Call(span, head, args) => {
            proof {
                call_view(call);
            }
            args
        },
        _ => Vec::new(),
    }
}

/// The view of an optional expression.
pub open spec fn optional(e: Option<Expr>) -> Option<ExprView> {
    match e {
        Some(e) => Some(e@),
        None => None,
    }
}

/// The views of a list of variables with their paths.
pub open spec fn use_views(s: Seq<(String, Expr)>) -> Seq<(Seq<char>, ExprView)> {
    s.map_values(|u: (String, Expr)| (u.0@, u.1@))
}

/// The views of a list of head variables with their renames.
pub open spec fn head_views(s: Seq<(String, String)>) -> Seq<(Seq<char>, Seq<char>)> {
    s.map_values(|h: (String, String)| (h.0@, h.1@))
}

/// What rewriting a rule body by this pass goes by.
pub open spec fn body_context(enc: EncoderView) -> BodyContext {
    BodyContext { ctors: enc.state.rewritten_ctors, reserved: enc.reserved }
}

impl SlottedInstrumentor {
    /// Makes the name of a fresh edge rename.
    pub fn fresh_rename_var(&mut self) -> (r: String)
        requires
            old(self).symbol_gen.count < usize::MAX,
        ensures
            r@ == rename_name(body_context(old(self)@), old(self)@.count),
            final(self).slotted_state == old(self).slotted_state,
            final(self)@ == (EncoderView { count: old(self)@.count + 1, ..old(self)@ }),
    {
        self.symbol_gen.fresh("r_slotted")
    }

    /// Which of the arguments of `head` get an edge in a rule body.
    fn body_mask(&self, head: &String, len: usize) -> (r: Vec<bool>)
        ensures
            r@ == edge_mask(self@.state.rewritten_ctors, head@, len as nat),
    {
        match self.ctor_mask(head) {
            Some(mask) => {
                let copy = mask.clone();
                assert(copy@ =~= mask@);
                copy
            },
            None => {
                let none: Vec<bool> = vec![false; len];
                assert(none@ =~= Seq::new(len as nat, |i: int| false));
                none
            },
        }
    }

    /// Rewrites an expression of a rule body. Behind each child of a rewritten
    /// constructor that carries slots comes a fresh rename variable. `path` is
    /// the composed rename from the outermost call down to the expression, if
    /// there is one. Each variable that stands at a position with an edge is put
    /// behind `uses` with its path. A variable at another position has no slots
    /// to view and is not recorded. Returns the expression with the fresh renames
    /// of its outermost call.
    pub fn rewrite_body_expr(
        &mut self,
        expr: &Expr,
        path: &Option<Expr>,
        uses: &mut Vec<(String, Expr)>,
    ) -> (r: (Expr, Vec<String>))
        requires
            body_expr(
                body_context(old(self)@),
                expr@,
                optional(*path),
                old(self)@.count,
            ).next <= usize::MAX,
        ensures
            final(self).slotted_state == old(self).slotted_state,
            ({
                let out = body_expr(
                    body_context(old(self)@),
                    expr@,
                    optional(*path),
                    old(self)@.count,
                );
                &&& r.0@ == out.expr
                &&& texts(r.1@) == out.renames
                &&& use_views(final(uses)@) == use_views(old(uses)@) + out.uses
                &&& final(self)@ == (EncoderView { count: out.next, ..old(self)@ })
            }),
            forall|v: Seq<char>| #[trigger]
                paths_of(use_views(old(uses)@), v).is_prefix_of(
                    paths_of(use_views(final(uses)@), v),
                ),
            arities_fit(old(self)@.state.rewritten_ctors, expr@) ==> {
                let ctors = old(self)@.state.rewritten_ctors;
                &&& erased(ctors, r.0@) == expr@
                &&& edge_names(ctors, r.0@) == names_between(
                    body_context(old(self)@),
                    old(self)@.count,
                    final(self)@.count,
                )
                &&& edge_names(ctors, r.0@).no_duplicates()
                &&& edge_names(ctors, r.0@).len() == slotted_positions(ctors, expr@)
            },
        decreases expr,
    {
        let ghost cx = body_context(self@);
        let ghost start = self@.count;
        let ghost p = optional(*path);
        proof {
            if arities_fit(cx.ctors, expr@) {
                rewritten_body_expr_is_the_users(cx, expr@, p, start);
            }
            let more = body_expr(cx, expr@, p, start).uses;
            assert forall|v: Seq<char>| #[trigger]
                paths_of(use_views(uses@), v).is_prefix_of(
                    paths_of(use_views(uses@) + more, v),
                ) by {
                recorded_lists_only_grow(use_views(uses@), more, v);
            }
        }
        match expr {
            Expr::Var(span, v) => {
                if let Some(reached_by) = path {
                    uses.push((v.clone(), reached_by.clone()));
                    assert(use_views(uses@) =~= use_views(old(uses)@) + seq![
                        (v@, reached_by@),
                    ]);
                } else {
                    assert(use_views(uses@) =~= use_views(old(uses)@) + Seq::empty());
                }
                let renames: Vec<String> = Vec::new();
                assert(texts(renames@) =~= Seq::empty());
                (Expr::Var(*span, v.clone()), renames)
            },
            Expr::Lit(span, lit) => {
                assert(use_views(uses@) =~= use_views(old(uses)@) + Seq::empty());
                let renames: Vec<String> = Vec::new();
                assert(texts(renames@) =~= Seq::empty());
                (Expr::Lit(*span, lit.clone()), renames)
            },
            Expr::Call(span, head, args) => {
                proof {
                    call_view(*expr);
                }
                let mask = self.body_mask(head, args.len());
                let ghost views = exprs(args@);
                let ghost n = shorter(views.len(), mask@.len());
                let mut new_args: Vec<Expr> = Vec::new();
                let mut renames: Vec<String> = Vec::new();
                let mut i: usize = 0;
                assert(exprs(new_args@) =~= Seq::empty());
                assert(texts(renames@) =~= Seq::empty());
                assert(use_views(uses@) =~= use_views(old(uses)@) + Seq::empty());
                while i < args.len() && i < mask.len()
                    invariant
                        i <= args.len(),
                        i <= mask.len(),
                        expr matches Expr::Call(_, _, a) && a == args,
                        views == exprs(args@),
                        n == shorter(views.len(), mask@.len()),
                        p == optional(*path),
                        cx == body_context(old(self)@),
                        start == old(self)@.count,
                        self.slotted_state == old(self).slotted_state,
                        self.symbol_gen.reserved@ == old(self).symbol_gen.reserved@,
                        body_args(cx, *span, views, mask@, p, start, n).next <= usize::MAX,
                        ({
                            let out = body_args(cx, *span, views, mask@, p, start, i as nat);
                            &&& exprs(new_args@) == interleave(out.children, out.edges, i as nat)
                            &&& texts(renames@) == out.renames
                            &&& use_views(uses@) == use_views(old(uses)@) + out.uses
                            &&& self.symbol_gen.count == out.next
                        }),
                    decreases args.len() - i,
                {
                    let ghost front = body_args(cx, *span, views, mask@, p, start, i as nat);
                    let ghost back = body_args(cx, *span, views, mask@, p, start, (i + 1) as nat);
                    proof {
                        body_args_next_grows(
                            cx,
                            *span,
                            views,
                            mask@,
                            p,
                            start,
                            (i + 1) as nat,
                            n,
                        );
                        body_args_lengths(cx, *span, views, mask@, p, start, i as nat);
                        interleave_prefix(
                            front.children,
                            front.edges,
                            back.children,
                            back.edges,
                            i as nat,
                        );
                        assert(views[i as int] == args@[i as int]@);
                    }
                    let ghost uses_before = use_views(uses@);
                    let ghost args_before = exprs(new_args@);
                    let ghost names_before = texts(renames@);
                    if mask[i] {
                        proof {
                            let edge = ExprView::Var(*span, rename_name(cx, front.next));
                            body_expr_next_grows(
                                cx,
                                views[i as int],
                                Some(path_through(*span, p, edge)),
                                front.next + 1,
                            );
                        }
                        let fresh = self.fresh_rename_var();
                        let outer = match path {
                            Some(o) => Some(o.clone()),
                            None => None,
                        };
                        let child_path = Some(
                            compose_path(*span, outer, Expr::Var(*span, fresh.clone())),
                        );
                        let (child, _) = self.rewrite_body_expr(&args[i], &child_path, uses);
                        new_args.push(child);
                        new_args.push(Expr::Var(*span, fresh.clone()));
                        renames.push(fresh);
                        assert(texts(renames@) =~= names_before.push(fresh@));
                    } else {
                        let (child, _) = match &args[i] {
                            Expr::Var(..) => self.rewrite_body_expr(&args[i], &None, uses),
                            _ => self.rewrite_body_expr(&args[i], path, uses),
                        };
                        new_args.push(child);
                    }
                    proof {
                        assert(use_views(uses@) =~= use_views(old(uses)@) + back.uses);
                        assert(exprs(new_args@) =~= interleave(
                            back.children,
                            back.edges,
                            (i + 1) as nat,
                        ));
                    }
                    i += 1;
                }
                (make_call(*span, head.clone(), new_args), renames)
            },
        }
    }
}

/// What a rule's head knows of the variables that its body binds.
#[derive(Debug)]
pub struct RuleBindings {
    pub span: Span,
    /// The variables met at positions with an edge, each with its path.
    pub uses: Vec<(String, Expr)>,
    /// The variables matched as the head of a rewritten call, each with an edge
    /// rename of that call.
    pub heads: Vec<(String, String)>,
}

impl View for RuleBindings {
    type V = RuleScope;

    open spec fn view(&self) -> RuleScope {
        RuleScope {
            span: self.span,
            uses: use_views(self.uses@),
            heads: head_views(self.heads@),
        }
    }
}

impl RuleBindings {
    /// The paths by which a variable was reached.
    fn paths(&self, v: &String) -> (r: Vec<Expr>)
        ensures
            exprs(r@) == paths_of(self@.uses, v@),
    {
        broadcast use exprs_push;

        let mut r: Vec<Expr> = Vec::new();
        let mut i: usize = 0;
        assert(exprs(r@) =~= Seq::empty());
        while i < self.uses.len()
            invariant
                i <= self.uses.len(),
                exprs(r@) == paired_with(self@.uses, v@, i as nat),
            decreases self.uses.len() - i,
        {
            if self.uses[i].0 == *v {
                r.push(self.uses[i].1.clone());
            }
            i += 1;
        }
        r
    }

    /// The edge renames of the calls that a variable is the head of.
    fn head_names(&self, v: &String) -> (r: Vec<String>)
        ensures
            texts(r@) == paired_with(self@.heads, v@, self@.heads.len()),
    {
        let mut r: Vec<String> = Vec::new();
        let mut i: usize = 0;
        assert(texts(r@) =~= Seq::empty());
        while i < self.heads.len()
            invariant
                i <= self.heads.len(),
                texts(r@) == paired_with(self@.heads, v@, i as nat),
            decreases self.heads.len() - i,
        {
            if self.heads[i].0 == *v {
                let ghost before = texts(r@);
                r.push(self.heads[i].1.clone());
                assert(texts(r@) =~= before.push(self@.heads[i as int].1));
            }
            i += 1;
        }
        r
    }

    /// The rename of a variable in the rule's head: the first path by which the
    /// body reached it, or the identity over the slots of a call that it is the
    /// head of.
    pub fn rename(&self, v: &String) -> (r: Option<Expr>)
        ensures
            optional(r) == scope_rename(self@, v@),
    {
        let paths = self.paths(v);
        if paths.len() > 0 {
            assert(exprs(paths@)[0] == paths@[0]@);
            Some(paths[0].clone())
        } else {
            let names = self.head_names(v);
            synthesize_identity(self.span, &names)
        }
    }

    /// Whether the variable of use `i` was met before.
    fn met_before(&self, i: usize) -> (r: bool)
        requires
            i < self.uses@.len(),
        ensures
            r == (paired_with(self@.uses, self@.uses[i as int].0, i as nat).len() > 0),
    {
        let v = self.uses[i].0.clone();
        let mut found = false;
        let mut j: usize = 0;
        while j < i
            invariant
                j <= i < self.uses@.len(),
                v@ == self@.uses[i as int].0,
                found == (paired_with(self@.uses, v@, j as nat).len() > 0),
            decreases i - j,
        {
            if self.uses[j].0 == v {
                found = true;
            }
            j += 1;
        }
        found
    }

    /// For each variable that was reached by several paths: these are equal.
    pub fn constraints(&self) -> (r: Vec<Fact>)
        ensures
            facts(r@) == path_constraints(self.span, self@.uses, self@.uses.len()),
    {
        broadcast use facts_push;

        let mut r: Vec<Fact> = Vec::new();
        let mut i: usize = 0;
        assert(facts(r@) =~= Seq::empty());
        while i < self.uses.len()
            invariant
                i <= self.uses.len(),
                facts(r@) == path_constraints(self.span, self@.uses, i as nat),
            decreases self.uses.len() - i,
        {
            let ghost front = facts(r@);
            if !self.met_before(i) {
                let paths = self.paths(&self.uses[i].0);
                let ghost views = exprs(paths@);
                assert(front =~= front + neighbours_equal(self.span, views, 0));
                let mut j: usize = 0;
                while j < paths.len()
                    invariant
                        j <= paths.len(),
                        views == exprs(paths@),
                        facts(r@) == front + neighbours_equal(self.span, views, j as nat),
                    decreases paths.len() - j,
                {
                    if j > 0 {
                        let ghost before = neighbours_equal(self.span, views, j as nat);
                        let eq = Fact::Eq(self.span, paths[j - 1].clone(), paths[j].clone());
                        r.push(eq);
                        assert(views[j - 1] == paths@[j - 1]@);
                        assert(views[j as int] == paths@[j as int]@);
                        assert((front + before).push(eq@) =~= front + before.push(eq@));
                    }
                    j += 1;
                }
            }
            i += 1;
        }
        r
    }
}

impl SlottedInstrumentor {
    /// Rewrites a fact of a rule body. An equation between a variable and the
    /// call of a rewritten constructor matches the variable as the head of that
    /// call: the variable is put behind `heads` with each fresh rename of the
    /// call.
    pub fn rewrite_body_fact(
        &mut self,
        fact: &Fact,
        uses: &mut Vec<(String, Expr)>,
        heads: &mut Vec<(String, String)>,
    ) -> (r: Fact)
        requires
            body_fact(body_context(old(self)@), fact@, old(self)@.count).next <= usize::MAX,
        ensures
            final(self).slotted_state == old(self).slotted_state,
            ({
                let out = body_fact(body_context(old(self)@), fact@, old(self)@.count);
                &&& seq![r@] == out.facts
                &&& use_views(final(uses)@) == use_views(old(uses)@) + out.uses
                &&& head_views(final(heads)@) == head_views(old(heads)@) + out.heads
                &&& final(self)@ == (EncoderView { count: out.next, ..old(self)@ })
            }),
    {
        match fact {
            Fact::Eq(span, lhs, rhs) => {
                let ghost cx = body_context(self@);
                let ghost l = body_expr(cx, lhs@, None, self@.count);
                let ghost r = body_expr(cx, rhs@, None, l.next);
                proof {
                    body_expr_next_grows(cx, rhs@, None, l.next);
                }
                let (new_lhs, lhs_renames) = self.rewrite_body_expr(lhs, &None, uses);
                let (new_rhs, rhs_renames) = self.rewrite_body_expr(rhs, &None, uses);
                let lhs_head = self.head_of(rhs, lhs);
                let rhs_head = self.head_of(lhs, rhs);
                if let Some(v) = &lhs_head {
                    record_head(heads, v, &lhs_renames);
                }
                if let Some(v) = &rhs_head {
                    record_head(heads, v, &rhs_renames);
                }
                proof {
                    let out = body_fact(cx, fact@, old(self)@.count);
                    assert(use_views(uses@) =~= use_views(old(uses)@) + out.uses);
                    assert(head_views(heads@) =~= head_views(old(heads)@) + out.heads);
                }
                Fact::Eq(*span, new_lhs, new_rhs)
            },
            Fact::Fact(e) => {
                let (new_e, _) = self.rewrite_body_expr(e, &None, uses);
                assert(head_views(heads@) =~= head_views(old(heads)@) + Seq::empty());
                Fact::Fact(new_e)
            },
        }
    }

    /// The variable, if `var` is one and `call` the call of a rewritten
    /// constructor.
    fn head_of(&self, var: &Expr, call: &Expr) -> (r: Option<String>)
        ensures
            match r {
                Some(v) => head_variable(self@.state.rewritten_ctors, var@, call@) == Some(v@),
                None => head_variable(self@.state.rewritten_ctors, var@, call@) is None,
            },
    {
        match (var, call) {
            (Expr::Var(_, v), Expr::Call(_, head, _)) => {
                if self.ctor_mask(head).is_some() {
                    Some(v.clone())
                } else {
                    None
                }
            },
            _ => None,
        }
    }
}

/// Puts a head variable with each of its renames behind `heads`.
fn record_head(heads: &mut Vec<(String, String)>, v: &String, renames: &Vec<String>)
    ensures
        head_views(final(heads)@) == head_views(old(heads)@) + head_renames(
            Some(v@),
            texts(renames@),
        ),
{
    let ghost all = head_renames(Some(v@), texts(renames@));
    let mut i: usize = 0;
    assert(head_views(heads@) =~= head_views(old(heads)@) + all.take(0));
    while i < renames.len()
        invariant
            i <= renames.len(),
            all == head_renames(Some(v@), texts(renames@)),
            head_views(heads@) == head_views(old(heads)@) + all.take(i as int),
        decreases renames.len() - i,
    {
        let ghost before = head_views(heads@);
        heads.push((v.clone(), renames[i].clone()));
        assert(all[i as int] == (v@, renames@[i as int]@));
        assert(head_views(heads@) =~= before.push(all[i as int]));
        assert(before.push(all[i as int]) =~= head_views(old(heads)@) + all.take(i + 1));
        i += 1;
    }
    assert(all.take(i as int) =~= all);
}

impl SlottedInstrumentor {
    /// Rewrites an expression of a rule's head and returns it with its outgoing
    /// rename: the rename behind it where it is a child of a rewritten
    /// constructor. A variable has the rename that the body gave it, a leaf with
    /// a literal slot the identity at that slot, and a compound the identity
    /// over all values of its edges. Anything else has none.
    pub fn rewrite_action_expr_with_outgoing(&self, expr: &Expr, scope: &RuleBindings) -> (r: (
        Expr,
        Option<Expr>,
    ))
        ensures
            r.0@ == action_expr(self@.state, scope@, expr@).0,
            optional(r.1) == action_expr(self@.state, scope@, expr@).1,
        decreases expr,
    {
        match expr {
            Expr::Var(span, v) => (Expr::Var(*span, v.clone()), scope.rename(v)),
            Expr::Lit(span, lit) => (Expr::Lit(*span, lit.clone()), None),
            Expr::Call(span, head, args) => {
                broadcast use exprs_push;

                proof {
                    call_view(*expr);
                }
                if let Some(n) = self.literal_leaf_slot(head, args) {
                    return (expr.clone(), Some(identity_at(*span, n)));
                }
                let ghost results = action_results(self@.state, scope@, exprs(args@));
                if let Some(mask) = self.ctor_mask(head) {
                    let ghost children = firsts(results);
                    let ghost edges = outgoing_edges(*span, results, mask@);
                    let mut new_args: Vec<Expr> = Vec::new();
                    let mut outgoings: Vec<Expr> = Vec::new();
                    let mut i: usize = 0;
                    assert(exprs(new_args@) =~= Seq::empty());
                    assert(exprs(outgoings@) =~= Seq::empty());
                    while i < args.len() && i < mask.len()
                        invariant
                            i <= args.len(),
                            i <= mask.len(),
                            expr matches Expr::Call(_, _, a) && a == args,
                            results == action_results(self@.state, scope@, exprs(args@)),
                            children == firsts(results),
                            edges == outgoing_edges(*span, results, mask@),
                            exprs(new_args@) == interleave(children, edges, i as nat),
                            exprs(outgoings@) == outgoing_of(results, mask@, i as nat),
                        decreases args.len() - i,
                    {
                        assert(results[i as int] == action_expr(
                            self@.state,
                            scope@,
                            args@[i as int]@,
                        ));
                        let (child, outgoing) = self.rewrite_action_expr_with_outgoing(
                            &args[i],
                            scope,
                        );
                        new_args.push(child);
                        if mask[i] {
                            match outgoing {
                                Some(out) => {
                                    new_args.push(out.clone());
                                    outgoings.push(out);
                                },
                                None => {
                                    new_args.push(make_empty_rename(*span));
                                },
                            }
                        }
                        i += 1;
                    }
                    let outgoing = synthesize_identity_from_exprs(*span, &outgoings);
                    return (make_call(*span, head.clone(), new_args), outgoing);
                }
                let mut out: Vec<Expr> = Vec::new();
                let mut i: usize = 0;
                while i < args.len()
                    invariant
                        i <= args.len(),
                        out.len() == i,
                        expr matches Expr::Call(_, _, a) && a == args,
                        forall|j: int|
                            0 <= j < i ==> out@[j]@ == action_expr(
                                self@.state,
                                scope@,
                                args@[j]@,
                            ).0,
                    decreases args.len() - i,
                {
                    out.push(self.rewrite_action_expr_with_outgoing(&args[i], scope).0);
                    i += 1;
                }
                assert(exprs(out@) =~= head_exprs(self@.state, scope@, exprs(args@)));
                (make_call(*span, head.clone(), out), None)
            },
        }
    }

    /// Rewrites an expression of a rule's head.
    pub fn rewrite_action_expr(&self, expr: &Expr, scope: &RuleBindings) -> (r: Expr)
        ensures
            r@ == action_expr(self@.state, scope@, expr@).0,
    {
        self.rewrite_action_expr_with_outgoing(expr, scope).0
    }

    /// Rewrites a list of expressions of a rule's head.
    fn rewrite_action_exprs(&self, es: &Vec<Expr>, scope: &RuleBindings) -> (r: Vec<Expr>)
        ensures
            exprs(r@) == head_exprs(self@.state, scope@, exprs(es@)),
    {
        let mut r: Vec<Expr> = Vec::new();
        let mut i: usize = 0;
        while i < es.len()
            invariant
                i <= es.len(),
                r.len() == i,
                forall|j: int|
                    0 <= j < i ==> r@[j]@ == action_expr(self@.state, scope@, es@[j]@).0,
            decreases es.len() - i,
        {
            r.push(self.rewrite_action_expr(&es[i], scope));
            i += 1;
        }
        assert(exprs(r@) =~= head_exprs(self@.state, scope@, exprs(es@)));
        r
    }

    /// Rewrites the arguments of a call in a rule's head.
    fn rewrite_action_args(
        &self,
        span: Span,
        head: &String,
        args: &Vec<Expr>,
        scope: &RuleBindings,
    ) -> (r: Vec<Expr>)
        ensures
            exprs(r@) == head_args(self@.state, scope@, span, head@, exprs(args@)),
    {
        let call = make_call(span, head.clone(), clone_exprs(args));
        args_of(self.rewrite_action_expr(&call, scope))
    }

    /// Rewrites an action of a rule's head. The row that is deleted or subsumed
    /// gets the edges of the call that it stands for.
    pub fn rewrite_action_with_paths(&self, action: &Action, scope: &RuleBindings) -> (r: Action)
        ensures
            r@ == head_action(self@.state, scope@, action@),
    {
        match action {
            Action::Union(span, lhs, rhs) => Action::Union(
                *span,
                self.rewrite_action_expr(lhs, scope),
                self.rewrite_action_expr(rhs, scope),
            ),
            Action::Let(span, v, e) => Action::Let(
                *span,
                v.clone(),
                self.rewrite_action_expr(e, scope),
            ),
            Action::Assign(span, head, args, val) => Action::Assign(
                *span,
                head.clone(),
                self.rewrite_action_exprs(args, scope),
                self.rewrite_action_expr(val, scope),
            ),
            Action::Change(span, change, head, args) => Action::Change(
                *span,
                *change,
                head.clone(),
                self.rewrite_action_args(*span, head, args, scope),
            ),
            Action::Expr(span, e) => Action::Expr(*span, self.rewrite_action_expr(e, scope)),
            Action::Panic(span, msg) => Action::Panic(*span, msg.clone()),
        }
    }

    /// Rewrites a user's rule.
    ///
    /// In the body, every child of a rewritten constructor that carries slots
    /// gets a fresh rename variable as its edge, and each variable that is such
    /// a child is recorded with the path of renames that leads to it. A variable
    /// that was reached by several paths has one slot view only, so the body also
    /// demands that its paths are equal. In the head, such a variable is used
    /// with its first path, and a variable that was only matched as the head of
    /// a call with the identity over that call's slots.
    pub fn rewrite_user_rule(&mut self, rule: &Rule) -> (r: Rule)
        requires
            user_rule(old(self)@.state, old(self)@.reserved, old(self)@.count, rule@).1
                <= usize::MAX,
        ensures
            final(self).slotted_state == old(self).slotted_state,
            r@ == user_rule(old(self)@.state, old(self)@.reserved, old(self)@.count, rule@).0,
            final(self)@ == (EncoderView {
                count: user_rule(
                    old(self)@.state,
                    old(self)@.reserved,
                    old(self)@.count,
                    rule@,
                ).1,
                ..old(self)@
            }),
    {
        broadcast use facts_push, actions_push;

        let ghost cx = body_context(self@);
        let ghost start = self@.count;
        let ghost fs = facts(rule.body@);
        let mut uses: Vec<(String, Expr)> = Vec::new();
        let mut heads: Vec<(String, String)> = Vec::new();
        let mut body: Vec<Fact> = Vec::new();
        let mut i: usize = 0;
        assert(facts(body@) =~= Seq::empty());
        assert(use_views(uses@) =~= Seq::empty());
        assert(head_views(heads@) =~= Seq::empty());
        while i < rule.body.len()
            invariant
                i <= rule.body.len(),
                fs == facts(rule.body@),
                cx == body_context(old(self)@),
                start == old(self)@.count,
                self.slotted_state == old(self).slotted_state,
                body_facts(cx, fs, start, fs.len()).next <= usize::MAX,
                ({
                    let out = body_facts(cx, fs, start, i as nat);
                    &&& facts(body@) == out.facts
                    &&& use_views(uses@) == out.uses
                    &&& head_views(heads@) == out.heads
                    &&& self@ == (EncoderView { count: out.next, ..old(self)@ })
                }),
            decreases rule.body.len() - i,
        {
            let ghost front = body_facts(cx, fs, start, i as nat);
            proof {
                body_facts_next_grows(cx, fs, start, (i + 1) as nat, fs.len());
                assert(fs[i as int] == rule.body@[i as int]@);
            }
            let fact = self.rewrite_body_fact(&rule.body[i], &mut uses, &mut heads);
            body.push(fact);
            proof {
                let last = body_fact(cx, fs[i as int], front.next);
                assert(front.facts.push(fact@) =~= front.facts + last.facts) by {
                    assert(last.facts[0] == fact@);
                }
            }
            i += 1;
        }
        let scope = RuleBindings { span: rule.span, uses, heads };
        let mut constraints = scope.constraints();
        let ghost rewritten = facts(body@);
        let ghost demanded = facts(constraints@);
        let ghost body_before = body@;
        let ghost constraints_before = constraints@;
        body.append(&mut constraints);
        assert(facts(body@) =~= rewritten + demanded);
        let mut head: Vec<Action> = Vec::new();
        let mut j: usize = 0;
        while j < rule.head.len()
            invariant
                j <= rule.head.len(),
                head.len() == j,
                forall|k: int|
                    0 <= k < j ==> head@[k]@ == head_action(
                        self@.state,
                        scope@,
                        rule.head@[k]@,
                    ),
            decreases rule.head.len() - j,
        {
            head.push(self.rewrite_action_with_paths(&rule.head[j], &scope));
            j += 1;
        }
        assert(actions(head@) =~= head_actions(self@.state, scope@, actions(rule.head@)));
        Rule {
            span: rule.span,
            head,
            body,
            name: rule.name.clone(),
            ruleset: rule.ruleset.clone(),
        }
    }

    /// Rewrites a fact outside a rule.
    pub fn rewrite_fact(&self, fact: &Fact) -> (r: Fact)
        ensures
            r@ == top_fact(self@.state, fact@),
    {
        match fact {
            Fact::Eq(span, lhs, rhs) => Fact::Eq(
                *span,
                self.rewrite_expr(lhs),
                self.rewrite_expr(rhs),
            ),
            Fact::Fact(e) => Fact::Fact(self.rewrite_expr(e)),
        }
    }

    /// Records the outer slots of a named term, if it has any.
    fn record_slots(&mut self, name: &String, slots: Vec<i64>)
        ensures
            final(self).symbol_gen == old(self).symbol_gen,
            final(self)@.state == name_slots(old(self)@.state, name@, slots@),
    {
        if slots.len() > 0 {
            let ghost before = self.slotted_state.let_outer_slots@;
            self.slotted_state.let_outer_slots.insert(name.clone(), slots);
            assert(value_views(self.slotted_state.let_outer_slots@) =~= value_views(
                before,
            ).insert(name@, slots@));
            assert(self@.state =~= name_slots(old(self)@.state, name@, slots@));
        }
    }

    /// Rewrites an action outside a rule. A `let`, and setting a function
    /// without arguments (what a `let` at the top level becomes), name a term:
    /// its outer slots are remembered for later uses of the name. The row that is
    /// deleted or subsumed gets the edges of the call that it stands for.
    pub fn rewrite_action(&mut self, action: &Action) -> (r: Action)
        ensures
            final(self).symbol_gen == old(self).symbol_gen,
            r@ == top_action(old(self)@.state, action@).0,
            final(self)@.state == top_action(old(self)@.state, action@).1,
    {
        match action {
            Action::Union(span, lhs, rhs) => Action::Union(
                *span,
                self.rewrite_expr(lhs),
                self.rewrite_expr(rhs),
            ),
            Action::Let(span, v, e) => {
                let (rewritten, slots) = self.rewrite_expr_with_slots(e);
                self.record_slots(v, slots);
                Action::Let(*span, v.clone(), rewritten)
            },
            Action::Assign(span, head, args, val) => {
                let (rewritten, slots) = self.rewrite_expr_with_slots(val);
                let new_args = self.rewrite_exprs(args);
                if args.len() == 0 {
                    self.record_slots(head, slots);
                }
                Action::Assign(*span, head.clone(), new_args, rewritten)
            },
            Action::Change(span, change, head, args) => Action::Change(
                *span,
                *change,
                head.clone(),
                self.rewrite_args(*span, head, args),
            ),
            Action::Expr(span, e) => Action::Expr(*span, self.rewrite_expr(e)),
            Action::Panic(span, msg) => Action::Panic(*span, msg.clone()),
        }
    }

    /// Wraps each run step of a schedule so that the slotted rules saturate
    /// after it.
    pub fn instrument_schedule(schedule: &Schedule) -> (r: Schedule)
        ensures
            r@ == instrumented(schedule@),
        decreases schedule,
    {
        match schedule {
            Schedule::Run(span, config) => {
                let run = Schedule::Run(*span, config.clone());
                let saturate = Self::saturate_slotted(*span);
                let items: Vec<Schedule> = vec![run, saturate];
                let r = Schedule::Sequence(*span, items);
                proof {
                    sequence_view(r);
                    assert(schedules(items@) =~= seq![run@, saturate@]);
                }
                r
            },
            Schedule::Saturate(span, inner) => Schedule::Saturate(
                *span,
                Box::new(Self::instrument_schedule(inner)),
            ),
            Schedule::Repeat(span, n, inner) => Schedule::Repeat(
                *span,
                *n,
                Box::new(Self::instrument_schedule(inner)),
            ),
            Schedule::Sequence(span, items) => {
                let mut out: Vec<Schedule> = Vec::new();
                let mut i: usize = 0;
                while i < items.len()
                    invariant
                        i <= items.len(),
                        out.len() == i,
                        schedule matches Schedule::Sequence(_, s) && s == items,
                        forall|j: int| 0 <= j < i ==> out@[j]@ == instrumented(items@[j]@),
                    decreases items.len() - i,
                {
                    out.push(Self::instrument_schedule(&items[i]));
                    i += 1;
                }
                let r = Schedule::Sequence(*span, out);
                proof {
                    sequence_view(*schedule);
                    sequence_view(r);
                    assert(schedules(out@) =~= all_instrumented(schedules(items@)));
                }
                r
            },
        }
    }

    /// The schedule `(saturate slotted)`.
    pub fn saturate_slotted(span: Span) -> (r: Schedule)
        ensures
            r@ == saturate_slotted(span),
    {
        make_saturate_slotted(span)
    }
}

impl SlottedInstrumentor {
    /// Rewrites a command: terms get their edges, rules are rewritten, and run
    /// steps are followed by the slotted rules.
    pub fn rewrite_command(&mut self, cmd: Command) -> (r: Command)
        requires
            rewritten_command(old(self)@, cmd@).1.count <= usize::MAX,
        ensures
            r@ == rewritten_command(old(self)@, cmd@).0,
            final(self)@ == rewritten_command(old(self)@, cmd@).1,
        decreases cmd,
    {
        match cmd {
            Command::Action(action) => Command::Action(self.rewrite_action(&action)),
            Command::Check(span, fs) => {
                let mut out: Vec<Fact> = Vec::new();
                let mut i: usize = 0;
                while i < fs.len()
                    invariant
                        i <= fs.len(),
                        out.len() == i,
                        forall|j: int| 0 <= j < i ==> out@[j]@ == top_fact(self@.state, fs@[j]@),
                    decreases fs.len() - i,
                {
                    out.push(self.rewrite_fact(&fs[i]));
                    i += 1;
                }
                assert(facts(out@) =~= top_facts(self@.state, facts(fs@)));
                Command::Check(span, out)
            },
            Command::Extract(span, e, variants) => Command::Extract(
                span,
                self.rewrite_expr(&e),
                self.rewrite_expr(&variants),
            ),
            Command::Fail(span, inner) => {
                let rewritten = self.rewrite_command(*inner);
                Command::Fail(span, Box::new(rewritten))
            },
            Command::Output { span, file, exprs } => Command::Output {
                span,
                file,
                exprs: self.rewrite_exprs(&exprs),
            },
            Command::Rule { rule } => Command::Rule { rule: self.rewrite_user_rule(&rule) },
            Command::RunSchedule(schedule) => Command::RunSchedule(
                Self::instrument_schedule(&schedule),
            ),
            other => other,
        }
    }

    /// The declarations behind that of a sort with slots: once per program the
    /// sort of renamings and the `slotted` ruleset, then the leader relation of
    /// the sort and its transitivity rule.
    pub fn emit_sort_preamble(&mut self, sort: &String) -> (r: Vec<Command>)
        ensures
            commands(r@) == sort_preamble(old(self)@.state, sort@),
            final(self)@ == (EncoderView {
                state: SlottedStateView { renaming_sort_emitted: true, ..old(self)@.state },
                ..old(self)@
            }),
    {
        broadcast use commands_add;

        let mut out: Vec<Command> = Vec::new();
        assert(commands(out@) =~= Seq::empty());
        if !self.slotted_state.renaming_sort_emitted {
            out = make_program_preamble();
            self.slotted_state.renaming_sort_emitted = true;
        }
        let mut per_sort = make_sort_preamble(sort);
        out.append(&mut per_sort);
        assert(self@ =~= (EncoderView {
            state: SlottedStateView { renaming_sort_emitted: true, ..old(self)@.state },
            ..old(self)@
        }));
        out
    }

    /// All that the declaration of a constructor with slotted children becomes:
    /// the declaration with a `Renaming` behind each such child, the rule that
    /// finds nodes which are equal up to renaming, the rule that pushes a
    /// renaming through the edges of a node, and for each such child the rule
    /// that moves a node to the child's leader.
    pub fn emit_compound_constructor(
        &self,
        name: &String,
        inputs: &Vec<String>,
        output: &String,
        u_mask: &Vec<bool>,
    ) -> (r: Vec<Command>)
        ensures
            commands(r@) == compound_machinery(name@, texts(inputs@), output@, u_mask@),
    {
        make_compound_machinery(name, inputs, output, u_mask)
    }

    /// The rule that relates any two leaves with different slots; nothing for a
    /// constructor that does not make a leaf out of one slot number.
    pub fn emit_leaf_machinery(
        &self,
        name: &String,
        inputs: &Vec<String>,
        output: &String,
    ) -> (r: Vec<Command>)
        ensures
            commands(r@) == if makes_leaf(texts(inputs@)) {
                seq![leaf_pair_rule(name@, output@)]
            } else {
                Seq::empty()
            },
    {
        if Self::is_leaf_signature(inputs) {
            let r: Vec<Command> = vec![make_leaf_pair_rule(name, output)];
            assert(commands(r@) =~= seq![leaf_pair_rule(name@, output@)]);
            r
        } else {
            let r: Vec<Command> = Vec::new();
            assert(commands(r@) =~= Seq::empty());
            r
        }
    }

    /// Whether a constructor with these arguments makes a leaf out of one slot
    /// number.
    fn is_leaf_signature(inputs: &Vec<String>) -> (r: bool)
        ensures
            r == makes_leaf(texts(inputs@)),
    {
        inputs.len() == 1 && inputs[0] == String::from_str("i64")
    }

    /// Which argument sorts carry slots.
    fn input_mask(&self, inputs: &Vec<String>) -> (r: Vec<bool>)
        ensures
            r@ == slot_mask(self@.state.u_sorts, texts(inputs@)),
    {
        let mut r: Vec<bool> = Vec::new();
        let mut i: usize = 0;
        while i < inputs.len()
            invariant
                i <= inputs.len(),
                r.len() == i,
                forall|j: int|
                    0 <= j < i ==> r@[j] == self@.state.u_sorts.contains(inputs@[j]@),
            decreases inputs.len() - i,
        {
            r.push(self.is_u_sort(&inputs[i]));
            i += 1;
        }
        assert(r@ =~= slot_mask(self@.state.u_sorts, texts(inputs@)));
        r
    }

    /// Rewrites one command of the program and adds what its declaration needs.
    pub fn handle_command(&mut self, cmd: &NCommand) -> (r: Vec<Command>)
        requires
            handled(old(self)@, cmd@).1.count <= usize::MAX,
        ensures
            commands(r@) == handled(old(self)@, cmd@).0,
            final(self)@ == handled(old(self)@, cmd@).1,
    {
        broadcast use commands_add;

        match cmd {
            NCommand::Sort { name, presort_and_args: None, .. } => {
                let mut out: Vec<Command> = vec![cmd.to_command()];
                assert(commands(out@) =~= seq![command_of(cmd@)]);
                self.slotted_state.u_sorts.insert(name.clone());
                let mut preamble = self.emit_sort_preamble(name);
                out.append(&mut preamble);
                assert(self@ =~= handled(old(self)@, cmd@).1);
                out
            },
            NCommand::Function(f) if f.subtype == FunctionSubtype::Constructor && self.is_u_sort(
                &f.schema.output,
            ) => {
                let u_mask = self.input_mask(&f.schema.input);
                let has_u_input = contains_true(&u_mask);
                let copy = u_mask.clone();
                assert(copy@ =~= u_mask@);
                let ghost before = self.slotted_state.rewritten_ctors@;
                self.slotted_state.rewritten_ctors.insert(f.name.clone(), copy);
                assert(value_views(self.slotted_state.rewritten_ctors@) =~= value_views(
                    before,
                ).insert(f.name@, u_mask@));
                if has_u_input {
                    assert(self@ =~= handled(old(self)@, cmd@).1);
                    self.emit_compound_constructor(
                        &f.name,
                        &f.schema.input,
                        &f.schema.output,
                        &u_mask,
                    )
                } else {
                    let mut out: Vec<Command> = vec![cmd.to_command()];
                    assert(commands(out@) =~= seq![command_of(cmd@)]);
                    if Self::is_leaf_signature(&f.schema.input) {
                        self.slotted_state.leaf_ctors.insert(f.name.clone());
                        let mut rules = self.emit_leaf_machinery(
                            &f.name,
                            &f.schema.input,
                            &f.schema.output,
                        );
                        out.append(&mut rules);
                        assert(commands(out@) =~= handled(old(self)@, cmd@).0);
                    }
                    assert(self@ =~= handled(old(self)@, cmd@).1);
                    out
                }
            },
            _ => {
                let raw = cmd.to_command();
                let r: Vec<Command> = vec![self.rewrite_command(raw)];
                assert(commands(r@) =~= handled(old(self)@, cmd@).0);
                r
            },
        }
    }

    /// Whether a command only declares something.
    fn only_declares(cmd: &NCommand) -> (r: bool)
        ensures
            r == declares(cmd@),
    {
        match cmd {
            NCommand::Function(..) => true,
            NCommand::NormRule { .. } => true,
            NCommand::Sort { .. } => true,
            NCommand::AddRuleset(..) => true,
            NCommand::UnstableCombinedRuleset(..) => true,
            _ => false,
        }
    }

    /// Rewrites a program into slotted form. Behind every command that may
    /// bring new data, once there is a sort with slots, the slotted rules are
    /// saturated.
    pub fn add_slotted_encoding(&mut self, prog: &Vec<NCommand>) -> (r: Vec<Command>)
        requires
            encoded(old(self)@, program(prog@), prog@.len()).1.count <= usize::MAX,
        ensures
            commands(r@) == encoded(old(self)@, program(prog@), prog@.len()).0,
            final(self)@ == encoded(old(self)@, program(prog@), prog@.len()).1,
    {
        broadcast use commands_add, commands_push;

        let ghost views = program(prog@);
        let mut out: Vec<Command> = Vec::new();
        let mut i: usize = 0;
        assert(commands(out@) =~= Seq::empty());
        while i < prog.len()
            invariant
                i <= prog.len(),
                views == program(prog@),
                encoded(old(self)@, views, prog@.len()).1.count <= usize::MAX,
                commands(out@) == encoded(old(self)@, views, i as nat).0,
                self@ == encoded(old(self)@, views, i as nat).1,
            decreases prog.len() - i,
        {
            let ghost front = encoded(old(self)@, views, i as nat);
            proof {
                encoded_count_grows(old(self)@, views, (i + 1) as nat, prog@.len());
                assert(views[i as int] == prog@[i as int]@);
            }
            let needs_maintenance = !Self::only_declares(&prog[i]);
            let mut cmds = self.handle_command(&prog[i]);
            if needs_maintenance && self.slotted_state.renaming_sort_emitted {
                cmds.push(make_maintenance());
            }
            out.append(&mut cmds);
            i += 1;
        }
        out
    }
}

impl SlottedInstrumentor {
    /// Like [`Self::add_slotted_encoding`], for callers that do not know how many
    /// fresh names a program needs: nothing is done where the running number
    /// could run over, that is where it and the arguments in the program's rule
    /// bodies together are more than a `usize` holds.
    pub fn try_add_slotted_encoding(&mut self, prog: &Vec<NCommand>) -> (r: Option<Vec<Command>>)
        ensures
            r is Some <==> old(self)@.count + program_size(program(prog@), prog@.len())
                <= usize::MAX,
            r matches Some(cmds) ==> commands(cmds@) == encoded(
                old(self)@,
                program(prog@),
                prog@.len(),
            ).0 && final(self)@ == encoded(old(self)@, program(prog@), prog@.len()).1,
            r is None ==> *final(self) == *old(self),
    {
        if spend_program(prog, usize::MAX - self.symbol_gen.count).is_none() {
            return None;
        }
        proof {
            fresh_names_are_few(self@, program(prog@), prog@.len());
        }
        Some(self.add_slotted_encoding(prog))
    }
}

/// Whether a mask has a position set.
fn contains_true(mask: &Vec<bool>) -> (r: bool)
    ensures
        r == mask@.contains(true),
{
    let mut i: usize = 0;
    while i < mask.len()
        invariant
            i <= mask.len(),
            forall|j: int| 0 <= j < i ==> !mask@[j],
        decreases mask.len() - i,
    {
        if mask[i] {
            assert(mask@[i as int]);
            return true;
        }
        i += 1;
    }
    false
}

} // verus!
