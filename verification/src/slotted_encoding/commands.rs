//! What each command of a program becomes, and what the encoder remembers of it.

use vstd::prelude::*;

use crate::ast::{
    command_of, ActionView, CommandView, ExprView, FactView, FunctionDeclView, NCommandView,
    RuleView, ScheduleView, Span,
};
use crate::slotted_encoding::erasure::{arities_fit, each_arity_fits, first_arities_fit, leaves_fit};
use crate::slotted_encoding::laws::{
    every_run_is_saturated, every_run_step_gets_its_saturation, instrumenting_only_adds_saturation,
    plain_schedule, run_steps, saturates_slotted,
};
use crate::slotted_encoding::machinery::compound_machinery;
use crate::slotted_encoding::meaning::{identity_on, slot_values, Reading};
use crate::slotted_encoding::model::{
    body_expr, body_facts, body_facts_next_grows, expr_with_slots, exprs_with_slots, initial_state,
    paths_of, rewritten_command, top_action, top_args, top_expr, top_exprs, top_fact, top_facts,
    user_rule, BodyContext, EncoderView, SlottedStateView,
};
use crate::slotted_encoding::program::{encoded, handled, maintained};
use crate::slotted_encoding::rule_views::{
    action_shows_views, body_view, of_name, paired_are_the_entries_of_the_name,
    rule_heads_show_the_views_of_the_body,
};
use crate::slotted_encoding::rules::{
    action_arities_fit, body_edge_names, body_edge_names_prefix, body_edges_are_fresh_names,
    body_slotted_uses, body_slotted_uses_prefix, constraints_stand_between_slotted_paths,
    erased_fact, fact_arities_fit, facts_recorded_at_edges, names_differ, one_name_per_position,
    paths_of_a_variable_are_equated, rewritten_rule_is_the_users_rule, slotted_positions,
};
use crate::slotted_encoding::views::{
    edges_outside_rules_show_the_slots, known_in_head, known_outside, shows_views, view_of, Known,
};
use crate::sort::Value;

verus! {

// ---------------------------------------------------------------------------
// Terms, facts and actions outside rules
// ---------------------------------------------------------------------------
/// Whether an encoded list is the user's list with edges that stand for the views
/// of their children.
pub open spec fn all_show_views(
    rd: Reading,
    k: Known,
    es: Seq<ExprView>,
    outs: Seq<ExprView>,
) -> bool {
    &&& outs.len() == es.len()
    &&& forall|i: int| 0 <= i < es.len() ==> shows_views(rd, k, es[i], #[trigger] outs[i])
}

/// Whether an encoded fact is the user's fact with edges that stand for the views
/// of their children, on both sides of an equation.
pub open spec fn fact_shows_views(rd: Reading, k: Known, f: FactView, out: FactView) -> bool {
    match f {
        FactView::Eq(span, lhs, rhs) => out matches FactView::Eq(span2, l, r) && span2 == span
            && shows_views(rd, k, lhs, l) && shows_views(rd, k, rhs, r),
        FactView::Fact(e) => out matches FactView::Fact(o) && shows_views(rd, k, e, o),
    }
}

/// A list of terms outside rules gets the edges of each of them.
proof fn all_top_exprs_show_views(rd: Reading, st: SlottedStateView, es: Seq<ExprView>)
    requires
        leaves_fit(st),
        first_arities_fit(st.rewritten_ctors, es, es.len()),
    ensures
        all_show_views(rd, known_outside(st), es, top_exprs(st, es)),
{
    let outs = top_exprs(st, es);
    each_arity_fits(st.rewritten_ctors, es, es.len());
    assert forall|i: int| 0 <= i < es.len() implies shows_views(
        rd,
        known_outside(st),
        es[i],
        #[trigger] outs[i],
    ) by {
        assert(arities_fit(st.rewritten_ctors, es[i]));
        edges_outside_rules_show_the_slots(rd, st, es[i]);
        assert(exprs_with_slots(st, es)[i] == expr_with_slots(st, es[i]));
    }
}

/// Outside rules, both sides of an equation get the edges that stand for the slots
/// of their children. Equal sides stay equal.
pub proof fn facts_outside_rules_show_the_slots(rd: Reading, st: SlottedStateView, f: FactView)
    requires
        leaves_fit(st),
        fact_arities_fit(st.rewritten_ctors, f),
    ensures
        fact_shows_views(rd, known_outside(st), f, top_fact(st, f)),
        erased_fact(st.rewritten_ctors, top_fact(st, f)) == f,
        f matches FactView::Eq(_, lhs, rhs) ==> (lhs == rhs ==> top_fact(st, f)->Eq_1 == top_fact(
            st,
            f,
        )->Eq_2),
{
    match f {
        FactView::Eq(_, lhs, rhs) => {
            edges_outside_rules_show_the_slots(rd, st, lhs);
            edges_outside_rules_show_the_slots(rd, st, rhs);
            crate::slotted_encoding::erasure::top_expr_only_adds_edges(st, lhs);
            crate::slotted_encoding::erasure::top_expr_only_adds_edges(st, rhs);
        },
        FactView::Fact(e) => {
            edges_outside_rules_show_the_slots(rd, st, e);
            crate::slotted_encoding::erasure::top_expr_only_adds_edges(st, e);
        },
    }
}

/// Outside rules, an action gets the edges that stand for the slots of their
/// children.
pub proof fn actions_outside_rules_show_the_slots(
    rd: Reading,
    st: SlottedStateView,
    a: ActionView,
)
    requires
        leaves_fit(st),
        action_arities_fit(st.rewritten_ctors, a),
    ensures
        action_shows_views(rd, known_outside(st), a, top_action(st, a).0),
{
    match a {
        ActionView::Let(_, _, e) => {
            edges_outside_rules_show_the_slots(rd, st, e);
        },
        ActionView::Assign(_, _, args, val) => {
            all_top_exprs_show_views(rd, st, args);
            edges_outside_rules_show_the_slots(rd, st, val);
        },
        ActionView::Change(span, _, head, args) => {
            let call = ExprView::Call(span, head, args);
            edges_outside_rules_show_the_slots(rd, st, call);
            assert(top_expr(st, call) == ExprView::Call(
                span,
                head,
                top_args(st, span, head, args),
            ));
        },
        ActionView::Union(_, lhs, rhs) => {
            edges_outside_rules_show_the_slots(rd, st, lhs);
            edges_outside_rules_show_the_slots(rd, st, rhs);
        },
        ActionView::Panic(_, _) => {},
        ActionView::Expr(_, e) => {
            edges_outside_rules_show_the_slots(rd, st, e);
        },
    }
}

// ---------------------------------------------------------------------------
// Rules
// ---------------------------------------------------------------------------
/// How many positions with an edge a fact has.
pub open spec fn fact_positions(ctors: Map<Seq<char>, Seq<bool>>, f: FactView) -> nat {
    match f {
        FactView::Eq(_, lhs, rhs) => slotted_positions(ctors, lhs) + slotted_positions(ctors, rhs),
        FactView::Fact(e) => slotted_positions(ctors, e),
    }
}

/// How many positions with an edge the first `n` facts have together.
pub open spec fn body_positions(
    ctors: Map<Seq<char>, Seq<bool>>,
    fs: Seq<FactView>,
    n: nat,
) -> nat
    decreases n,
{
    if n == 0 {
        0
    } else {
        body_positions(ctors, fs, (n - 1) as nat) + fact_positions(ctors, fs[n - 1])
    }
}

/// One fresh name is made for each position with an edge of a body.
proof fn one_name_per_body_position(cx: BodyContext, fs: Seq<FactView>, next: nat, n: nat)
    requires
        n <= fs.len(),
        forall|i: int| 0 <= i < fs.len() ==> fact_arities_fit(cx.ctors, #[trigger] fs[i]),
    ensures
        body_facts(cx, fs, next, n).next == next + body_positions(cx.ctors, fs, n),
    decreases n,
{
    if n > 0 {
        one_name_per_body_position(cx, fs, next, (n - 1) as nat);
        let at = body_facts(cx, fs, next, (n - 1) as nat).next;
        assert(fact_arities_fit(cx.ctors, fs[n - 1]));
        match fs[n - 1] {
            FactView::Eq(_, lhs, rhs) => {
                one_name_per_position(cx, lhs, None, at);
                one_name_per_position(cx, rhs, None, body_expr(cx, lhs, None, at).next);
            },
            FactView::Fact(e) => {
                one_name_per_position(cx, e, None, at);
            },
        }
    }
}

/// Whether two neighbouring paths to one variable of a rewritten body are equated
/// by a fact.
pub open spec fn equates_neighbours(
    ctors: Map<Seq<char>, Seq<bool>>,
    body: Seq<FactView>,
    n: nat,
    span: Span,
    f: FactView,
    v: Seq<char>,
    i: int,
) -> bool {
    let uses = body_slotted_uses(ctors, body, n).filter(of_name(v));
    &&& 0 <= i && i + 1 < uses.len()
    &&& f == FactView::Eq(span, uses[i].1, uses[i + 1].1)
}

/// Whether a rule is the encoding of a user's rule:
/// - its first facts are the user's with edges, which are different variables, one
///   for each position with an edge;
/// - behind them stands exactly that all paths to one variable are equal, each to
///   the one before it;
/// - its actions are the user's with edges that stand for the views that the body
///   has of their children.
pub open spec fn rule_is_encoded(
    rd: Reading,
    st: SlottedStateView,
    rule: RuleView,
    out: RuleView,
) -> bool {
    let ctors = st.rewritten_ctors;
    let n = rule.body.len();
    let edges = body_edge_names(ctors, out.body, n);
    let seen = |v: Seq<char>| body_view(rd, ctors, out.body, n, v);
    &&& out.span == rule.span && out.name == rule.name && out.ruleset == rule.ruleset
    &&& out.body.len() >= n
    &&& forall|i: int|
        0 <= i < n ==> erased_fact(ctors, #[trigger] out.body[i]) == rule.body[i]
    &&& edges.no_duplicates()
    &&& edges.len() == body_positions(ctors, rule.body, n)
    &&& forall|v: Seq<char>, i: int, f: FactView| #[trigger]
        equates_neighbours(ctors, out.body, n, rule.span, f, v, i) ==> out.body.skip(
            n as int,
        ).contains(f)
    &&& forall|f: FactView| #[trigger]
        out.body.skip(n as int).contains(f) ==> exists|v: Seq<char>, i: int| #[trigger]
            equates_neighbours(ctors, out.body, n, rule.span, f, v, i)
    &&& out.head.len() == rule.head.len()
    &&& forall|j: int|
        0 <= j < rule.head.len() ==> action_shows_views(
            rd,
            known_in_head(st, seen),
            rule.head[j],
            #[trigger] out.head[j],
        )
}

/// Whether every call of a rewritten constructor in a rule has the arguments that
/// the constructor was declared with.
pub open spec fn rule_arities_fit(ctors: Map<Seq<char>, Seq<bool>>, rule: RuleView) -> bool {
    &&& forall|i: int| 0 <= i < rule.body.len() ==> fact_arities_fit(ctors, #[trigger] rule.body[i])
    &&& forall|i: int|
        0 <= i < rule.head.len() ==> action_arities_fit(ctors, #[trigger] rule.head[i])
}

/// A user's rule becomes its encoding, and takes one fresh name for each position
/// with an edge in its body.
pub proof fn user_rules_are_encoded(
    rd: Reading,
    st: SlottedStateView,
    reserved: Seq<char>,
    next: nat,
    rule: RuleView,
)
    requires
        leaves_fit(st),
        rule_arities_fit(st.rewritten_ctors, rule),
    ensures
        rule_is_encoded(rd, st, rule, user_rule(st, reserved, next, rule).0),
        user_rule(st, reserved, next, rule).1 == next + body_positions(
            st.rewritten_ctors,
            rule.body,
            rule.body.len(),
        ),
{
    let ctors = st.rewritten_ctors;
    let cx = BodyContext { ctors, reserved };
    let n = rule.body.len();
    let body = body_facts(cx, rule.body, next, n);
    let out = user_rule(st, reserved, next, rule).0;
    rewritten_rule_is_the_users_rule(st, reserved, next, rule);
    body_edges_are_fresh_names(cx, rule.body, next, n);
    body_edge_names_prefix(ctors, body.facts, out.body, n);
    names_differ(cx, next, body.next);
    one_name_per_body_position(cx, rule.body, next, n);
    body_facts_next_grows(cx, rule.body, next, 0, n);
    facts_recorded_at_edges(cx, rule.body, next, n);
    body_slotted_uses_prefix(ctors, body.facts, out.body, n);
    let uses = body_slotted_uses(ctors, out.body, n);
    assert(uses == body.uses);
    assert forall|v: Seq<char>, i: int, f: FactView| #[trigger]
        equates_neighbours(ctors, out.body, n, rule.span, f, v, i) implies out.body.skip(
        n as int,
    ).contains(f) by {
        paired_are_the_entries_of_the_name(uses, v);
        paths_of_a_variable_are_equated(rule.span, uses, v, i);
        assert(paths_of(uses, v)[i] == uses.filter(of_name(v))[i].1);
        assert(paths_of(uses, v)[i + 1] == uses.filter(of_name(v))[i + 1].1);
    }
    assert forall|f: FactView| #[trigger] out.body.skip(n as int).contains(f) implies exists|
        v: Seq<char>,
        i: int,
    | #[trigger] equates_neighbours(ctors, out.body, n, rule.span, f, v, i) by {
        constraints_stand_between_slotted_paths(st, reserved, next, rule, f);
        let (v, i) = choose|v: Seq<char>, i: int|
            0 <= i && i + 1 < paths_of(uses, v).len() && f == FactView::Eq(
                rule.span,
                #[trigger] paths_of(uses, v)[i],
                paths_of(uses, v)[i + 1],
            );
        paired_are_the_entries_of_the_name(uses, v);
        assert(equates_neighbours(ctors, out.body, n, rule.span, f, v, i));
    }
    let seen = |v: Seq<char>| body_view(rd, ctors, out.body, n, v);
    assert forall|j: int| 0 <= j < rule.head.len() implies action_shows_views(
        rd,
        known_in_head(st, seen),
        rule.head[j],
        #[trigger] out.head[j],
    ) by {
        assert(action_arities_fit(ctors, rule.head[j]));
        rule_heads_show_the_views_of_the_body(rd, st, reserved, next, rule, j);
    }
}

// ---------------------------------------------------------------------------
// Commands
// ---------------------------------------------------------------------------
/// Whether a schedule is the user's with the slotted rules saturated after each of
/// its run steps.
pub open spec fn schedule_is_encoded(s: ScheduleView, out: ScheduleView) -> bool {
    &&& plain_schedule(out) == s
    &&& every_run_is_saturated(out)
    &&& run_steps(out) == 2 * run_steps(s)
}

/// Whether a command is the encoding of a user's command: the same command with
/// the same parts, with edges in its terms and saturations in its schedule.
pub open spec fn is_encoding_of(
    rd: Reading,
    st: SlottedStateView,
    cmd: NCommandView,
    out: CommandView,
) -> bool
    decreases cmd,
{
    let k = known_outside(st);
    match cmd {
        NCommandView::Sort { span, name, presort_and_args } => out == (CommandView::Sort {
            span,
            name,
            presort_and_args,
        }),
        NCommandView::Function(decl) => out == CommandView::Function(decl),
        NCommandView::AddRuleset(span, name) => out == CommandView::AddRuleset(span, name),
        NCommandView::UnstableCombinedRuleset(span, name, parts) => out
            == CommandView::UnstableCombinedRuleset(span, name, parts),
        NCommandView::NormRule { rule } => out matches CommandView::Rule { rule: o }
            && rule_is_encoded(rd, st, rule, o),
        NCommandView::CoreAction(a) => out matches CommandView::Action(o) && action_shows_views(
            rd,
            k,
            a,
            o,
        ),
        NCommandView::Extract(span, e, variants) => out matches CommandView::Extract(span2, x, y)
            && span2 == span && shows_views(rd, k, e, x) && shows_views(rd, k, variants, y),
        NCommandView::RunSchedule(s) => out matches CommandView::RunSchedule(o)
            && schedule_is_encoded(s, o),
        NCommandView::Check(span, fs) => out matches CommandView::Check(span2, gs) && span2 == span
            && gs.len() == fs.len() && forall|i: int|
            0 <= i < fs.len() ==> fact_shows_views(rd, k, fs[i], #[trigger] gs[i]),
        NCommandView::Output { span, file, exprs } => out matches CommandView::Output {
            span: span2,
            file: file2,
            exprs: outs,
        } && span2 == span && file2 == file && all_show_views(rd, k, exprs, outs),
        NCommandView::Fail(span, inner) => out matches CommandView::Fail(span2, o) && span2 == span
            && is_encoding_of(rd, st, *inner, *o),
        NCommandView::Other(span, text) => out == CommandView::Other(span, text),
    }
}

/// Whether every call of a rewritten constructor in a command has the arguments
/// that the constructor was declared with.
pub open spec fn command_arities_fit(ctors: Map<Seq<char>, Seq<bool>>, cmd: NCommandView) -> bool
    decreases cmd,
{
    match cmd {
        NCommandView::NormRule { rule } => rule_arities_fit(ctors, rule),
        NCommandView::CoreAction(a) => action_arities_fit(ctors, a),
        NCommandView::Extract(_, e, variants) => arities_fit(ctors, e) && arities_fit(
            ctors,
            variants,
        ),
        NCommandView::Check(_, fs) => forall|i: int|
            0 <= i < fs.len() ==> fact_arities_fit(ctors, #[trigger] fs[i]),
        NCommandView::Output { exprs, .. } => first_arities_fit(ctors, exprs, exprs.len()),
        NCommandView::Fail(_, inner) => command_arities_fit(ctors, *inner),
        _ => true,
    }
}

/// A command that is rewritten becomes its encoding.
proof fn rewritten_commands_are_encoded(rd: Reading, enc: EncoderView, cmd: NCommandView)
    requires
        leaves_fit(enc.state),
        command_arities_fit(enc.state.rewritten_ctors, cmd),
    ensures
        is_encoding_of(rd, enc.state, cmd, rewritten_command(enc, command_of(cmd)).0),
    decreases cmd,
{
    let st = enc.state;
    match cmd {
        NCommandView::NormRule { rule } => {
            user_rules_are_encoded(rd, st, enc.reserved, enc.count, rule);
        },
        NCommandView::CoreAction(a) => {
            actions_outside_rules_show_the_slots(rd, st, a);
        },
        NCommandView::Extract(_, e, variants) => {
            edges_outside_rules_show_the_slots(rd, st, e);
            edges_outside_rules_show_the_slots(rd, st, variants);
        },
        NCommandView::RunSchedule(s) => {
            instrumenting_only_adds_saturation(s);
            every_run_step_gets_its_saturation(s);
        },
        NCommandView::Check(_, fs) => {
            let gs = top_facts(st, fs);
            assert forall|i: int| 0 <= i < fs.len() implies fact_shows_views(
                rd,
                known_outside(st),
                fs[i],
                #[trigger] gs[i],
            ) by {
                assert(fact_arities_fit(st.rewritten_ctors, fs[i]));
                facts_outside_rules_show_the_slots(rd, st, fs[i]);
            }
        },
        NCommandView::Output { exprs, .. } => {
            all_top_exprs_show_views(rd, st, exprs);
        },
        NCommandView::Fail(_, inner) => {
            rewritten_commands_are_encoded(rd, enc, *inner);
        },
        _ => {},
    }
}

/// Whether a command declares a sort with slots.
pub open spec fn declares_slots(cmd: NCommandView) -> bool {
    cmd matches NCommandView::Sort { presort_and_args: None, .. }
}

/// Whether a command declares a constructor of a sort with slots.
pub open spec fn declares_slotted_constructor(st: SlottedStateView, cmd: NCommandView) -> bool {
    cmd matches NCommandView::Function(decl) && decl.subtype is Constructor && st.u_sorts.contains(
        decl.schema.output,
    )
}

/// Every command that does not declare a sort with slots or a constructor of one
/// becomes its encoding and nothing else.
pub proof fn every_command_becomes_its_encoding(rd: Reading, enc: EncoderView, cmd: NCommandView)
    requires
        leaves_fit(enc.state),
        command_arities_fit(enc.state.rewritten_ctors, cmd),
        !declares_slots(cmd),
        !declares_slotted_constructor(enc.state, cmd),
    ensures
        handled(enc, cmd).0.len() == 1,
        is_encoding_of(rd, enc.state, cmd, handled(enc, cmd).0[0]),
{
    rewritten_commands_are_encoded(rd, enc, cmd);
}

// ---------------------------------------------------------------------------
// Declarations
// ---------------------------------------------------------------------------
/// The declaration of a sort with slots stays and comes first. Behind the first of
/// a program come the sort of renamings, as maps between integers, and the
/// `slotted` ruleset; behind each come its leader relation and the rule for it.
/// From then on the sort carries slots.
pub proof fn a_sort_with_slots_brings_its_preamble(enc: EncoderView, span: Span, name: Seq<char>)
    ensures
        ({
            let cmd = NCommandView::Sort { span, name, presort_and_args: None };
            let (cmds, after) = handled(enc, cmd);
            let at = if enc.state.renaming_sort_emitted {
                1int
            } else {
                3int
            };
            &&& cmds.len() == at + 2
            &&& cmds[0] == (CommandView::Sort { span, name, presort_and_args: None })
            &&& !enc.state.renaming_sort_emitted ==> {
                &&& cmds[1] matches CommandView::Sort {
                    name: renaming,
                    presort_and_args: Some((presort, args)),
                    ..
                } && renaming == "Renaming"@ && presort == "Map"@ && args.len() == 2 && (
                args[0] matches ExprView::Var(_, a) && a == "i64"@) && (
                args[1] matches ExprView::Var(_, b) && b == "i64"@)
                &&& cmds[2] matches CommandView::AddRuleset(_, ruleset) && ruleset == "slotted"@
            }
            &&& cmds[at] matches CommandView::Relation { name: relation, inputs, .. } && relation
                == "RenamesToLeader_"@ + name && inputs == seq![name, name, "Renaming"@]
            &&& cmds[at + 1]
                == crate::slotted_encoding::machinery::transitivity_rule(name)
            &&& after.state.u_sorts == enc.state.u_sorts.insert(name)
            &&& after.state.renaming_sort_emitted
            &&& after.state.rewritten_ctors == enc.state.rewritten_ctors
            &&& after.state.leaf_ctors == enc.state.leaf_ctors
            &&& after.state.let_outer_slots == enc.state.let_outer_slots
            &&& after.reserved == enc.reserved && after.count == enc.count
        }),
{
    let cmd = NCommandView::Sort { span, name, presort_and_args: None };
    let cmds = handled(enc, cmd).0;
    if enc.state.renaming_sort_emitted {
        assert(cmds.len() == 3);
    } else {
        assert(cmds.len() == 5);
    }
}

/// Whether a mask says of each argument whether its sort carries slots.
pub open spec fn marks_slotted_inputs(
    u_sorts: Set<Seq<char>>,
    inputs: Seq<Seq<char>>,
    mask: Seq<bool>,
) -> bool {
    &&& mask.len() == inputs.len()
    &&& forall|i: int| 0 <= i < inputs.len() ==> (#[trigger] mask[i] <==> u_sorts.contains(
        inputs[i],
    ))
}

/// The declaration of a constructor of a sort with slots records which of its
/// arguments carry slots. Where some do, it becomes the declaration with edges and
/// the rules of the constructor. Where none does it stays; it makes a leaf, with
/// the rule for leaves behind it, where its one argument is an integer.
pub proof fn a_constructor_records_its_slotted_arguments(enc: EncoderView, decl: FunctionDeclView)
    requires
        decl.subtype is Constructor,
        enc.state.u_sorts.contains(decl.schema.output),
    ensures
        ({
            let st = enc.state;
            let (cmds, after) = handled(enc, NCommandView::Function(decl));
            let inputs = decl.schema.input;
            let mask = after.state.rewritten_ctors[decl.name];
            let compound = exists|i: int| 0 <= i < inputs.len() && st.u_sorts.contains(
                #[trigger] inputs[i],
            );
            let leaf = !compound && inputs.len() == 1 && inputs[0] == "i64"@;
            &&& after.state.rewritten_ctors == st.rewritten_ctors.insert(decl.name, mask)
            &&& marks_slotted_inputs(st.u_sorts, inputs, mask)
            &&& after.state.leaf_ctors == if leaf {
                st.leaf_ctors.insert(decl.name)
            } else {
                st.leaf_ctors
            }
            &&& compound ==> cmds == compound_machinery(
                decl.name,
                inputs,
                decl.schema.output,
                mask,
            )
            &&& !compound ==> cmds[0] == CommandView::Function(decl)
            &&& leaf ==> cmds.len() == 2 && cmds[1]
                == crate::slotted_encoding::machinery::leaf_pair_rule(
                decl.name,
                decl.schema.output,
            )
            &&& !compound && !leaf ==> cmds.len() == 1
            &&& after.state.u_sorts == st.u_sorts
            &&& after.state.let_outer_slots == st.let_outer_slots
            &&& after.state.renaming_sort_emitted == st.renaming_sort_emitted
            &&& after.reserved == enc.reserved && after.count == enc.count
        }),
{
    let st = enc.state;
    let inputs = decl.schema.input;
    let mask = crate::slotted_encoding::program::slot_mask(st.u_sorts, inputs);
    assert forall|i: int| 0 <= i < inputs.len() implies (#[trigger] mask[i]
        <==> st.u_sorts.contains(inputs[i])) by {}
    if mask.contains(true) {
        let i = mask.index_of(true);
        assert(st.u_sorts.contains(inputs[i]));
    }
    if exists|i: int| 0 <= i < inputs.len() && st.u_sorts.contains(#[trigger] inputs[i]) {
        let i = choose|i: int| 0 <= i < inputs.len() && st.u_sorts.contains(#[trigger] inputs[i]);
        assert(mask[i]);
        assert(mask.contains(true));
    }
}

// ---------------------------------------------------------------------------
// What is remembered
// ---------------------------------------------------------------------------
/// The command below all marks that it should fail.
pub open spec fn innermost(cmd: NCommandView) -> NCommandView
    decreases cmd,
{
    match cmd {
        NCommandView::Fail(_, inner) => innermost(*inner),
        _ => cmd,
    }
}

/// The name that a command gives to a term, and the term.
pub open spec fn named_by(cmd: NCommandView) -> Option<(Seq<char>, ExprView)> {
    match cmd {
        NCommandView::CoreAction(ActionView::Let(_, v, e)) => Some((v, e)),
        NCommandView::CoreAction(ActionView::Assign(_, head, args, val)) => if args.len() == 0 {
            Some((head, val))
        } else {
            None
        },
        _ => None,
    }
}

/// Commands that declare nothing leave the known sorts and constructors as they
/// are. Only a command that names a term changes the slots of names, and only at
/// that name; only a rule takes fresh names.
pub proof fn commands_remember_only_names(enc: EncoderView, cmd: NCommandView)
    requires
        !declares_slots(cmd),
        !declares_slotted_constructor(enc.state, cmd),
    ensures
        ({
            let after = handled(enc, cmd).1;
            &&& after.state.u_sorts == enc.state.u_sorts
            &&& after.state.rewritten_ctors == enc.state.rewritten_ctors
            &&& after.state.leaf_ctors == enc.state.leaf_ctors
            &&& after.state.renaming_sort_emitted == enc.state.renaming_sort_emitted
            &&& after.reserved == enc.reserved
            &&& !(innermost(cmd) is NormRule) ==> after.count == enc.count
            &&& named_by(innermost(cmd)) is None ==> after.state.let_outer_slots
                == enc.state.let_outer_slots
            &&& named_by(innermost(cmd)) matches Some((v, _))
                ==> after.state.let_outer_slots.remove(v) == enc.state.let_outer_slots.remove(v)
        }),
{
    if cmd is Function {
    } else {
        rewriting_remembers_only_names(enc, cmd);
    }
}

/// The same, for commands that are rewritten.
proof fn rewriting_remembers_only_names(enc: EncoderView, cmd: NCommandView)
    ensures
        ({
            let after = rewritten_command(enc, command_of(cmd)).1;
            &&& after.state.u_sorts == enc.state.u_sorts
            &&& after.state.rewritten_ctors == enc.state.rewritten_ctors
            &&& after.state.leaf_ctors == enc.state.leaf_ctors
            &&& after.state.renaming_sort_emitted == enc.state.renaming_sort_emitted
            &&& after.reserved == enc.reserved
            &&& !(innermost(cmd) is NormRule) ==> after.count == enc.count
            &&& named_by(innermost(cmd)) is None ==> after.state.let_outer_slots
                == enc.state.let_outer_slots
            &&& named_by(innermost(cmd)) matches Some((v, _))
                ==> after.state.let_outer_slots.remove(v) == enc.state.let_outer_slots.remove(v)
        }),
    decreases cmd,
{
    let after = rewritten_command(enc, command_of(cmd)).1;
    if let NCommandView::Fail(_, inner) = cmd {
        rewriting_remembers_only_names(enc, *inner);
    } else if let Some((v, _)) = named_by(cmd) {
        assert(after.state.let_outer_slots.remove(v) =~= enc.state.let_outer_slots.remove(v));
    }
}

/// Outside rules, a name is seen as the term that it was last given to: by the
/// identity at that term's slots. (A name keeps its slots when it is given to a
/// term without any.)
pub proof fn names_are_seen_as_their_terms(
    rd: Reading,
    enc: EncoderView,
    cmd: NCommandView,
    span: Span,
)
    requires
        leaves_fit(enc.state),
        named_by(innermost(cmd)) matches Some((v, e)) && arities_fit(
            enc.state.rewritten_ctors,
            e,
        ) && (view_of(rd, known_outside(enc.state), e) != Map::<Value, Value>::empty()
            || !enc.state.let_outer_slots.contains_key(v)),
    ensures
        ({
            let (v, e) = named_by(innermost(cmd))->0;
            view_of(
                rd,
                known_outside(handled(enc, cmd).1.state),
                ExprView::Call(span, v, Seq::empty()),
            ) == view_of(rd, known_outside(enc.state), e)
        }),
    decreases cmd,
{
    let (v, e) = named_by(innermost(cmd))->0;
    let none = Map::<Value, Value>::empty();
    if let NCommandView::Fail(_, inner) = cmd {
        names_are_seen_as_their_terms(rd, enc, *inner, span);
    } else {
        edges_outside_rules_show_the_slots(rd, enc.state, e);
        let slots = expr_with_slots(enc.state, e).1;
        let st = handled(enc, cmd).1.state;
        let k = known_outside(st);
        let call = ExprView::Call(span, v, Seq::empty());
        if slots.len() == 0 {
            assert(slot_values(rd, slots) =~= Set::empty());
            assert(identity_on(slot_values(rd, slots)) =~= none);
            let views = crate::slotted_encoding::views::views_of(rd, k, Seq::empty());
            if st.rewritten_ctors.contains_key(v) {
                assert(crate::slotted_encoding::views::slotted_values(
                    views,
                    st.rewritten_ctors[v],
                ) =~= Set::empty());
                assert(identity_on(Set::empty()) =~= none);
            }
        } else {
            assert(st.let_outer_slots.contains_key(v) && st.let_outer_slots[v] == slots);
        }
    }
}

/// Outside rules, a name that is given to a term without slots is not remembered
/// for it: what was known before is known after.
pub proof fn terms_without_slots_are_not_remembered(
    rd: Reading,
    enc: EncoderView,
    cmd: NCommandView,
)
    requires
        leaves_fit(enc.state),
        named_by(innermost(cmd)) matches Some((v, e)) && arities_fit(enc.state.rewritten_ctors, e)
            && view_of(rd, known_outside(enc.state), e) == Map::<Value, Value>::empty(),
    ensures
        handled(enc, cmd).1 == enc,
    decreases cmd,
{
    let (v, e) = named_by(innermost(cmd))->0;
    if let NCommandView::Fail(_, inner) = cmd {
        terms_without_slots_are_not_remembered(rd, enc, *inner);
    } else {
        edges_outside_rules_show_the_slots(rd, enc.state, e);
        let slots = expr_with_slots(enc.state, e).1;
        if slots.len() > 0 {
            let value = (rd.int_value)(slots[0]);
            assert(slot_values(rd, slots).contains(value));
            assert(identity_on(slot_values(rd, slots)).contains_key(value));
        }
    }
}

/// Nothing is known before the first command, so the first sort with slots brings
/// the sort of renamings.
pub proof fn nothing_is_known_at_first(
    reserved: Seq<char>,
    count: nat,
    span: Span,
    name: Seq<char>,
)
    ensures
        ({
            let enc = EncoderView { state: initial_state(), reserved, count };
            let cmds = handled(
                enc,
                NCommandView::Sort { span, name, presort_and_args: None },
            ).0;
            &&& !enc.state.u_sorts.contains(name)
            &&& !enc.state.rewritten_ctors.contains_key(name)
            &&& !enc.state.leaf_ctors.contains(name)
            &&& !enc.state.let_outer_slots.contains_key(name)
            &&& cmds.len() == 5
            &&& cmds[1] matches CommandView::Sort { name: renaming, .. } && renaming
                == "Renaming"@
        }),
{
    a_sort_with_slots_brings_its_preamble(
        EncoderView { state: initial_state(), reserved, count },
        span,
        name,
    );
}

// ---------------------------------------------------------------------------
// Programs
// ---------------------------------------------------------------------------
/// Whether a command may bring data that the slotted rules have not seen: all but
/// declarations and rules do.
pub open spec fn may_bring_data(cmd: NCommandView) -> bool {
    !(cmd is Sort || cmd is Function || cmd is NormRule || cmd is AddRuleset
        || cmd is UnstableCombinedRuleset)
}

/// A program of one command becomes what that command becomes, followed by the
/// saturation of the slotted rules exactly if the command may bring data and a sort
/// with slots is known. Together with the law on programs in pieces this says what
/// every program becomes.
pub proof fn one_command_and_its_maintenance(enc: EncoderView, cmd: NCommandView)
    ensures
        ({
            let (cmds, after) = encoded(enc, seq![cmd], 1);
            let own = handled(enc, cmd).0;
            &&& after == handled(enc, cmd).1
            &&& if may_bring_data(cmd) && after.state.renaming_sort_emitted {
                &&& cmds.len() == own.len() + 1
                &&& cmds.take(own.len() as int) == own
                &&& cmds.last() matches CommandView::RunSchedule(s) && saturates_slotted(s)
            } else {
                cmds == own
            }
        }),
{
    let (cmds, after) = encoded(enc, seq![cmd], 1);
    let own = handled(enc, cmd).0;
    let (front, before) = encoded(enc, seq![cmd], 0);
    assert(front =~= Seq::empty() && before == enc);
    assert(seq![cmd][0] == cmd);
    assert(cmds =~= maintained(enc, cmd).0);
    assert(after == maintained(enc, cmd).1);
    if may_bring_data(cmd) && after.state.renaming_sort_emitted {
        assert(cmds.take(own.len() as int) =~= own);
    }
}

/// A program without commands becomes nothing and is not remembered.
pub proof fn no_commands_become_nothing(enc: EncoderView)
    ensures
        encoded(enc, Seq::empty(), 0) == (Seq::<CommandView>::empty(), enc),
{
}

} // verus!
