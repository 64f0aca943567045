//! How many fresh names a program can need.

use vstd::prelude::*;

use crate::ast::{
    call_view, command_of, exprs, facts, program, Expr, ExprView, Fact, FactView, NCommand,
    NCommandView,
};
use crate::slotted_encoding::model::{
    body_args, body_expr, body_facts, edge_mask, path_through, path_without_edge, rename_name,
    rewritten_command, shorter, BodyContext, EncoderView,
};
use crate::slotted_encoding::program::encoded;

verus! {

/// How many arguments the calls of an expression have together.
pub open spec fn expr_size(e: ExprView) -> nat
    decreases e, 0nat,
{
    match e {
        ExprView::Call(span, head, args) => args.len() + exprs_size(args, args.len()),
        _ => 0,
    }
}

/// How many arguments the calls of the first `n` expressions have together.
pub open spec fn exprs_size(args: Seq<ExprView>, n: nat) -> nat
    decreases args, n,
{
    if n == 0 || n > args.len() {
        0
    } else {
        exprs_size(args, (n - 1) as nat) + expr_size(args[n - 1])
    }
}

/// How many arguments the calls of a fact have together.
pub open spec fn fact_size(f: FactView) -> nat {
    match f {
        FactView::Eq(_, lhs, rhs) => expr_size(lhs) + expr_size(rhs),
        FactView::Fact(e) => expr_size(e),
    }
}

/// How many arguments the calls of the first `n` facts have together.
pub open spec fn facts_size(fs: Seq<FactView>, n: nat) -> nat
    decreases n,
{
    if n == 0 {
        0
    } else {
        facts_size(fs, (n - 1) as nat) + fact_size(fs[n - 1])
    }
}

/// How many arguments the calls in rule bodies of a command have together.
pub open spec fn command_size(cmd: NCommandView) -> nat
    decreases cmd,
{
    match cmd {
        NCommandView::NormRule { rule } => facts_size(rule.body, rule.body.len()),
        NCommandView::Fail(span, inner) => command_size(*inner),
        _ => 0,
    }
}

/// How many arguments the calls in rule bodies of the first `n` commands have
/// together.
pub open spec fn program_size(prog: Seq<NCommandView>, n: nat) -> nat
    decreases n,
{
    if n == 0 {
        0
    } else {
        program_size(prog, (n - 1) as nat) + command_size(prog[n - 1])
    }
}

/// Rewriting a body expression makes at most one name per argument.
proof fn body_expr_names_are_few(
    cx: BodyContext,
    e: ExprView,
    path: Option<ExprView>,
    next: nat,
)
    ensures
        body_expr(cx, e, path, next).next <= next + expr_size(e),
    decreases e, 0nat,
{
    if let ExprView::Call(span, head, args) = e {
        let mask = edge_mask(cx.ctors, head, args.len());
        let n = shorter(args.len(), mask.len());
        body_args_names_are_few(cx, span, args, mask, path, next, n);
        exprs_size_grows(args, n, args.len());
    }
}

/// More expressions have no fewer arguments.
proof fn exprs_size_grows(args: Seq<ExprView>, m: nat, n: nat)
    requires
        m <= n <= args.len(),
    ensures
        exprs_size(args, m) <= exprs_size(args, n),
    decreases n,
{
    if m < n {
        exprs_size_grows(args, m, (n - 1) as nat);
    }
}

/// Rewriting the first `n` arguments of a call makes at most one name for each,
/// and one per argument below them.
proof fn body_args_names_are_few(
    cx: BodyContext,
    span: crate::ast::Span,
    args: Seq<ExprView>,
    mask: Seq<bool>,
    path: Option<ExprView>,
    next: nat,
    n: nat,
)
    requires
        n <= args.len(),
    ensures
        body_args(cx, span, args, mask, path, next, n).next <= next + n + exprs_size(args, n),
    decreases args, n,
{
    if n > 0 {
        let k = (n - 1) as nat;
        let front = body_args(cx, span, args, mask, path, next, k);
        body_args_names_are_few(cx, span, args, mask, path, next, k);
        let edge = ExprView::Var(span, rename_name(cx, front.next));
        body_expr_names_are_few(
            cx,
            args[n - 1],
            Some(path_through(span, path, edge)),
            front.next + 1,
        );
        body_expr_names_are_few(
            cx,
            args[n - 1],
            path_without_edge(args[n - 1], path),
            front.next,
        );
    }
}

/// Rewriting the first `n` facts makes at most one name per argument.
proof fn body_facts_names_are_few(cx: BodyContext, fs: Seq<FactView>, next: nat, n: nat)
    ensures
        body_facts(cx, fs, next, n).next <= next + facts_size(fs, n),
    decreases n,
{
    if n > 0 {
        let k = (n - 1) as nat;
        body_facts_names_are_few(cx, fs, next, k);
        let start = body_facts(cx, fs, next, k).next;
        match fs[n - 1] {
            FactView::Eq(span, lhs, rhs) => {
                body_expr_names_are_few(cx, lhs, None, start);
                body_expr_names_are_few(cx, rhs, None, body_expr(cx, lhs, None, start).next);
            },
            FactView::Fact(e) => {
                body_expr_names_are_few(cx, e, None, start);
            },
        }
    }
}

/// Rewriting a command makes at most one name per argument in rule bodies.
proof fn command_names_are_few(enc: EncoderView, cmd: NCommandView)
    ensures
        rewritten_command(enc, command_of(cmd)).1.count <= enc.count + command_size(cmd),
    decreases cmd,
{
    match cmd {
        NCommandView::NormRule { rule } => {
            let cx = BodyContext { ctors: enc.state.rewritten_ctors, reserved: enc.reserved };
            body_facts_names_are_few(cx, rule.body, enc.count, rule.body.len());
        },
        NCommandView::Fail(span, inner) => {
            command_names_are_few(enc, *inner);
        },
        _ => {},
    }
}

/// Encoding a program makes at most one fresh name for each argument in its rule
/// bodies.
pub proof fn fresh_names_are_few(enc: EncoderView, prog: Seq<NCommandView>, n: nat)
    ensures
        encoded(enc, prog, n).1.count <= enc.count + program_size(prog, n),
    decreases n,
{
    if n > 0 {
        let k = (n - 1) as nat;
        fresh_names_are_few(enc, prog, k);
        command_names_are_few(encoded(enc, prog, k).1, prog[n - 1]);
    }
}

/// What is left of `left` after a use of `size`, if it is enough.
pub open spec fn left_after(left: usize, size: nat) -> Option<usize> {
    if size <= left {
        Some((left - size) as usize)
    } else {
        None
    }
}

/// What is left of `left` after the arguments of an expression.
fn spend_expr(e: &Expr, left: usize) -> (r: Option<usize>)
    ensures
        r == left_after(left, expr_size(e@)),
    decreases e,
{
    match e {
        Expr::Call(span, head, args) => {
            proof {
                call_view(*e);
            }
            let ghost views = exprs(args@);
            if args.len() > left {
                return None;
            }
            let mut rest: usize = left - args.len();
            let mut i: usize = 0;
            while i < args.len()
                invariant
                    i <= args.len(),
                    e matches Expr::Call(_, _, a) && a == args,
                    views == exprs(args@),
                    expr_size(e@) == views.len() + exprs_size(views, views.len()),
                    left_after(left, views.len() + exprs_size(views, i as nat)) == Some(rest),
                decreases args.len() - i,
            {
                assert(views[i as int] == args@[i as int]@);
                match spend_expr(&args[i], rest) {
                    Some(after) => {
                        rest = after;
                    },
                    None => {
                        proof {
                            exprs_size_grows(views, (i + 1) as nat, views.len());
                        }
                        return None;
                    },
                }
                i += 1;
            }
            Some(rest)
        },
        _ => Some(left),
    }
}

/// What is left of `left` after the arguments of a fact.
fn spend_fact(f: &Fact, left: usize) -> (r: Option<usize>)
    ensures
        r == left_after(left, fact_size(f@)),
{
    match f {
        Fact::Eq(_, lhs, rhs) => match spend_expr(lhs, left) {
            Some(rest) => spend_expr(rhs, rest),
            None => None,
        },
        Fact::Fact(e) => spend_expr(e, left),
    }
}

/// More facts have no fewer arguments.
proof fn facts_size_grows(fs: Seq<FactView>, m: nat, n: nat)
    requires
        m <= n,
    ensures
        facts_size(fs, m) <= facts_size(fs, n),
    decreases n,
{
    if m < n {
        facts_size_grows(fs, m, (n - 1) as nat);
    }
}

/// What is left of `left` after the arguments of some facts.
fn spend_facts(fs: &Vec<Fact>, left: usize) -> (r: Option<usize>)
    ensures
        r == left_after(left, facts_size(facts(fs@), fs@.len())),
{
    let mut rest: usize = left;
    let mut i: usize = 0;
    while i < fs.len()
        invariant
            i <= fs.len(),
            left_after(left, facts_size(facts(fs@), i as nat)) == Some(rest),
        decreases fs.len() - i,
    {
        assert(facts(fs@)[i as int] == fs@[i as int]@);
        match spend_fact(&fs[i], rest) {
            Some(after) => {
                rest = after;
            },
            None => {
                proof {
                    facts_size_grows(facts(fs@), (i + 1) as nat, fs@.len());
                }
                return None;
            },
        }
        i += 1;
    }
    Some(rest)
}

/// What is left of `left` after the arguments in the rule bodies of a command.
fn spend_command(cmd: &NCommand, left: usize) -> (r: Option<usize>)
    ensures
        r == left_after(left, command_size(cmd@)),
    decreases cmd,
{
    match cmd {
        NCommand::NormRule { rule } => spend_facts(&rule.body, left),
        NCommand::Fail(_, inner) => spend_command(inner, left),
        _ => Some(left),
    }
}

/// More commands have no fewer arguments.
proof fn program_size_grows(prog: Seq<NCommandView>, m: nat, n: nat)
    requires
        m <= n,
    ensures
        program_size(prog, m) <= program_size(prog, n),
    decreases n,
{
    if m < n {
        program_size_grows(prog, m, (n - 1) as nat);
    }
}

/// What is left of `left` after the arguments in the rule bodies of a program.
pub fn spend_program(prog: &Vec<NCommand>, left: usize) -> (r: Option<usize>)
    ensures
        r == left_after(left, program_size(program(prog@), prog@.len())),
{
    let mut rest: usize = left;
    let mut i: usize = 0;
    while i < prog.len()
        invariant
            i <= prog.len(),
            left_after(left, program_size(program(prog@), i as nat)) == Some(rest),
        decreases prog.len() - i,
    {
        assert(program(prog@)[i as int] == prog@[i as int]@);
        match spend_command(&prog[i], rest) {
            Some(after) => {
                rest = after;
            },
            None => {
                proof {
                    program_size_grows(program(prog@), (i + 1) as nat, prog@.len());
                }
                return None;
            },
        }
        i += 1;
    }
    Some(rest)
}

} // verus!
