//! The text of syntax in the surface language.

use vstd::prelude::*;
use vstd::string::*;

use crate::ast::{
    actions, call_view, exprs, facts, presort_view, schedules, sequence_view, Action, ActionView,
    Change, Command, CommandView, Expr, ExprView, Fact, FactView, FunctionDecl, FunctionDeclView,
    FunctionSubtype, Literal, LiteralView, Rule, RuleView, RunConfig, RunConfigView, Schedule,
    ScheduleView,
};
use crate::names::{decimal, nothing_is_joined, push_decimal, text_is_joined, texts};

verus! {

broadcast use {text_is_joined, nothing_is_joined};

// ---------------------------------------------------------------------------
// Lists
// ---------------------------------------------------------------------------
/// The first `n` texts, with a space between each two.
pub open spec fn first_spaced(parts: Seq<Seq<char>>, n: nat) -> Seq<char>
    decreases n,
{
    if n == 0 {
        Seq::empty()
    } else if n == 1 {
        parts[0]
    } else {
        first_spaced(parts, (n - 1) as nat) + " "@ + parts[n - 1]
    }
}

/// The texts, with a space between each two.
pub open spec fn spaced(parts: Seq<Seq<char>>) -> Seq<char> {
    first_spaced(parts, parts.len())
}

/// Text between quotation marks.
pub open spec fn quoted(s: Seq<char>) -> Seq<char> {
    "\""@ + s + "\""@
}

/// Appends text between quotation marks.
fn push_quoted(out: &mut String, s: &String)
    ensures
        final(out)@ == old(out)@ + quoted(s@),
{
    out.append("\"");
    out.append(s.as_str());
    out.append("\"");
}

/// Appends names, with a space between each two.
fn push_names(out: &mut String, names: &Vec<String>)
    ensures
        final(out)@ == old(out)@ + spaced(texts(names@)),
{
    let ghost start = out@;
    let ghost parts = texts(names@);
    let mut i: usize = 0;
    while i < names.len()
        invariant
            i <= names.len(),
            parts == texts(names@),
            out@ == start + first_spaced(parts, i as nat),
        decreases names.len() - i,
    {
        if i > 0 {
            out.append(" ");
        }
        out.append(names[i].as_str());
        i += 1;
    }
}

// ---------------------------------------------------------------------------
// Expressions
// ---------------------------------------------------------------------------
/// The text of an integer.
pub open spec fn int_text(n: i64) -> Seq<char> {
    if n < 0 {
        "-"@ + decimal((-n) as nat)
    } else {
        decimal(n as nat)
    }
}

/// The text of a literal.
pub open spec fn literal_text(lit: LiteralView) -> Seq<char> {
    match lit {
        LiteralView::Int(n) => int_text(n),
        LiteralView::Float(text) => text,
        LiteralView::Text(s) => quoted(s),
        LiteralView::Bool(true) => "true"@,
        LiteralView::Bool(false) => "false"@,
        LiteralView::Unit => "()"@,
    }
}

/// The text of an expression.
pub open spec fn expr_text(e: ExprView) -> Seq<char>
    decreases e, 0nat,
{
    match e {
        ExprView::Lit(_, lit) => literal_text(lit),
        ExprView::Var(_, name) => name,
        ExprView::Call(_, head, args) => "("@ + head + args_text(args, args.len()) + ")"@,
    }
}

/// The text of the first `n` arguments, each behind a space.
pub open spec fn args_text(args: Seq<ExprView>, n: nat) -> Seq<char>
    decreases args, n,
{
    if n == 0 || n > args.len() {
        Seq::empty()
    } else {
        args_text(args, (n - 1) as nat) + " "@ + expr_text(args[n - 1])
    }
}

/// Appends the text of an integer.
fn push_int(out: &mut String, n: i64)
    ensures
        final(out)@ == old(out)@ + int_text(n),
{
    if n < 0 {
        out.append("-");
        push_decimal(out, (-(n + 1)) as u64 + 1);
    } else {
        push_decimal(out, n as u64);
    }
}

/// Appends the text of a literal.
fn push_literal(out: &mut String, lit: &Literal)
    ensures
        final(out)@ == old(out)@ + literal_text(lit@),
{
    match lit {
        Literal::Int(n) => push_int(out, *n),
        Literal::Float(text) => out.append(text.as_str()),
        Literal::Text(s) => push_quoted(out, s),
        Literal::Bool(true) => out.append("true"),
        Literal::Bool(false) => out.append("false"),
        Literal::Unit => out.append("()"),
    }
}

/// Appends the text of an expression.
fn push_expr(out: &mut String, e: &Expr)
    ensures
        final(out)@ == old(out)@ + expr_text(e@),
    decreases e, 0nat,
{
    match e {
        Expr::Lit(_, lit) => push_literal(out, lit),
        Expr::Var(_, name) => out.append(name.as_str()),
        Expr::Call(_, head, args) => {
            proof {
                call_view(*e);
            }
            out.append("(");
            out.append(head.as_str());
            push_args(out, args);
            out.append(")");
        },
    }
}

/// Appends the text of arguments, each behind a space.
fn push_args(out: &mut String, args: &Vec<Expr>)
    ensures
        final(out)@ == old(out)@ + args_text(exprs(args@), args@.len()),
    decreases args, 1nat,
{
    let ghost start = out@;
    let mut i: usize = 0;
    while i < args.len()
        invariant
            i <= args.len(),
            out@ == start + args_text(exprs(args@), i as nat),
        decreases args.len() - i,
    {
        out.append(" ");
        push_expr(out, &args[i]);
        i += 1;
    }
}

// ---------------------------------------------------------------------------
// Facts
// ---------------------------------------------------------------------------
/// The text of a fact.
pub open spec fn fact_text(fact: FactView) -> Seq<char> {
    match fact {
        FactView::Eq(_, lhs, rhs) => "(= "@ + expr_text(lhs) + " "@ + expr_text(rhs) + ")"@,
        FactView::Fact(e) => expr_text(e),
    }
}

/// The text of facts, with a space between each two.
pub open spec fn facts_text(fs: Seq<FactView>) -> Seq<char> {
    spaced(fs.map_values(|f: FactView| fact_text(f)))
}

/// Appends the text of a fact.
fn push_fact(out: &mut String, fact: &Fact)
    ensures
        final(out)@ == old(out)@ + fact_text(fact@),
{
    match fact {
        Fact::Eq(_, lhs, rhs) => {
            out.append("(= ");
            push_expr(out, lhs);
            out.append(" ");
            push_expr(out, rhs);
            out.append(")");
        },
        Fact::Fact(e) => push_expr(out, e),
    }
}

/// Appends the text of facts.
fn push_facts(out: &mut String, fs: &Vec<Fact>)
    ensures
        final(out)@ == old(out)@ + facts_text(facts(fs@)),
{
    let ghost start = out@;
    let ghost parts = facts(fs@).map_values(|f: FactView| fact_text(f));
    let mut i: usize = 0;
    while i < fs.len()
        invariant
            i <= fs.len(),
            parts == facts(fs@).map_values(|f: FactView| fact_text(f)),
            out@ == start + first_spaced(parts, i as nat),
        decreases fs.len() - i,
    {
        if i > 0 {
            out.append(" ");
        }
        push_fact(out, &fs[i]);
        assert(parts[i as int] == fact_text(fs@[i as int]@));
        i += 1;
    }
}

// ---------------------------------------------------------------------------
// Actions and rules
// ---------------------------------------------------------------------------
/// The text of a call.
pub open spec fn call_text(head: Seq<char>, args: Seq<ExprView>) -> Seq<char> {
    "("@ + head + args_text(args, args.len()) + ")"@
}

/// The text of an action.
pub open spec fn action_text(action: ActionView) -> Seq<char> {
    match action {
        ActionView::Let(_, v, e) => "(let "@ + v + " "@ + expr_text(e) + ")"@,
        ActionView::Assign(_, head, args, val) => "(set "@ + call_text(head, args) + " "@
            + expr_text(val) + ")"@,
        ActionView::Change(_, Change::Delete, head, args) => "(delete "@ + call_text(head, args)
            + ")"@,
        ActionView::Change(_, Change::Subsume, head, args) => "(subsume "@ + call_text(head, args)
            + ")"@,
        ActionView::Union(_, lhs, rhs) => "(union "@ + expr_text(lhs) + " "@ + expr_text(rhs)
            + ")"@,
        ActionView::Panic(_, msg) => "(panic "@ + quoted(msg) + ")"@,
        ActionView::Expr(_, e) => expr_text(e),
    }
}

/// The text of actions, with a space between each two.
pub open spec fn actions_text(list: Seq<ActionView>) -> Seq<char> {
    spaced(list.map_values(|a: ActionView| action_text(a)))
}

/// The text of a rule. The ruleset and the name are left out where they are
/// empty.
pub open spec fn rule_text(rule: RuleView) -> Seq<char> {
    let ruleset = if rule.ruleset.len() == 0 {
        Seq::empty()
    } else {
        " :ruleset "@ + rule.ruleset
    };
    let name = if rule.name.len() == 0 {
        Seq::empty()
    } else {
        " :name "@ + quoted(rule.name)
    };
    "(rule ("@ + facts_text(rule.body) + ") ("@ + actions_text(rule.head) + ")"@ + ruleset + name
        + ")"@
}

/// Appends the text of a call.
fn push_call(out: &mut String, head: &String, args: &Vec<Expr>)
    ensures
        final(out)@ == old(out)@ + call_text(head@, exprs(args@)),
{
    out.append("(");
    out.append(head.as_str());
    push_args(out, args);
    out.append(")");
}

/// Appends the text of an action.
fn push_action(out: &mut String, action: &Action)
    ensures
        final(out)@ == old(out)@ + action_text(action@),
{
    match action {
        Action::Let(_, v, e) => {
            out.append("(let ");
            out.append(v.as_str());
            out.append(" ");
            push_expr(out, e);
            out.append(")");
        },
        Action::Assign(_, head, args, val) => {
            out.append("(set ");
            push_call(out, head, args);
            out.append(" ");
            push_expr(out, val);
            out.append(")");
        },
        Action::Change(_, change, head, args) => {
            match change {
                Change::Delete => out.append("(delete "),
                Change::Subsume => out.append("(subsume "),
            }
            push_call(out, head, args);
            out.append(")");
        },
        Action::Union(_, lhs, rhs) => {
            out.append("(union ");
            push_expr(out, lhs);
            out.append(" ");
            push_expr(out, rhs);
            out.append(")");
        },
        Action::Panic(_, msg) => {
            out.append("(panic ");
            push_quoted(out, msg);
            out.append(")");
        },
        Action::Expr(_, e) => push_expr(out, e),
    }
}

/// Appends the text of actions.
fn push_actions(out: &mut String, list: &Vec<Action>)
    ensures
        final(out)@ == old(out)@ + actions_text(actions(list@)),
{
    let ghost start = out@;
    let ghost parts = actions(list@).map_values(|a: ActionView| action_text(a));
    let mut i: usize = 0;
    while i < list.len()
        invariant
            i <= list.len(),
            parts == actions(list@).map_values(|a: ActionView| action_text(a)),
            out@ == start + first_spaced(parts, i as nat),
        decreases list.len() - i,
    {
        if i > 0 {
            out.append(" ");
        }
        push_action(out, &list[i]);
        assert(parts[i as int] == action_text(list@[i as int]@));
        i += 1;
    }
}

/// Whether a name has no characters.
fn is_empty(name: &String) -> (r: bool)
    ensures
        r == (name@.len() == 0),
{
    name.as_str().unicode_len() == 0
}

/// Appends the text of a rule.
fn push_rule(out: &mut String, rule: &Rule)
    ensures
        final(out)@ == old(out)@ + rule_text(rule@),
{
    out.append("(rule (");
    push_facts(out, &rule.body);
    out.append(") (");
    push_actions(out, &rule.head);
    out.append(")");
    if !is_empty(&rule.ruleset) {
        out.append(" :ruleset ");
        out.append(rule.ruleset.as_str());
    }
    if !is_empty(&rule.name) {
        out.append(" :name ");
        push_quoted(out, &rule.name);
    }
    out.append(")");
}

// ---------------------------------------------------------------------------
// Schedules
// ---------------------------------------------------------------------------
/// The text of a run step. The ruleset is left out where it is empty.
pub open spec fn run_text(config: RunConfigView) -> Seq<char> {
    let ruleset = if config.ruleset.len() == 0 {
        Seq::empty()
    } else {
        " "@ + config.ruleset
    };
    let until = match config.until {
        Some(fs) => " :until "@ + facts_text(fs),
        None => Seq::empty(),
    };
    "(run"@ + ruleset + until + ")"@
}

/// The text of a schedule.
pub open spec fn schedule_text(s: ScheduleView) -> Seq<char>
    decreases s, 0nat,
{
    match s {
        ScheduleView::Saturate(_, inner) => "(saturate "@ + schedule_text(*inner) + ")"@,
        ScheduleView::Repeat(_, n, inner) => "(repeat "@ + decimal(n as nat) + " "@
            + schedule_text(*inner) + ")"@,
        ScheduleView::Run(_, config) => run_text(config),
        ScheduleView::Sequence(_, items) => "(seq"@ + steps_text(items, items.len()) + ")"@,
    }
}

/// The text of the first `n` schedules, each behind a space.
pub open spec fn steps_text(items: Seq<ScheduleView>, n: nat) -> Seq<char>
    decreases items, n,
{
    if n == 0 || n > items.len() {
        Seq::empty()
    } else {
        steps_text(items, (n - 1) as nat) + " "@ + schedule_text(items[n - 1])
    }
}

/// Appends the text of a run step.
fn push_run(out: &mut String, config: &RunConfig)
    ensures
        final(out)@ == old(out)@ + run_text(config@),
{
    out.append("(run");
    if !is_empty(&config.ruleset) {
        out.append(" ");
        out.append(config.ruleset.as_str());
    }
    if let Some(fs) = &config.until {
        out.append(" :until ");
        push_facts(out, fs);
    }
    out.append(")");
}

/// Appends the text of a schedule.
fn push_schedule(out: &mut String, s: &Schedule)
    ensures
        final(out)@ == old(out)@ + schedule_text(s@),
    decreases s, 0nat,
{
    match s {
        Schedule::Saturate(_, inner) => {
            out.append("(saturate ");
            push_schedule(out, inner);
            out.append(")");
        },
        Schedule::Repeat(_, n, inner) => {
            out.append("(repeat ");
            push_decimal(out, *n as u64);
            out.append(" ");
            push_schedule(out, inner);
            out.append(")");
        },
        Schedule::Run(_, config) => push_run(out, config),
        Schedule::Sequence(_, items) => {
            proof {
                sequence_view(*s);
            }
            out.append("(seq");
            push_steps(out, items);
            out.append(")");
        },
    }
}

/// Appends the text of schedules, each behind a space.
fn push_steps(out: &mut String, items: &Vec<Schedule>)
    ensures
        final(out)@ == old(out)@ + steps_text(schedules(items@), items@.len()),
    decreases items, 1nat,
{
    let ghost start = out@;
    let mut i: usize = 0;
    while i < items.len()
        invariant
            i <= items.len(),
            out@ == start + steps_text(schedules(items@), i as nat),
        decreases items.len() - i,
    {
        out.append(" ");
        push_schedule(out, &items[i]);
        i += 1;
    }
}

// ---------------------------------------------------------------------------
// Commands
// ---------------------------------------------------------------------------
/// The text of the declaration of a sort.
pub open spec fn sort_text(
    name: Seq<char>,
    presort_and_args: Option<(Seq<char>, Seq<ExprView>)>,
) -> Seq<char> {
    match presort_and_args {
        Some((presort, args)) => "(sort "@ + name + " "@ + call_text(presort, args) + ")"@,
        None => "(sort "@ + name + ")"@,
    }
}

/// The text of a declaration of a function, relation or constructor.
pub open spec fn function_text(decl: FunctionDeclView) -> Seq<char> {
    let schema = decl.name + " ("@ + spaced(decl.schema.input) + ") "@ + decl.schema.output;
    match decl.subtype {
        FunctionSubtype::Constructor => {
            let cost = match decl.cost {
                Some(n) => " :cost "@ + decimal(n as nat),
                None => Seq::empty(),
            };
            let hidden = if decl.unextractable {
                " :unextractable"@
            } else {
                Seq::empty()
            };
            "(constructor "@ + schema + cost + hidden + ")"@
        },
        FunctionSubtype::Relation => relation_text(decl.name, decl.schema.input),
        FunctionSubtype::Custom => {
            let merge = match decl.merge {
                Some(e) => " :merge "@ + expr_text(e),
                None => " :no-merge"@,
            };
            "(function "@ + schema + merge + ")"@
        },
    }
}

/// The text of the declaration of a relation.
pub open spec fn relation_text(name: Seq<char>, inputs: Seq<Seq<char>>) -> Seq<char> {
    "(relation "@ + name + " ("@ + spaced(inputs) + "))"@
}

/// The text of a command.
pub open spec fn command_text(c: CommandView) -> Seq<char>
    decreases c,
{
    match c {
        CommandView::Sort { name, presort_and_args, .. } => sort_text(name, presort_and_args),
        CommandView::Function(decl) => function_text(decl),
        CommandView::Relation { name, inputs, .. } => relation_text(name, inputs),
        CommandView::AddRuleset(_, name) => "(ruleset "@ + name + ")"@,
        CommandView::UnstableCombinedRuleset(_, name, parts) => "(unstable-combined-ruleset "@
            + name + " "@ + spaced(parts) + ")"@,
        CommandView::Rule { rule } => rule_text(rule),
        CommandView::Action(action) => action_text(action),
        CommandView::Extract(_, e, variants) => "(extract "@ + expr_text(e) + " "@ + expr_text(
            variants,
        ) + ")"@,
        CommandView::RunSchedule(schedule) => "(run-schedule "@ + schedule_text(schedule) + ")"@,
        CommandView::Check(_, fs) => "(check "@ + facts_text(fs) + ")"@,
        CommandView::Output { file, exprs, .. } => "(output "@ + quoted(file) + args_text(
            exprs,
            exprs.len(),
        ) + ")"@,
        CommandView::Fail(_, inner) => "(fail "@ + command_text(*inner) + ")"@,
        CommandView::Other(_, text) => text,
    }
}

/// Appends the text of the declaration of a relation.
fn push_relation(out: &mut String, name: &String, inputs: &Vec<String>)
    ensures
        final(out)@ == old(out)@ + relation_text(name@, texts(inputs@)),
{
    out.append("(relation ");
    out.append(name.as_str());
    out.append(" (");
    push_names(out, inputs);
    out.append("))");
}

/// Appends the name, the argument sorts and the result sort of a function.
fn push_schema(out: &mut String, decl: &FunctionDecl)
    ensures
        final(out)@ == old(out)@ + (decl.name@ + " ("@ + spaced(texts(decl.schema.input@)) + ") "@
            + decl.schema.output@),
{
    out.append(decl.name.as_str());
    out.append(" (");
    push_names(out, &decl.schema.input);
    out.append(") ");
    out.append(decl.schema.output.as_str());
}

/// Appends the text of a declaration of a function, relation or constructor.
fn push_function(out: &mut String, decl: &FunctionDecl)
    ensures
        final(out)@ == old(out)@ + function_text(decl@),
{
    match decl.subtype {
        FunctionSubtype::Constructor => {
            out.append("(constructor ");
            push_schema(out, decl);
            if let Some(n) = decl.cost {
                out.append(" :cost ");
                push_decimal(out, n);
            }
            if decl.unextractable {
                out.append(" :unextractable");
            }
            out.append(")");
        },
        FunctionSubtype::Relation => push_relation(out, &decl.name, &decl.schema.input),
        FunctionSubtype::Custom => {
            out.append("(function ");
            push_schema(out, decl);
            match &decl.merge {
                Some(e) => {
                    out.append(" :merge ");
                    push_expr(out, e);
                },
                None => out.append(" :no-merge"),
            }
            out.append(")");
        },
    }
}

/// Appends the text of the declaration of a sort.
fn push_sort(out: &mut String, name: &String, presort_and_args: &Option<(String, Vec<Expr>)>)
    ensures
        final(out)@ == old(out)@ + sort_text(name@, presort_view(*presort_and_args)),
{
    out.append("(sort ");
    out.append(name.as_str());
    if let Some((presort, args)) = presort_and_args {
        out.append(" ");
        push_call(out, presort, args);
    }
    out.append(")");
}

/// Appends the text of a command.
#[verifier::rlimit(30)]
fn push_command(out: &mut String, c: &Command)
    ensures
        final(out)@ == old(out)@ + command_text(c@),
    decreases c,
{
    match c {
        Command::Sort { name, presort_and_args, .. } => push_sort(out, name, presort_and_args),
        Command::Function(decl) => push_function(out, decl),
        Command::Relation { name, inputs, .. } => push_relation(out, name, inputs),
        Command::AddRuleset(_, name) => {
            out.append("(ruleset ");
            out.append(name.as_str());
            out.append(")");
        },
        Command::UnstableCombinedRuleset(_, name, parts) => {
            out.append("(unstable-combined-ruleset ");
            out.append(name.as_str());
            out.append(" ");
            push_names(out, parts);
            out.append(")");
        },
        Command::Rule { rule } => push_rule(out, rule),
        Command::Action(action) => push_action(out, action),
        Command::Extract(_, e, variants) => {
            out.append("(extract ");
            push_expr(out, e);
            out.append(" ");
            push_expr(out, variants);
            out.append(")");
        },
        Command::RunSchedule(schedule) => {
            out.append("(run-schedule ");
            push_schedule(out, schedule);
            out.append(")");
        },
        Command::Check(_, fs) => {
            out.append("(check ");
            push_facts(out, fs);
            out.append(")");
        },
        Command::Output { file, exprs, .. } => {
            out.append("(output ");
            push_quoted(out, file);
            push_args(out, exprs);
            out.append(")");
        },
        Command::Fail(_, inner) => {
            out.append("(fail ");
            push_command(out, inner);
            out.append(")");
        },
        Command::Other(_, text) => out.append(text.as_str()),
    }
}

impl Command {
    /// The text of the command in the surface language.
    pub fn text(&self) -> (r: String)
        ensures
            r@ == command_text(self@),
    {
        let mut r = String::new();
        push_command(&mut r, self);
        assert(r@ =~= command_text(self@));
        r
    }
}

} // verus!
