//! The surface language as nested lists: what the text of syntax is made of.

use vstd::prelude::*;

use crate::ast::{
    ActionView, Change, CommandView, ExprView, FactView, FunctionDeclView, FunctionSubtype,
    LiteralView, RuleView, RunConfigView, ScheduleView,
};
use crate::names::{decimal, decimal_reads_back, nothing_is_joined, number_read, text_is_joined};
use crate::text::{
    action_text, actions_text, args_text, call_text, command_text, expr_text, fact_text, facts_text,
    first_spaced, function_text, int_text, literal_text, quoted, relation_text, rule_text, run_text,
    schedule_text, sort_text, spaced, steps_text,
};

verus! {

/// A word, or a list in brackets.
pub enum Form {
    Word(Seq<char>),
    List(Seq<Form>),
}

/// The text of a form: a list has its items in brackets, with a space between each
/// two.
pub open spec fn form_text(f: Form) -> Seq<char>
    decreases f, 0nat,
{
    match f {
        Form::Word(t) => t,
        Form::List(items) => "("@ + forms_text(items, items.len()) + ")"@,
    }
}

/// The text of the first `n` forms, with a space between each two.
pub open spec fn forms_text(items: Seq<Form>, n: nat) -> Seq<char>
    decreases items, n,
{
    if n == 0 || n > items.len() {
        Seq::empty()
    } else if n == 1 {
        form_text(items[0])
    } else {
        forms_text(items, (n - 1) as nat) + " "@ + form_text(items[n - 1])
    }
}

/// The text of the first `n` forms, each behind a space.
spec fn behind(items: Seq<Form>, n: nat) -> Seq<char>
    decreases n,
{
    if n == 0 {
        Seq::empty()
    } else {
        behind(items, (n - 1) as nat) + " "@ + form_text(items[n - 1])
    }
}

/// The text of forms depends on these forms alone.
proof fn same_start(a: Seq<Form>, b: Seq<Form>, n: nat)
    requires
        n <= a.len(),
        n <= b.len(),
        forall|i: int| 0 <= i < n ==> a[i] == b[i],
    ensures
        forms_text(a, n) == forms_text(b, n),
    decreases n,
{
    if n > 1 {
        same_start(a, b, (n - 1) as nat);
    }
}

/// Forms behind other forms are each behind a space.
proof fn longer(front: Seq<Form>, items: Seq<Form>, n: nat)
    requires
        front.len() > 0,
        n <= items.len(),
    ensures
        forms_text(front + items, front.len() + n) == forms_text(front, front.len()) + behind(
            items,
            n,
        ),
    decreases n,
{
    if n == 0 {
        same_start(front, front + items, front.len());
        nothing_is_joined(forms_text(front, front.len()));
    } else {
        let before = behind(items, (n - 1) as nat);
        let start = forms_text(front, front.len());
        longer(front, items, (n - 1) as nat);
        text_is_joined(start, before + " "@, form_text(items[n - 1]));
        text_is_joined(start, before, " "@);
        assert((front + items)[front.len() + n - 1] == items[n - 1]);
    }
}

/// The first space may stand before the others.
proof fn one_space_before(items: Seq<Form>, n: nat)
    requires
        0 < n <= items.len(),
    ensures
        behind(items, n) == " "@ + forms_text(items, n),
    decreases n,
{
    if n > 1 {
        let before = forms_text(items, (n - 1) as nat);
        one_space_before(items, (n - 1) as nat);
        text_is_joined(" "@, before + " "@, form_text(items[n - 1]));
        text_is_joined(" "@, before, " "@);
    } else {
        assert(behind(items, 0) =~= Seq::empty());
        assert(behind(items, 1) == behind(items, 0) + " "@ + form_text(items[0]));
        assert(behind(items, 1) =~= " "@ + form_text(items[0]));
    }
}

/// Texts with spaces between them are the text of forms with these texts.
proof fn spaced_forms(parts: Seq<Seq<char>>, items: Seq<Form>, n: nat)
    requires
        n <= parts.len(),
        n <= items.len(),
        forall|i: int| 0 <= i < n ==> form_text(#[trigger] items[i]) == parts[i],
    ensures
        forms_text(items, n) == first_spaced(parts, n),
    decreases n,
{
    if n > 0 {
        assert(form_text(items[n - 1]) == parts[n - 1]);
        if n > 1 {
            spaced_forms(parts, items, (n - 1) as nat);
        }
    }
}

// ---------------------------------------------------------------------------
// Expressions
// ---------------------------------------------------------------------------
/// Text between quotation marks, as a word.
pub open spec fn quotation(s: Seq<char>) -> Form {
    Form::Word("\""@ + s + "\""@)
}

/// The form of a literal.
pub open spec fn literal_form(lit: LiteralView) -> Form {
    match lit {
        LiteralView::Int(n) => Form::Word(int_text(n)),
        LiteralView::Float(text) => Form::Word(text),
        LiteralView::Text(s) => quotation(s),
        LiteralView::Bool(b) => Form::Word(
            if b {
                "true"@
            } else {
                "false"@
            },
        ),
        LiteralView::Unit => Form::List(Seq::empty()),
    }
}

/// The form of an expression: a call is a list of its function and arguments.
pub open spec fn expr_form(e: ExprView) -> Form
    decreases e,
{
    match e {
        ExprView::Lit(_, lit) => literal_form(lit),
        ExprView::Var(_, name) => Form::Word(name),
        ExprView::Call(_, head, args) => Form::List(seq![Form::Word(head)] + expr_forms(args)),
    }
}

/// The forms of expressions.
pub open spec fn expr_forms(args: Seq<ExprView>) -> Seq<Form>
    decreases args,
{
    Seq::new(
        args.len(),
        |i: int|
            if 0 <= i < args.len() {
                expr_form(args[i])
            } else {
                arbitrary()
            },
    )
}

/// An integer is written in decimal, with a sign where it is negative.
pub proof fn integers_read_back(n: i64)
    ensures
        n >= 0 ==> number_read(int_text(n)) == n,
        n < 0 ==> int_text(n)[0] == '-' && number_read(int_text(n).skip(1)) == -n,
{
    reveal_strlit("-");
    decimal_reads_back(
        if n < 0 {
            (-n) as nat
        } else {
            n as nat
        },
    );
    if n < 0 {
        assert(int_text(n).skip(1) =~= decimal((-n) as nat));
    }
}

/// A literal is written as its form.
proof fn literals_are_forms(lit: LiteralView)
    ensures
        form_text(literal_form(lit)) == literal_text(lit),
{
    assert("()"@ =~= "("@ + Seq::<char>::empty() + ")"@) by {
        reveal_strlit("()");
        reveal_strlit("(");
        reveal_strlit(")");
    }
    assert(forms_text(Seq::empty(), 0) =~= Seq::empty());
}

/// An expression is written as its form.
pub proof fn expressions_are_written_as_lists(e: ExprView)
    ensures
        form_text(expr_form(e)) == expr_text(e),
    decreases e, 0nat,
{
    match e {
        ExprView::Lit(_, lit) => {
            literals_are_forms(lit);
        },
        ExprView::Var(_, _) => {},
        ExprView::Call(_, head, args) => {
            let items = expr_forms(args);
            let front = seq![Form::Word(head)];
            longer(front, items, args.len());
            arguments_are_behind(args, args.len());
            assert(form_text(front[0]) == head);
            assert(forms_text(front, 1) == head);
            text_is_joined("("@, head, args_text(args, args.len()));
        },
    }
}

/// Arguments are written as their forms, each behind a space.
proof fn arguments_are_behind(args: Seq<ExprView>, n: nat)
    requires
        n <= args.len(),
    ensures
        behind(expr_forms(args), n) == args_text(args, n),
    decreases args, n,
{
    if n > 0 {
        arguments_are_behind(args, (n - 1) as nat);
        expressions_are_written_as_lists(args[n - 1]);
        assert(expr_forms(args)[n - 1] == expr_form(args[n - 1]));
    }
}

/// The form of a call.
pub open spec fn call_form(head: Seq<char>, args: Seq<ExprView>) -> Form {
    Form::List(seq![Form::Word(head)] + expr_forms(args))
}

/// A call is written as its form.
proof fn calls_are_forms(head: Seq<char>, args: Seq<ExprView>)
    ensures
        form_text(call_form(head, args)) == call_text(head, args),
{
    let items = expr_forms(args);
    let front = seq![Form::Word(head)];
    longer(front, items, args.len());
    arguments_are_behind(args, args.len());
    assert(form_text(front[0]) == head);
    assert(forms_text(front, 1) == head);
    text_is_joined("("@, head, args_text(args, args.len()));
}

/// The text of a list of two.
proof fn list_of_two(a: Form, b: Form)
    ensures
        form_text(Form::List(seq![a, b])) == "("@ + form_text(a) + " "@ + form_text(b) + ")"@,
{
    let s = seq![a, b];
    assert(forms_text(s, 1) == form_text(a));
    assert(forms_text(s, 2) == forms_text(s, 1) + " "@ + form_text(b));
    text_is_joined("("@, form_text(a) + " "@, form_text(b));
    text_is_joined("("@, form_text(a), " "@);
}

/// The text of a list of three.
proof fn list_of_three(a: Form, b: Form, c: Form)
    ensures
        form_text(Form::List(seq![a, b, c])) == "("@ + form_text(a) + " "@ + form_text(b) + " "@
            + form_text(c) + ")"@,
{
    let s = seq![a, b, c];
    assert(forms_text(s, 1) == form_text(a));
    assert(forms_text(s, 2) == forms_text(s, 1) + " "@ + form_text(b));
    assert(forms_text(s, 3) == forms_text(s, 2) + " "@ + form_text(c));
    let two = form_text(a) + " "@ + form_text(b);
    text_is_joined("("@, two + " "@, form_text(c));
    text_is_joined("("@, two, " "@);
    text_is_joined("("@, form_text(a) + " "@, form_text(b));
    text_is_joined("("@, form_text(a), " "@);
}

// ---------------------------------------------------------------------------
// Facts, actions and rules
// ---------------------------------------------------------------------------
/// A word.
pub open spec fn word(t: Seq<char>) -> Form {
    Form::Word(t)
}

/// The form of a fact.
pub open spec fn fact_form(f: FactView) -> Form {
    match f {
        FactView::Eq(_, lhs, rhs) => Form::List(
            seq![word("="@), expr_form(lhs), expr_form(rhs)],
        ),
        FactView::Fact(e) => expr_form(e),
    }
}

/// The forms of facts.
pub open spec fn fact_forms(fs: Seq<FactView>) -> Seq<Form> {
    fs.map_values(|f: FactView| fact_form(f))
}

/// A fact is written as its form: an equation as `=` and its two sides.
pub proof fn facts_are_written_as_lists(f: FactView)
    ensures
        form_text(fact_form(f)) == fact_text(f),
{
    match f {
        FactView::Eq(_, lhs, rhs) => {
            expressions_are_written_as_lists(lhs);
            expressions_are_written_as_lists(rhs);
            list_of_three(word("="@), expr_form(lhs), expr_form(rhs));
        },
        FactView::Fact(e) => {
            expressions_are_written_as_lists(e);
        },
    }
    assert("(= "@ =~= "("@ + "="@ + " "@) by {
        reveal_strlit("(= ");
        reveal_strlit(" ");
        reveal_strlit("(");
        reveal_strlit("=");
    }
}

/// Facts are written one after the other.
proof fn all_facts_are_forms(fs: Seq<FactView>)
    ensures
        forms_text(fact_forms(fs), fs.len()) == facts_text(fs),
{
    let parts = fs.map_values(|f: FactView| fact_text(f));
    assert forall|i: int| 0 <= i < fs.len() implies form_text(#[trigger] fact_forms(fs)[i])
        == parts[i] by {
        facts_are_written_as_lists(fs[i]);
    }
    spaced_forms(parts, fact_forms(fs), fs.len());
}

/// The form of an action.
pub open spec fn action_form(a: ActionView) -> Form {
    match a {
        ActionView::Let(_, v, e) => Form::List(seq![word("let"@), word(v), expr_form(e)]),
        ActionView::Assign(_, head, args, val) => Form::List(
            seq![word("set"@), call_form(head, args), expr_form(val)],
        ),
        ActionView::Change(_, change, head, args) => Form::List(
            seq![
                word(
                    match change {
                        Change::Delete => "delete"@,
                        Change::Subsume => "subsume"@,
                    },
                ),
                call_form(head, args),
            ],
        ),
        ActionView::Union(_, lhs, rhs) => Form::List(
            seq![word("union"@), expr_form(lhs), expr_form(rhs)],
        ),
        ActionView::Panic(_, msg) => Form::List(seq![word("panic"@), quotation(msg)]),
        ActionView::Expr(_, e) => expr_form(e),
    }
}

/// The forms of actions.
pub open spec fn action_forms(s: Seq<ActionView>) -> Seq<Form> {
    s.map_values(|a: ActionView| action_form(a))
}

/// An action is written as its form: its keyword and its parts, in order.
pub proof fn actions_are_written_as_lists(a: ActionView)
    ensures
        form_text(action_form(a)) == action_text(a),
{
    match a {
        ActionView::Let(_, v, e) => {
            expressions_are_written_as_lists(e);
            list_of_three(word("let"@), word(v), expr_form(e));
        },
        ActionView::Assign(_, head, args, val) => {
            calls_are_forms(head, args);
            expressions_are_written_as_lists(val);
            list_of_three(word("set"@), call_form(head, args), expr_form(val));
        },
        ActionView::Change(_, change, head, args) => {
            calls_are_forms(head, args);
            list_of_two(word("delete"@), call_form(head, args));
            list_of_two(word("subsume"@), call_form(head, args));
        },
        ActionView::Union(_, lhs, rhs) => {
            expressions_are_written_as_lists(lhs);
            expressions_are_written_as_lists(rhs);
            list_of_three(word("union"@), expr_form(lhs), expr_form(rhs));
        },
        ActionView::Panic(_, msg) => {
            list_of_two(word("panic"@), quotation(msg));
        },
        ActionView::Expr(_, e) => {
            expressions_are_written_as_lists(e);
        },
    }
    assert("(let "@ =~= "("@ + "let"@ + " "@) by {
        reveal_strlit("(let ");
        reveal_strlit(" ");
        reveal_strlit("(");
        reveal_strlit("let");
    }
    assert("(set "@ =~= "("@ + "set"@ + " "@) by {
        reveal_strlit("(set ");
        reveal_strlit(" ");
        reveal_strlit("(");
        reveal_strlit("set");
    }
    assert("(delete "@ =~= "("@ + "delete"@ + " "@) by {
        reveal_strlit("(delete ");
        reveal_strlit(" ");
        reveal_strlit("(");
        reveal_strlit("delete");
    }
    assert("(subsume "@ =~= "("@ + "subsume"@ + " "@) by {
        reveal_strlit("(subsume ");
        reveal_strlit(" ");
        reveal_strlit("(");
        reveal_strlit("subsume");
    }
    assert("(union "@ =~= "("@ + "union"@ + " "@) by {
        reveal_strlit("(union ");
        reveal_strlit(" ");
        reveal_strlit("(");
        reveal_strlit("union");
    }
    assert("(panic "@ =~= "("@ + "panic"@ + " "@) by {
        reveal_strlit("(panic ");
        reveal_strlit(" ");
        reveal_strlit("(");
        reveal_strlit("panic");
    }
}

/// Actions are written one after the other.
proof fn all_actions_are_forms(s: Seq<ActionView>)
    ensures
        forms_text(action_forms(s), s.len()) == actions_text(s),
{
    let parts = s.map_values(|a: ActionView| action_text(a));
    assert forall|i: int| 0 <= i < s.len() implies form_text(#[trigger] action_forms(s)[i])
        == parts[i] by {
        actions_are_written_as_lists(s[i]);
    }
    spaced_forms(parts, action_forms(s), s.len());
}

/// A keyword and its value, where there is one.
pub open spec fn option_form(keyword: Seq<char>, value: Option<Form>) -> Seq<Form> {
    match value {
        Some(f) => seq![word(keyword), f],
        None => Seq::empty(),
    }
}

/// A keyword and its value stand behind spaces.
proof fn options_are_behind(keyword: Seq<char>, value: Option<Form>)
    ensures
        behind(option_form(keyword, value), option_form(keyword, value).len()) == match value {
            Some(f) => " "@ + keyword + " "@ + form_text(f),
            None => Seq::empty(),
        },
{
    if let Some(f) = value {
        let s = option_form(keyword, value);
        one_space_before(s, 2);
        assert(form_text(s[0]) == keyword);
        assert(forms_text(s, 1) == keyword);
        assert(forms_text(s, 2) == forms_text(s, 1) + " "@ + form_text(f));
        text_is_joined(" "@, keyword + " "@, form_text(f));
        text_is_joined(" "@, keyword, " "@);
    }
}

/// The form of a rule: its facts, its actions, its ruleset and its name, the last
/// two where they are not empty.
pub open spec fn rule_form(rule: RuleView) -> Form {
    let ruleset = if rule.ruleset.len() == 0 {
        None
    } else {
        Some(word(rule.ruleset))
    };
    let name = if rule.name.len() == 0 {
        None
    } else {
        Some(quotation(rule.name))
    };
    Form::List(
        seq![word("rule"@), Form::List(fact_forms(rule.body)), Form::List(action_forms(rule.head))]
            + option_form(":ruleset"@, ruleset) + option_form(":name"@, name),
    )
}

/// A rule is written as its form.
pub proof fn rules_are_written_as_lists(rule: RuleView)
    ensures
        form_text(rule_form(rule)) == rule_text(rule),
{
    let ruleset = if rule.ruleset.len() == 0 {
        None
    } else {
        Some(word(rule.ruleset))
    };
    let name = if rule.name.len() == 0 {
        None
    } else {
        Some(quotation(rule.name))
    };
    let body = Form::List(fact_forms(rule.body));
    let head = Form::List(action_forms(rule.head));
    let front = seq![word("rule"@), body, head];
    let more = option_form(":ruleset"@, ruleset);
    let last = option_form(":name"@, name);
    all_facts_are_forms(rule.body);
    all_actions_are_forms(rule.head);
    assert(form_text(front[0]) == "rule"@);
    assert(forms_text(front, 1) == "rule"@);
    assert(forms_text(front, 2) == forms_text(front, 1) + " "@ + form_text(body));
    assert(forms_text(front, 3) == forms_text(front, 2) + " "@ + form_text(head));
    longer(front, more, more.len());
    longer(front + more, last, last.len());
    let f = facts_text(rule.body);
    let g = actions_text(rule.head);
    let m = behind(more, more.len());
    let l = behind(last, last.len());
    let kw = "rule"@;
    let b = "("@ + f + ")"@;
    let h = "("@ + g + ")"@;
    let three = kw + " "@ + b + " "@ + h;
    assert(forms_text(front, 3) == three);
    text_is_joined("("@, three + m, l);
    text_is_joined("("@, three, m);
    text_is_joined("("@, kw + " "@ + b + " "@, h);
    text_is_joined("("@, kw + " "@ + b, " "@);
    text_is_joined("("@, kw + " "@, b);
    text_is_joined("("@, kw, " "@);
    let x = "("@ + kw + " "@;
    text_is_joined(x, "("@ + f, ")"@);
    text_is_joined(x, "("@, f);
    let y = x + "("@ + f;
    text_is_joined(y + ")"@ + " "@, "("@ + g, ")"@);
    text_is_joined(y + ")"@ + " "@, "("@, g);
    text_is_joined(y, ")"@ + " "@, "("@);
    text_is_joined(y, ")"@, " "@);
    options_are_behind(":ruleset"@, ruleset);
    options_are_behind(":name"@, name);
    assert("(rule ("@ =~= "("@ + "rule"@ + " "@ + "("@) by {
        reveal_strlit("(rule (");
        reveal_strlit(" ");
        reveal_strlit("(");
        reveal_strlit("rule");
    }
    assert(") ("@ =~= ")"@ + " "@ + "("@) by {
        reveal_strlit(") (");
        reveal_strlit(" ");
        reveal_strlit("(");
        reveal_strlit(")");
    }
    assert(" :ruleset "@ =~= " "@ + ":ruleset"@ + " "@) by {
        reveal_strlit(" :ruleset ");
        reveal_strlit(" ");
        reveal_strlit(":ruleset");
    }
    assert(" :name "@ =~= " "@ + ":name"@ + " "@) by {
        reveal_strlit(" :name ");
        reveal_strlit(" ");
        reveal_strlit(":name");
    }
}

// ---------------------------------------------------------------------------
// Schedules
// ---------------------------------------------------------------------------
/// The form of a run step: its ruleset where it is not empty, and the facts to stop
/// at where there are some.
pub open spec fn run_form(config: RunConfigView) -> Form {
    let ruleset = if config.ruleset.len() == 0 {
        Seq::empty()
    } else {
        seq![word(config.ruleset)]
    };
    let until = match config.until {
        Some(fs) => seq![word(":until"@)] + fact_forms(fs),
        None => Seq::empty(),
    };
    Form::List(seq![word("run"@)] + ruleset + until)
}

/// The form of a schedule.
pub open spec fn schedule_form(s: ScheduleView) -> Form
    decreases s,
{
    match s {
        ScheduleView::Saturate(_, inner) => Form::List(
            seq![word("saturate"@), schedule_form(*inner)],
        ),
        ScheduleView::Repeat(_, n, inner) => Form::List(
            seq![word("repeat"@), word(decimal(n as nat)), schedule_form(*inner)],
        ),
        ScheduleView::Run(_, config) => run_form(config),
        ScheduleView::Sequence(_, items) => Form::List(seq![word("seq"@)] + schedule_forms(items)),
    }
}

/// The forms of schedules.
pub open spec fn schedule_forms(items: Seq<ScheduleView>) -> Seq<Form>
    decreases items,
{
    Seq::new(
        items.len(),
        |i: int|
            if 0 <= i < items.len() {
                schedule_form(items[i])
            } else {
                arbitrary()
            },
    )
}

/// Whether no run step in a schedule stops at an empty list of facts.
pub open spec fn stops_at_facts(s: ScheduleView) -> bool
    decreases s, 0nat,
{
    match s {
        ScheduleView::Saturate(_, inner) => stops_at_facts(*inner),
        ScheduleView::Repeat(_, _, inner) => stops_at_facts(*inner),
        ScheduleView::Run(_, config) => config.until matches Some(fs) ==> fs.len() > 0,
        ScheduleView::Sequence(_, items) => all_stop_at_facts(items, items.len()),
    }
}

/// The same for the first `n` of a list.
pub open spec fn all_stop_at_facts(items: Seq<ScheduleView>, n: nat) -> bool
    decreases items, n,
{
    n == 0 || n > items.len() || (all_stop_at_facts(items, (n - 1) as nat) && stops_at_facts(
        items[n - 1],
    ))
}

/// A run step is written as its form.
proof fn runs_are_forms(config: RunConfigView)
    requires
        config.until matches Some(fs) ==> fs.len() > 0,
    ensures
        form_text(run_form(config)) == run_text(config),
{
    let front = seq![word("run"@)];
    let ruleset = if config.ruleset.len() == 0 {
        Seq::empty()
    } else {
        seq![word(config.ruleset)]
    };
    let until = match config.until {
        Some(fs) => seq![word(":until"@)] + fact_forms(fs),
        None => Seq::empty(),
    };
    assert(form_text(front[0]) == "run"@);
    assert(forms_text(front, 1) == "run"@);
    longer(front, ruleset, ruleset.len());
    longer(front + ruleset, until, until.len());
    let r = behind(ruleset, ruleset.len());
    text_is_joined("("@, "run"@ + r, behind(until, until.len()));
    text_is_joined("("@, "run"@, r);
    if config.ruleset.len() > 0 {
        one_space_before(ruleset, 1);
        assert(form_text(ruleset[0]) == config.ruleset);
        assert(forms_text(ruleset, 1) == config.ruleset);
    }
    if let Some(fs) = config.until {
        let start = seq![word(":until"@)];
        one_space_before(until, until.len());
        longer(start, fact_forms(fs), fs.len());
        assert(form_text(start[0]) == ":until"@);
        assert(forms_text(start, 1) == ":until"@);
        one_space_before(fact_forms(fs), fs.len());
        all_facts_are_forms(fs);
        text_is_joined(":until"@, " "@, facts_text(fs));
        text_is_joined(" "@, ":until"@ + " "@, facts_text(fs));
        text_is_joined(" "@, ":until"@, " "@);
    }
    assert("(run"@ =~= "("@ + "run"@) by {
        reveal_strlit("(run");
        reveal_strlit("(");
        reveal_strlit("run");
    }
    assert(" :until "@ =~= " "@ + ":until"@ + " "@) by {
        reveal_strlit(" :until ");
        reveal_strlit(" ");
        reveal_strlit(":until");
    }
}

/// A schedule is written as its form: its keyword and its parts, in order. (A run
/// step that stops at no facts would have a space before its closing bracket.)
pub proof fn schedules_are_written_as_lists(s: ScheduleView)
    requires
        stops_at_facts(s),
    ensures
        form_text(schedule_form(s)) == schedule_text(s),
    decreases s, 0nat,
{
    match s {
        ScheduleView::Saturate(_, inner) => {
            schedules_are_written_as_lists(*inner);
            list_of_two(word("saturate"@), schedule_form(*inner));
        },
        ScheduleView::Repeat(_, n, inner) => {
            schedules_are_written_as_lists(*inner);
            list_of_three(word("repeat"@), word(decimal(n as nat)), schedule_form(*inner));
        },
        ScheduleView::Run(_, config) => {
            runs_are_forms(config);
        },
        ScheduleView::Sequence(_, items) => {
            let front = seq![word("seq"@)];
            longer(front, schedule_forms(items), items.len());
            steps_are_behind(items, items.len());
            assert(form_text(front[0]) == "seq"@);
            assert(forms_text(front, 1) == "seq"@);
            text_is_joined("("@, "seq"@, steps_text(items, items.len()));
        },
    }
    assert("(saturate "@ =~= "("@ + "saturate"@ + " "@) by {
        reveal_strlit("(saturate ");
        reveal_strlit(" ");
        reveal_strlit("(");
        reveal_strlit("saturate");
    }
    assert("(repeat "@ =~= "("@ + "repeat"@ + " "@) by {
        reveal_strlit("(repeat ");
        reveal_strlit(" ");
        reveal_strlit("(");
        reveal_strlit("repeat");
    }
    assert("(seq"@ =~= "("@ + "seq"@) by {
        reveal_strlit("(seq");
        reveal_strlit("(");
        reveal_strlit("seq");
    }
}

/// Steps are written as their forms, each behind a space.
proof fn steps_are_behind(items: Seq<ScheduleView>, n: nat)
    requires
        n <= items.len(),
        all_stop_at_facts(items, n),
    ensures
        behind(schedule_forms(items), n) == steps_text(items, n),
    decreases items, n,
{
    if n > 0 {
        steps_are_behind(items, (n - 1) as nat);
        schedules_are_written_as_lists(items[n - 1]);
        assert(schedule_forms(items)[n - 1] == schedule_form(items[n - 1]));
    }
}

// ---------------------------------------------------------------------------
// Commands
// ---------------------------------------------------------------------------
/// The forms of names.
pub open spec fn words(names: Seq<Seq<char>>) -> Seq<Form> {
    names.map_values(|t: Seq<char>| word(t))
}

/// Names are written one after the other.
proof fn names_are_words(names: Seq<Seq<char>>)
    ensures
        forms_text(words(names), names.len()) == spaced(names),
{
    spaced_forms(names, words(names), names.len());
}

/// The form of the declaration of a relation.
pub open spec fn relation_form(name: Seq<char>, inputs: Seq<Seq<char>>) -> Form {
    Form::List(seq![word("relation"@), word(name), Form::List(words(inputs))])
}

/// The form of the declaration of a function, relation or constructor.
pub open spec fn function_form(decl: FunctionDeclView) -> Form {
    let schema = seq![
        word(decl.name),
        Form::List(words(decl.schema.input)),
        word(decl.schema.output),
    ];
    match decl.subtype {
        FunctionSubtype::Constructor => Form::List(
            seq![word("constructor"@)] + schema + option_form(
                ":cost"@,
                match decl.cost {
                    Some(n) => Some(word(decimal(n as nat))),
                    None => None,
                },
            ) + if decl.unextractable {
                seq![word(":unextractable"@)]
            } else {
                Seq::empty()
            },
        ),
        FunctionSubtype::Relation => relation_form(decl.name, decl.schema.input),
        FunctionSubtype::Custom => Form::List(
            seq![word("function"@)] + schema + match decl.merge {
                Some(e) => seq![word(":merge"@), expr_form(e)],
                None => seq![word(":no-merge"@)],
            },
        ),
    }
}

/// The declaration of a relation is written as its form.
proof fn relations_are_forms(name: Seq<char>, inputs: Seq<Seq<char>>)
    ensures
        form_text(relation_form(name, inputs)) == relation_text(name, inputs),
{
    names_are_words(inputs);
    list_of_three(word("relation"@), word(name), Form::List(words(inputs)));
    let z = "("@ + "relation"@ + " "@ + name;
    text_is_joined(z + " "@, "("@ + spaced(inputs), ")"@);
    text_is_joined(z + " "@, "("@, spaced(inputs));
    text_is_joined(z, " "@, "("@);
    text_is_joined(z + " "@ + "("@ + spaced(inputs), ")"@, ")"@);
    assert("(relation "@ =~= "("@ + "relation"@ + " "@) by {
        reveal_strlit("(relation ");
        reveal_strlit(" ");
        reveal_strlit("(");
        reveal_strlit("relation");
    }
    assert(" ("@ =~= " "@ + "("@) by {
        reveal_strlit(" (");
        reveal_strlit(" ");
        reveal_strlit("(");
    }
    assert("))"@ =~= ")"@ + ")"@) by {
        reveal_strlit("))");
        reveal_strlit(")");
    }
}

/// The text of a keyword and the schema of a function.
proof fn schemas_are_forms(keyword: Seq<char>, decl: FunctionDeclView)
    ensures
        ({
            let front = seq![word(keyword)] + seq![
                word(decl.name),
                Form::List(words(decl.schema.input)),
                word(decl.schema.output),
            ];
            front.len() == 4 && forms_text(front, 4) == keyword + " "@ + decl.name + " ("@ + spaced(
                decl.schema.input,
            ) + ") "@ + decl.schema.output
        }),
{
    let inputs = Form::List(words(decl.schema.input));
    let front = seq![word(keyword)] + seq![word(decl.name), inputs, word(decl.schema.output)];
    names_are_words(decl.schema.input);
    assert(form_text(front[0]) == keyword);
    assert(forms_text(front, 1) == keyword);
    assert(form_text(front[1]) == decl.name);
    assert(forms_text(front, 2) == forms_text(front, 1) + " "@ + decl.name);
    assert(forms_text(front, 3) == forms_text(front, 2) + " "@ + form_text(inputs));
    assert(form_text(front[3]) == decl.schema.output);
    assert(forms_text(front, 4) == forms_text(front, 3) + " "@ + decl.schema.output);
    let z = keyword + " "@ + decl.name;
    let i = spaced(decl.schema.input);
    text_is_joined(z + " "@, "("@ + i, ")"@);
    text_is_joined(z + " "@, "("@, i);
    text_is_joined(z, " "@, "("@);
    text_is_joined(z + " "@ + "("@ + i, ")"@, " "@);
    assert(" ("@ =~= " "@ + "("@) by {
        reveal_strlit(" (");
        reveal_strlit(" ");
        reveal_strlit("(");
    }
    assert(") "@ =~= ")"@ + " "@) by {
        reveal_strlit(") ");
        reveal_strlit(" ");
        reveal_strlit(")");
    }
}

/// A keyword and the schema of a function behind an opening bracket.
proof fn bracket_before_schema(keyword: Seq<char>, decl: FunctionDeclView)
    ensures
        ({
            let i = spaced(decl.schema.input);
            let schema = decl.name + " ("@ + i + ") "@ + decl.schema.output;
            "("@ + (keyword + " "@ + decl.name + " ("@ + i + ") "@ + decl.schema.output) == "("@
                + keyword + " "@ + schema
        }),
{
    let n = decl.name;
    let i = spaced(decl.schema.input);
    let o = decl.schema.output;
    let k = keyword + " "@;
    text_is_joined("("@, k + n + " ("@ + i + ") "@, o);
    text_is_joined("("@, k + n + " ("@ + i, ") "@);
    text_is_joined("("@, k + n + " ("@, i);
    text_is_joined("("@, k + n, " ("@);
    text_is_joined("("@, k, n);
    text_is_joined("("@, keyword, " "@);
    let x = "("@ + keyword + " "@;
    text_is_joined(x, n + " ("@ + i + ") "@, o);
    text_is_joined(x, n + " ("@ + i, ") "@);
    text_is_joined(x, n + " ("@, i);
    text_is_joined(x, n, " ("@);
}

/// The declaration of a function, relation or constructor is written as its form:
/// its name, argument sorts and result sort, and what else it declares.
pub proof fn functions_are_written_as_lists(decl: FunctionDeclView)
    ensures
        form_text(function_form(decl)) == function_text(decl),
{
    let schema = seq![
        word(decl.name),
        Form::List(words(decl.schema.input)),
        word(decl.schema.output),
    ];
    match decl.subtype {
        FunctionSubtype::Constructor => {
            let front = seq![word("constructor"@)] + schema;
            let cost = match decl.cost {
                Some(n) => Some(word(decimal(n as nat))),
                None => None,
            };
            let more = option_form(":cost"@, cost);
            let last = if decl.unextractable {
                seq![word(":unextractable"@)]
            } else {
                Seq::empty()
            };
            schemas_are_forms("constructor"@, decl);
            bracket_before_schema("constructor"@, decl);
            longer(front, more, more.len());
            longer(front + more, last, last.len());
            options_are_behind(":cost"@, cost);
            let t = forms_text(front, 4);
            let m = behind(more, more.len());
            text_is_joined("("@, t + m, behind(last, last.len()));
            text_is_joined("("@, t, m);
            if decl.unextractable {
                one_space_before(last, 1);
                assert(form_text(last[0]) == ":unextractable"@);
                assert(forms_text(last, 1) == ":unextractable"@);
            }
        },
        FunctionSubtype::Relation => {
            relations_are_forms(decl.name, decl.schema.input);
        },
        FunctionSubtype::Custom => {
            let front = seq![word("function"@)] + schema;
            schemas_are_forms("function"@, decl);
            bracket_before_schema("function"@, decl);
            let t = forms_text(front, 4);
            match decl.merge {
                Some(e) => {
                    let last = seq![word(":merge"@), expr_form(e)];
                    longer(front, last, 2);
                    assert(last =~= option_form(":merge"@, Some(expr_form(e))));
                    text_is_joined("("@, t, behind(last, 2));
                    options_are_behind(":merge"@, Some(expr_form(e)));
                    expressions_are_written_as_lists(e);
                },
                None => {
                    let last = seq![word(":no-merge"@)];
                    longer(front, last, 1);
                    text_is_joined("("@, t, behind(last, 1));
                    one_space_before(last, 1);
                    assert(form_text(last[0]) == ":no-merge"@);
                    assert(forms_text(last, 1) == ":no-merge"@);
                },
            }
        },
    }
    assert("(constructor "@ =~= "("@ + "constructor"@ + " "@) by {
        reveal_strlit("(constructor ");
        reveal_strlit(" ");
        reveal_strlit("(");
        reveal_strlit("constructor");
    }
    assert(" :cost "@ =~= " "@ + ":cost"@ + " "@) by {
        reveal_strlit(" :cost ");
        reveal_strlit(" ");
        reveal_strlit(":cost");
    }
    assert(" :unextractable"@ =~= " "@ + ":unextractable"@) by {
        reveal_strlit(" :unextractable");
        reveal_strlit(" ");
        reveal_strlit(":unextractable");
    }
    assert("(function "@ =~= "("@ + "function"@ + " "@) by {
        reveal_strlit("(function ");
        reveal_strlit(" ");
        reveal_strlit("(");
        reveal_strlit("function");
    }
    assert(" :merge "@ =~= " "@ + ":merge"@ + " "@) by {
        reveal_strlit(" :merge ");
        reveal_strlit(" ");
        reveal_strlit(":merge");
    }
    assert(" :no-merge"@ =~= " "@ + ":no-merge"@) by {
        reveal_strlit(" :no-merge");
        reveal_strlit(" ");
        reveal_strlit(":no-merge");
    }
}

/// The form of the declaration of a sort.
pub open spec fn sort_form(
    name: Seq<char>,
    presort_and_args: Option<(Seq<char>, Seq<ExprView>)>,
) -> Form {
    match presort_and_args {
        Some((presort, args)) => Form::List(
            seq![word("sort"@), word(name), call_form(presort, args)],
        ),
        None => Form::List(seq![word("sort"@), word(name)]),
    }
}

/// The form of a command: its keyword and its parts, in order.
pub open spec fn command_form(c: CommandView) -> Form
    decreases c,
{
    match c {
        CommandView::Sort { name, presort_and_args, .. } => sort_form(name, presort_and_args),
        CommandView::Function(decl) => function_form(decl),
        CommandView::Relation { name, inputs, .. } => relation_form(name, inputs),
        CommandView::AddRuleset(_, name) => Form::List(seq![word("ruleset"@), word(name)]),
        CommandView::UnstableCombinedRuleset(_, name, parts) => Form::List(
            seq![word("unstable-combined-ruleset"@), word(name)] + words(parts),
        ),
        CommandView::Rule { rule } => rule_form(rule),
        CommandView::Action(a) => action_form(a),
        CommandView::Extract(_, e, variants) => Form::List(
            seq![word("extract"@), expr_form(e), expr_form(variants)],
        ),
        CommandView::RunSchedule(s) => Form::List(seq![word("run-schedule"@), schedule_form(s)]),
        CommandView::Check(_, fs) => Form::List(seq![word("check"@)] + fact_forms(fs)),
        CommandView::Output { file, exprs, .. } => Form::List(
            seq![word("output"@), quotation(file)] + expr_forms(exprs),
        ),
        CommandView::Fail(_, inner) => Form::List(seq![word("fail"@), command_form(*inner)]),
        CommandView::Other(_, text) => word(text),
    }
}

/// Whether the lists that end a command are not empty.
pub open spec fn ends_with_something(c: CommandView) -> bool
    decreases c,
{
    match c {
        CommandView::UnstableCombinedRuleset(_, _, parts) => parts.len() > 0,
        CommandView::RunSchedule(s) => stops_at_facts(s),
        CommandView::Check(_, fs) => fs.len() > 0,
        CommandView::Fail(_, inner) => ends_with_something(*inner),
        _ => true,
    }
}

/// A command is written as its form. (A command that ends with an empty list would
/// have a space before its closing bracket.)
pub proof fn commands_are_written_as_lists(c: CommandView)
    requires
        ends_with_something(c),
    ensures
        form_text(command_form(c)) == command_text(c),
    decreases c,
{
    match c {
        CommandView::Sort { name, presort_and_args, .. } => {
            sorts_are_forms(name, presort_and_args);
        },
        CommandView::Function(decl) => {
            functions_are_written_as_lists(decl);
        },
        CommandView::Relation { name, inputs, .. } => {
            relations_are_forms(name, inputs);
        },
        CommandView::AddRuleset(_, name) => {
            list_of_two(word("ruleset"@), word(name));
        },
        CommandView::UnstableCombinedRuleset(_, name, parts) => {
            let front = seq![word("unstable-combined-ruleset"@), word(name)];
            assert(form_text(front[0]) == "unstable-combined-ruleset"@);
            assert(forms_text(front, 1) == "unstable-combined-ruleset"@);
            assert(form_text(front[1]) == name);
            assert(forms_text(front, 2) == forms_text(front, 1) + " "@ + name);
            longer(front, words(parts), parts.len());
            one_space_before(words(parts), parts.len());
            names_are_words(parts);
            let kw = "unstable-combined-ruleset"@;
            let two = kw + " "@ + name;
            text_is_joined("("@, two, " "@ + spaced(parts));
            text_is_joined("("@ + two, " "@, spaced(parts));
            text_is_joined("("@, kw + " "@, name);
            text_is_joined("("@, kw, " "@);
        },
        CommandView::Rule { rule } => {
            rules_are_written_as_lists(rule);
        },
        CommandView::Action(a) => {
            actions_are_written_as_lists(a);
        },
        CommandView::Extract(_, e, variants) => {
            expressions_are_written_as_lists(e);
            expressions_are_written_as_lists(variants);
            list_of_three(word("extract"@), expr_form(e), expr_form(variants));
        },
        CommandView::RunSchedule(s) => {
            schedules_are_written_as_lists(s);
            list_of_two(word("run-schedule"@), schedule_form(s));
        },
        CommandView::Check(_, fs) => {
            let front = seq![word("check"@)];
            assert(form_text(front[0]) == "check"@);
            assert(forms_text(front, 1) == "check"@);
            longer(front, fact_forms(fs), fs.len());
            one_space_before(fact_forms(fs), fs.len());
            all_facts_are_forms(fs);
            text_is_joined("("@, "check"@, " "@ + facts_text(fs));
            text_is_joined("("@ + "check"@, " "@, facts_text(fs));
        },
        CommandView::Output { file, exprs, .. } => {
            let front = seq![word("output"@), quotation(file)];
            assert(form_text(front[0]) == "output"@);
            assert(forms_text(front, 1) == "output"@);
            assert(form_text(front[1]) == quoted(file));
            assert(forms_text(front, 2) == forms_text(front, 1) + " "@ + quoted(file));
            longer(front, expr_forms(exprs), exprs.len());
            arguments_are_behind(exprs, exprs.len());
            let two = "output"@ + " "@ + quoted(file);
            text_is_joined("("@, two, args_text(exprs, exprs.len()));
            text_is_joined("("@, "output"@ + " "@, quoted(file));
            text_is_joined("("@, "output"@, " "@);
        },
        CommandView::Fail(_, inner) => {
            commands_are_written_as_lists(*inner);
            list_of_two(word("fail"@), command_form(*inner));
        },
        CommandView::Other(_, _) => {},
    }
    assert("(ruleset "@ =~= "("@ + "ruleset"@ + " "@) by {
        reveal_strlit("(ruleset ");
        reveal_strlit(" ");
        reveal_strlit("(");
        reveal_strlit("ruleset");
    }
    assert("(unstable-combined-ruleset "@ =~= "("@ + "unstable-combined-ruleset"@ + " "@) by {
        reveal_strlit("(unstable-combined-ruleset ");
        reveal_strlit(" ");
        reveal_strlit("(");
        reveal_strlit("unstable-combined-ruleset");
    }
    assert("(extract "@ =~= "("@ + "extract"@ + " "@) by {
        reveal_strlit("(extract ");
        reveal_strlit(" ");
        reveal_strlit("(");
        reveal_strlit("extract");
    }
    assert("(run-schedule "@ =~= "("@ + "run-schedule"@ + " "@) by {
        reveal_strlit("(run-schedule ");
        reveal_strlit(" ");
        reveal_strlit("(");
        reveal_strlit("run-schedule");
    }
    assert("(check "@ =~= "("@ + "check"@ + " "@) by {
        reveal_strlit("(check ");
        reveal_strlit(" ");
        reveal_strlit("(");
        reveal_strlit("check");
    }
    assert("(output "@ =~= "("@ + "output"@ + " "@) by {
        reveal_strlit("(output ");
        reveal_strlit(" ");
        reveal_strlit("(");
        reveal_strlit("output");
    }
    assert("(fail "@ =~= "("@ + "fail"@ + " "@) by {
        reveal_strlit("(fail ");
        reveal_strlit(" ");
        reveal_strlit("(");
        reveal_strlit("fail");
    }
}

/// The declaration of a sort is written as its form.
proof fn sorts_are_forms(name: Seq<char>, presort_and_args: Option<(Seq<char>, Seq<ExprView>)>)
    ensures
        form_text(sort_form(name, presort_and_args)) == sort_text(name, presort_and_args),
{
    match presort_and_args {
        Some((presort, args)) => {
            calls_are_forms(presort, args);
            list_of_three(word("sort"@), word(name), call_form(presort, args));
        },
        None => {
            list_of_two(word("sort"@), word(name));
        },
    }
    assert("(sort "@ =~= "("@ + "sort"@ + " "@) by {
        reveal_strlit("(sort ");
        reveal_strlit(" ");
        reveal_strlit("(");
        reveal_strlit("sort");
    }
}

} // verus!
