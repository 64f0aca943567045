//! The sorts, relations and rules that the encoding adds to a program.

use vstd::prelude::*;
use vstd::string::*;

use crate::ast::{
    actions, commands, exprs, exprs_push, facts, make_call, Action, ActionView, Change, Command,
    CommandView, Expr, ExprView, Fact, FactView, FunctionDecl, FunctionDeclView, FunctionSubtype,
    Rule, RuleView, RunConfig, Schedule, Schema, SchemaView, Span,
};
use crate::names::{numbered, numbered_name, texts};
use crate::slotted_encoding::model::{
    compose_call, empty_rename, interleave, inverse_call, saturate_slotted,
};

verus! {

// ---------------------------------------------------------------------------
// Generated syntax
// ---------------------------------------------------------------------------
/// A generated variable.
pub open spec fn var(name: Seq<char>) -> ExprView {
    ExprView::Var(Span::Generated, name)
}

/// A generated call.
pub open spec fn call(head: Seq<char>, args: Seq<ExprView>) -> ExprView {
    ExprView::Call(Span::Generated, head, args)
}

/// A generated equation.
pub open spec fn equal(a: ExprView, b: ExprView) -> FactView {
    FactView::Eq(Span::Generated, a, b)
}

/// `(!= a b)`.
pub open spec fn differ(a: ExprView, b: ExprView) -> FactView {
    FactView::Fact(call("!="@, seq![a, b]))
}

/// The name of the relation that records which terms of a sort rename to
/// which.
pub open spec fn leader_relation(sort: Seq<char>) -> Seq<char> {
    "RenamesToLeader_"@ + sort
}

/// `(RenamesToLeader_<sort> a b r)`.
pub open spec fn renames_to(sort: Seq<char>, a: ExprView, b: ExprView, r: ExprView) -> ExprView {
    call(leader_relation(sort), seq![a, b, r])
}

/// A nameless rule of the `slotted` ruleset.
pub open spec fn slotted_rule(body: Seq<FactView>, head: Seq<ActionView>) -> CommandView {
    CommandView::Rule {
        rule: RuleView {
            span: Span::Generated,
            head,
            body,
            name: Seq::empty(),
            ruleset: "slotted"@,
        },
    }
}

/// Makes a generated variable.
fn make_var(name: &str) -> (r: Expr)
    ensures
        r@ == var(name@),
{
    Expr::Var(Span::Generated, String::from_str(name))
}

/// Makes a generated call without arguments.
fn call0(head: &str) -> (r: Expr)
    ensures
        r@ == call(head@, Seq::empty()),
{
    let args: Vec<Expr> = Vec::new();
    assert(exprs(args@) =~= Seq::empty());
    make_call(Span::Generated, String::from_str(head), args)
}

/// Makes a generated call with one argument.
fn call1(head: &str, a: Expr) -> (r: Expr)
    ensures
        r@ == call(head@, seq![a@]),
{
    let args: Vec<Expr> = vec![a];
    assert(exprs(args@) =~= seq![a@]);
    make_call(Span::Generated, String::from_str(head), args)
}

/// Makes a generated call with two arguments.
fn call2(head: &str, a: Expr, b: Expr) -> (r: Expr)
    ensures
        r@ == call(head@, seq![a@, b@]),
{
    let args: Vec<Expr> = vec![a, b];
    assert(exprs(args@) =~= seq![a@, b@]);
    make_call(Span::Generated, String::from_str(head), args)
}

/// Makes a generated call with three arguments.
fn call3(head: &str, a: Expr, b: Expr, c: Expr) -> (r: Expr)
    ensures
        r@ == call(head@, seq![a@, b@, c@]),
{
    let args: Vec<Expr> = vec![a, b, c];
    assert(exprs(args@) =~= seq![a@, b@, c@]);
    make_call(Span::Generated, String::from_str(head), args)
}

/// Makes a generated equation.
fn make_equal(a: Expr, b: Expr) -> (r: Fact)
    ensures
        r@ == equal(a@, b@),
{
    Fact::Eq(Span::Generated, a, b)
}

/// Makes `(!= a b)`.
fn make_differ(a: &str, b: &str) -> (r: Fact)
    ensures
        r@ == differ(var(a@), var(b@)),
{
    Fact::Fact(call2("!=", make_var(a), make_var(b)))
}

/// The name of the leader relation of a sort.
fn leader_relation_name(sort: &String) -> (r: String)
    ensures
        r@ == leader_relation(sort@),
{
    String::from_str("RenamesToLeader_").concat(sort.as_str())
}

/// Makes `(RenamesToLeader_<sort> a b r)`.
fn make_renames_to(sort: &String, a: Expr, b: Expr, rename: Expr) -> (r: Expr)
    ensures
        r@ == renames_to(sort@, a@, b@, rename@),
{
    call3(leader_relation_name(sort).as_str(), a, b, rename)
}

/// Makes a nameless rule of the `slotted` ruleset.
fn make_slotted_rule(body: Vec<Fact>, head: Vec<Action>) -> (r: Command)
    ensures
        r@ == slotted_rule(facts(body@), actions(head@)),
{
    Command::Rule {
        rule: Rule {
            span: Span::Generated,
            head,
            body,
            name: String::new(),
            ruleset: String::from_str("slotted"),
        },
    }
}

// ---------------------------------------------------------------------------
// Once per program
// ---------------------------------------------------------------------------
/// `(sort Renaming (Map i64 i64))`.
pub open spec fn renaming_sort() -> CommandView {
    CommandView::Sort {
        span: Span::Generated,
        name: "Renaming"@,
        presort_and_args: Some(("Map"@, seq![var("i64"@), var("i64"@)])),
    }
}

/// `(ruleset slotted)`.
pub open spec fn slotted_ruleset() -> CommandView {
    CommandView::AddRuleset(Span::Generated, "slotted"@)
}

/// `(run-schedule (saturate slotted))`.
pub open spec fn maintenance() -> CommandView {
    CommandView::RunSchedule(saturate_slotted(Span::Generated))
}

/// Makes `(saturate slotted)`.
pub fn make_saturate_slotted(span: Span) -> (r: Schedule)
    ensures
        r@ == saturate_slotted(span),
{
    let run = Schedule::Run(
        span,
        RunConfig { ruleset: String::from_str("slotted"), until: None },
    );
    assert(run@ == *saturate_slotted(span)->Saturate_1);
    Schedule::Saturate(span, Box::new(run))
}

/// Makes `(run-schedule (saturate slotted))`.
pub fn make_maintenance() -> (r: Command)
    ensures
        r@ == maintenance(),
{
    Command::RunSchedule(make_saturate_slotted(Span::Generated))
}

/// Makes the declarations that a program gets once.
pub fn make_program_preamble() -> (r: Vec<Command>)
    ensures
        commands(r@) == seq![renaming_sort(), slotted_ruleset()],
{
    let args: Vec<Expr> = vec![make_var("i64"), make_var("i64")];
    assert(exprs(args@) =~= seq![var("i64"@), var("i64"@)]);
    let sort = Command::Sort {
        span: Span::Generated,
        name: String::from_str("Renaming"),
        presort_and_args: Some((String::from_str("Map"), args)),
    };
    let r: Vec<Command> = vec![
        sort,
        Command::AddRuleset(Span::Generated, String::from_str("slotted")),
    ];
    assert(commands(r@) =~= seq![renaming_sort(), slotted_ruleset()]);
    r
}

// ---------------------------------------------------------------------------
// Once per sort
// ---------------------------------------------------------------------------
/// `(relation RenamesToLeader_<sort> (<sort> <sort> Renaming))`.
pub open spec fn leader_declaration(sort: Seq<char>) -> CommandView {
    CommandView::Relation {
        span: Span::Generated,
        name: leader_relation(sort),
        inputs: seq![sort, sort, "Renaming"@],
    }
}

/// Renaming to a leader is transitive.
pub open spec fn transitivity_rule(sort: Seq<char>) -> CommandView {
    slotted_rule(
        seq![
            FactView::Fact(renames_to(sort, var("e1"@), var("e2"@), var("R"@))),
            FactView::Fact(renames_to(sort, var("e2"@), var("e3"@), var("R2"@))),
        ],
        seq![
            ActionView::Expr(
                Span::Generated,
                renames_to(
                    sort,
                    var("e1"@),
                    var("e3"@),
                    compose_call(Span::Generated, var("R2"@), var("R"@)),
                ),
            ),
        ],
    )
}

/// Makes the declarations that each sort with slots gets.
pub fn make_sort_preamble(sort: &String) -> (r: Vec<Command>)
    ensures
        commands(r@) == seq![leader_declaration(sort@), transitivity_rule(sort@)],
{
    let inputs: Vec<String> = vec![sort.clone(), sort.clone(), String::from_str("Renaming")];
    assert(texts(inputs@) =~= seq![sort@, sort@, "Renaming"@]);
    let relation = Command::Relation {
        span: Span::Generated,
        name: leader_relation_name(sort),
        inputs,
    };
    let first = make_renames_to(sort, make_var("e1"), make_var("e2"), make_var("R"));
    let second = make_renames_to(sort, make_var("e2"), make_var("e3"), make_var("R2"));
    let composed = call2("compose", make_var("R2"), make_var("R"));
    let derived = make_renames_to(sort, make_var("e1"), make_var("e3"), composed);
    let body: Vec<Fact> = vec![Fact::Fact(first), Fact::Fact(second)];
    assert(facts(body@) =~= seq![FactView::Fact(first@), FactView::Fact(second@)]);
    let head: Vec<Action> = vec![Action::Expr(Span::Generated, derived)];
    assert(actions(head@) =~= seq![ActionView::Expr(Span::Generated, derived@)]);
    let r: Vec<Command> = vec![relation, make_slotted_rule(body, head)];
    assert(commands(r@) =~= seq![leader_declaration(sort@), transitivity_rule(sort@)]);
    r
}

// ---------------------------------------------------------------------------
// Once per leaf constructor
// ---------------------------------------------------------------------------
/// Two leaves with different slots rename to each other.
pub open spec fn leaf_pair_rule(name: Seq<char>, output: Seq<char>) -> CommandView {
    slotted_rule(
        seq![
            equal(var("e1"@), call(name, seq![var("id1"@)])),
            equal(var("e2"@), call(name, seq![var("id2"@)])),
            differ(var("id1"@), var("id2"@)),
            equal(var("e2"@), call("ordering-max"@, seq![var("e1"@), var("e2"@)])),
        ],
        seq![
            ActionView::Expr(
                Span::Generated,
                renames_to(
                    output,
                    var("e2"@),
                    var("e1"@),
                    call(
                        "map-insert"@,
                        seq![empty_rename(Span::Generated), var("id2"@), var("id1"@)],
                    ),
                ),
            ),
        ],
    )
}

/// Makes the rule of a leaf constructor.
pub fn make_leaf_pair_rule(name: &String, output: &String) -> (r: Command)
    ensures
        r@ == leaf_pair_rule(name@, output@),
{
    let f1 = make_equal(make_var("e1"), call1(name.as_str(), make_var("id1")));
    let f2 = make_equal(make_var("e2"), call1(name.as_str(), make_var("id2")));
    let f3 = make_differ("id1", "id2");
    let f4 = make_equal(
        make_var("e2"),
        call2("ordering-max", make_var("e1"), make_var("e2")),
    );
    let rename = call3("map-insert", call0("map-empty"), make_var("id2"), make_var("id1"));
    let derived = make_renames_to(output, make_var("e2"), make_var("e1"), rename);
    let body: Vec<Fact> = vec![f1, f2, f3, f4];
    assert(facts(body@) =~= seq![f1@, f2@, f3@, f4@]);
    let head: Vec<Action> = vec![Action::Expr(Span::Generated, derived)];
    assert(actions(head@) =~= seq![ActionView::Expr(Span::Generated, derived@)]);
    make_slotted_rule(body, head)
}

// ---------------------------------------------------------------------------
// Once per compound constructor
// ---------------------------------------------------------------------------
/// The argument sorts of a constructor with a `Renaming` behind each of the
/// first `n` that carries slots.
pub open spec fn slotted_inputs(inputs: Seq<Seq<char>>, mask: Seq<bool>, n: nat) -> Seq<Seq<char>>
    decreases n,
{
    if n == 0 {
        Seq::empty()
    } else {
        let front = slotted_inputs(inputs, mask, (n - 1) as nat).push(inputs[n - 1]);
        if mask[n - 1] {
            front.push("Renaming"@)
        } else {
            front
        }
    }
}

/// The declaration of a constructor with its edges.
pub open spec fn slotted_constructor(
    name: Seq<char>,
    inputs: Seq<Seq<char>>,
    output: Seq<char>,
    mask: Seq<bool>,
) -> CommandView {
    let n = if inputs.len() <= mask.len() {
        inputs.len()
    } else {
        mask.len()
    };
    CommandView::Function(
        FunctionDeclView {
            span: Span::Generated,
            name,
            subtype: FunctionSubtype::Constructor,
            schema: SchemaView { input: slotted_inputs(inputs, mask, n), output },
            merge: None,
            cost: None,
            unextractable: false,
        },
    )
}

/// How a rule writes a node of a compound constructor. A child at position `i`
/// is called `c<i>` and an argument without slots `x<i>`, unless noted
/// otherwise.
#[derive(Clone, Copy, Debug, PartialEq, Eq)]
pub enum Pattern {
    /// The edges are `a<i>`.
    First,
    /// The edges are `b<i>`.
    Second,
    /// The edges are `r<i>`.
    Plain,
    /// The edges are `(compose R r<i>)`.
    Composed,
    /// The edges are `r<i>`, but the child at this position is `c`, its edge `r`.
    ChildMatched(usize),
    /// The edges are `r<i>`, but the child at this position is `c'`, its edge
    /// `(compose r (inverse R))`.
    ChildReplaced(usize),
}

/// A child of a node.
pub open spec fn pattern_child(p: Pattern, i: int) -> ExprView {
    match p {
        Pattern::ChildMatched(k) => if i == k {
            var("c"@)
        } else {
            var(numbered("c"@, i as nat))
        },
        Pattern::ChildReplaced(k) => if i == k {
            var("c'"@)
        } else {
            var(numbered("c"@, i as nat))
        },
        _ => var(numbered("c"@, i as nat)),
    }
}

/// The edge of a child of a node.
pub open spec fn pattern_edge(p: Pattern, i: int) -> ExprView {
    let plain = var(numbered("r"@, i as nat));
    match p {
        Pattern::First => var(numbered("a"@, i as nat)),
        Pattern::Second => var(numbered("b"@, i as nat)),
        Pattern::Plain => plain,
        Pattern::Composed => compose_call(Span::Generated, var("R"@), plain),
        Pattern::ChildMatched(k) => if i == k {
            var("r"@)
        } else {
            plain
        },
        Pattern::ChildReplaced(k) => if i == k {
            compose_call(Span::Generated, var("r"@), inverse_call(Span::Generated, var("R"@)))
        } else {
            plain
        },
    }
}

/// The arguments of a node, without its edges.
pub open spec fn pattern_children(mask: Seq<bool>, p: Pattern) -> Seq<ExprView> {
    Seq::new(
        mask.len(),
        |i: int|
            if mask[i] {
                pattern_child(p, i)
            } else {
                var(numbered("x"@, i as nat))
            },
    )
}

/// The edges of a node.
pub open spec fn pattern_edges(mask: Seq<bool>, p: Pattern) -> Seq<Option<ExprView>> {
    Seq::new(
        mask.len(),
        |i: int|
            if mask[i] {
                Some(pattern_edge(p, i))
            } else {
                None
            },
    )
}

/// The arguments of a node, each child followed by its edge.
pub open spec fn pattern_args(mask: Seq<bool>, p: Pattern) -> Seq<ExprView> {
    interleave(pattern_children(mask, p), pattern_edges(mask, p), mask.len())
}

/// A node of the constructor `name`.
pub open spec fn node(name: Seq<char>, mask: Seq<bool>, p: Pattern) -> ExprView {
    call(name, pattern_args(mask, p))
}

/// The edges of the first `n` positions that carry slots.
pub open spec fn edge_vars(mask: Seq<bool>, p: Pattern, n: nat) -> Seq<ExprView>
    decreases n,
{
    if n == 0 {
        Seq::empty()
    } else {
        let front = edge_vars(mask, p, (n - 1) as nat);
        if mask[n - 1] {
            front.push(pattern_edge(p, n - 1))
        } else {
            front
        }
    }
}

/// Two nodes with the same children are equal up to the renaming between
/// their edges.
pub open spec fn alpha_rule(name: Seq<char>, output: Seq<char>, mask: Seq<bool>) -> CommandView {
    slotted_rule(
        seq![
            equal(var("e1"@), node(name, mask, Pattern::First)),
            equal(var("e2"@), node(name, mask, Pattern::Second)),
            equal(
                var("rename"@),
                call(
                    "find-mapping"@,
                    edge_vars(mask, Pattern::First, mask.len()) + edge_vars(
                        mask,
                        Pattern::Second,
                        mask.len(),
                    ),
                ),
            ),
            equal(var("e2"@), call("ordering-max"@, seq![var("e1"@), var("e2"@)])),
        ],
        seq![
            ActionView::Expr(
                Span::Generated,
                renames_to(output, var("e2"@), var("e1"@), var("rename"@)),
            ),
        ],
    )
}

/// A node that renames to a leader is replaced by the renamed node.
pub open spec fn migration_rule(
    name: Seq<char>,
    output: Seq<char>,
    mask: Seq<bool>,
) -> CommandView {
    slotted_rule(
        seq![
            FactView::Fact(renames_to(output, var("e2"@), var("e1"@), var("R"@))),
            equal(var("e2"@), node(name, mask, Pattern::Plain)),
            differ(var("e1"@), var("e2"@)),
        ],
        seq![
            ActionView::Union(
                Span::Generated,
                var("e2"@),
                node(name, mask, Pattern::Composed),
            ),
            ActionView::Change(
                Span::Generated,
                Change::Delete,
                name,
                pattern_args(mask, Pattern::Plain),
            ),
        ],
    )
}

/// A node is also a node over the leader of its child at position `pos`.
pub open spec fn child_rule(
    name: Seq<char>,
    output: Seq<char>,
    mask: Seq<bool>,
    pos: usize,
) -> CommandView {
    slotted_rule(
        seq![
            FactView::Fact(renames_to(output, var("c"@), var("c'"@), var("R"@))),
            equal(var("node"@), node(name, mask, Pattern::ChildMatched(pos))),
            differ(var("c"@), var("c'"@)),
        ],
        seq![
            ActionView::Union(
                Span::Generated,
                var("node"@),
                node(name, mask, Pattern::ChildReplaced(pos)),
            ),
        ],
    )
}

/// The child rules of the first `n` positions that carry slots.
pub open spec fn child_rules(
    name: Seq<char>,
    output: Seq<char>,
    mask: Seq<bool>,
    n: nat,
) -> Seq<CommandView>
    decreases n,
{
    if n == 0 {
        Seq::empty()
    } else {
        let front = child_rules(name, output, mask, (n - 1) as nat);
        if mask[n - 1] {
            front.push(child_rule(name, output, mask, (n - 1) as usize))
        } else {
            front
        }
    }
}

/// All that the declaration of a compound constructor becomes.
pub open spec fn compound_machinery(
    name: Seq<char>,
    inputs: Seq<Seq<char>>,
    output: Seq<char>,
    mask: Seq<bool>,
) -> Seq<CommandView> {
    seq![
        slotted_constructor(name, inputs, output, mask),
        alpha_rule(name, output, mask),
        migration_rule(name, output, mask),
    ] + child_rules(name, output, mask, mask.len())
}

/// Makes the argument sorts of a constructor with its edges.
fn make_slotted_inputs(inputs: &Vec<String>, mask: &Vec<bool>) -> (r: Vec<String>)
    ensures
        texts(r@) == slotted_inputs(
            texts(inputs@),
            mask@,
            if inputs@.len() <= mask@.len() {
                inputs@.len()
            } else {
                mask@.len()
            },
        ),
{
    let mut r: Vec<String> = Vec::new();
    let mut i: usize = 0;
    assert(texts(r@) =~= Seq::empty());
    while i < inputs.len() && i < mask.len()
        invariant
            i <= inputs.len(),
            i <= mask.len(),
            texts(r@) == slotted_inputs(texts(inputs@), mask@, i as nat),
        decreases inputs.len() - i,
    {
        let ghost before = r@;
        r.push(inputs[i].clone());
        if mask[i] {
            r.push(String::from_str("Renaming"));
        }
        i += 1;
        assert(texts(r@) =~= slotted_inputs(texts(inputs@), mask@, i as nat));
    }
    r
}

/// Makes a child of a node.
fn make_pattern_child(p: Pattern, i: usize) -> (r: Expr)
    ensures
        r@ == pattern_child(p, i as int),
{
    match p {
        Pattern::ChildMatched(k) => if i == k {
            make_var("c")
        } else {
            make_var(numbered_name("c", i).as_str())
        },
        Pattern::ChildReplaced(k) => if i == k {
            make_var("c'")
        } else {
            make_var(numbered_name("c", i).as_str())
        },
        _ => make_var(numbered_name("c", i).as_str()),
    }
}

/// Makes the edge of a child of a node.
fn make_pattern_edge(p: Pattern, i: usize) -> (r: Expr)
    ensures
        r@ == pattern_edge(p, i as int),
{
    match p {
        Pattern::First => make_var(numbered_name("a", i).as_str()),
        Pattern::Second => make_var(numbered_name("b", i).as_str()),
        Pattern::Plain => make_var(numbered_name("r", i).as_str()),
        Pattern::Composed => call2(
            "compose",
            make_var("R"),
            make_var(numbered_name("r", i).as_str()),
        ),
        Pattern::ChildMatched(k) => if i == k {
            make_var("r")
        } else {
            make_var(numbered_name("r", i).as_str())
        },
        Pattern::ChildReplaced(k) => if i == k {
            call2("compose", make_var("r"), call1("inverse", make_var("R")))
        } else {
            make_var(numbered_name("r", i).as_str())
        },
    }
}

/// Makes the arguments of a node, each child followed by its edge.
fn make_pattern_args(mask: &Vec<bool>, p: Pattern) -> (r: Vec<Expr>)
    ensures
        exprs(r@) == pattern_args(mask@, p),
{
    broadcast use exprs_push;

    let mut r: Vec<Expr> = Vec::new();
    let mut i: usize = 0;
    assert(exprs(r@) =~= Seq::empty());
    while i < mask.len()
        invariant
            i <= mask.len(),
            exprs(r@) == interleave(pattern_children(mask@, p), pattern_edges(mask@, p), i as nat),
        decreases mask.len() - i,
    {
        if mask[i] {
            r.push(make_pattern_child(p, i));
            r.push(make_pattern_edge(p, i));
        } else {
            r.push(make_var(numbered_name("x", i).as_str()));
        }
        i += 1;
    }
    r
}

/// Makes a node of the constructor `name`.
fn make_node(name: &String, mask: &Vec<bool>, p: Pattern) -> (r: Expr)
    ensures
        r@ == node(name@, mask@, p),
{
    make_call(Span::Generated, name.clone(), make_pattern_args(mask, p))
}

/// Makes the arguments of `find-mapping`: the edges of the first node, then
/// those of the second.
fn make_mapping_args(mask: &Vec<bool>) -> (r: Vec<Expr>)
    ensures
        exprs(r@) == edge_vars(mask@, Pattern::First, mask@.len()) + edge_vars(
            mask@,
            Pattern::Second,
            mask@.len(),
        ),
{
    broadcast use exprs_push;

    let mut r: Vec<Expr> = Vec::new();
    assert(exprs(r@) =~= Seq::empty());
    let mut i: usize = 0;
    while i < mask.len()
        invariant
            i <= mask.len(),
            exprs(r@) == edge_vars(mask@, Pattern::First, i as nat),
        decreases mask.len() - i,
    {
        if mask[i] {
            r.push(make_pattern_edge(Pattern::First, i));
        }
        i += 1;
    }
    let ghost first = exprs(r@);
    assert(first =~= first + edge_vars(mask@, Pattern::Second, 0));
    i = 0;
    while i < mask.len()
        invariant
            i <= mask.len(),
            exprs(r@) == first + edge_vars(mask@, Pattern::Second, i as nat),
        decreases mask.len() - i,
    {
        let ghost before = edge_vars(mask@, Pattern::Second, i as nat);
        if mask[i] {
            r.push(make_pattern_edge(Pattern::Second, i));
            assert((first + before).push(pattern_edge(Pattern::Second, i as int)) =~= first
                + before.push(pattern_edge(Pattern::Second, i as int)));
        }
        i += 1;
    }
    r
}

/// Makes the rule that finds nodes which are equal up to renaming.
fn make_alpha_rule(name: &String, output: &String, mask: &Vec<bool>) -> (r: Command)
    ensures
        r@ == alpha_rule(name@, output@, mask@),
{
    let f1 = make_equal(make_var("e1"), make_node(name, mask, Pattern::First));
    let f2 = make_equal(make_var("e2"), make_node(name, mask, Pattern::Second));
    let mapping = make_call(
        Span::Generated,
        String::from_str("find-mapping"),
        make_mapping_args(mask),
    );
    let f3 = make_equal(make_var("rename"), mapping);
    let f4 = make_equal(
        make_var("e2"),
        call2("ordering-max", make_var("e1"), make_var("e2")),
    );
    let derived = make_renames_to(output, make_var("e2"), make_var("e1"), make_var("rename"));
    let body: Vec<Fact> = vec![f1, f2, f3, f4];
    assert(facts(body@) =~= seq![f1@, f2@, f3@, f4@]);
    let head: Vec<Action> = vec![Action::Expr(Span::Generated, derived)];
    assert(actions(head@) =~= seq![ActionView::Expr(Span::Generated, derived@)]);
    make_slotted_rule(body, head)
}

/// Makes the rule that pushes a renaming through the edges of a node.
fn make_migration_rule(name: &String, output: &String, mask: &Vec<bool>) -> (r: Command)
    ensures
        r@ == migration_rule(name@, output@, mask@),
{
    let f1 = Fact::Fact(
        make_renames_to(output, make_var("e2"), make_var("e1"), make_var("R")),
    );
    let f2 = make_equal(make_var("e2"), make_node(name, mask, Pattern::Plain));
    let f3 = make_differ("e1", "e2");
    let union = Action::Union(
        Span::Generated,
        make_var("e2"),
        make_node(name, mask, Pattern::Composed),
    );
    let delete = Action::Change(
        Span::Generated,
        Change::Delete,
        name.clone(),
        make_pattern_args(mask, Pattern::Plain),
    );
    let body: Vec<Fact> = vec![f1, f2, f3];
    assert(facts(body@) =~= seq![f1@, f2@, f3@]);
    let head: Vec<Action> = vec![union, delete];
    assert(actions(head@) =~= seq![union@, delete@]);
    make_slotted_rule(body, head)
}

/// Makes the rule that moves a node to the leader of one of its children.
fn make_child_rule(name: &String, output: &String, mask: &Vec<bool>, pos: usize) -> (r: Command)
    ensures
        r@ == child_rule(name@, output@, mask@, pos),
{
    let f1 = Fact::Fact(make_renames_to(output, make_var("c"), make_var("c'"), make_var("R")));
    let f2 = make_equal(make_var("node"), make_node(name, mask, Pattern::ChildMatched(pos)));
    let f3 = make_differ("c", "c'");
    let union = Action::Union(
        Span::Generated,
        make_var("node"),
        make_node(name, mask, Pattern::ChildReplaced(pos)),
    );
    let body: Vec<Fact> = vec![f1, f2, f3];
    assert(facts(body@) =~= seq![f1@, f2@, f3@]);
    let head: Vec<Action> = vec![union];
    assert(actions(head@) =~= seq![union@]);
    make_slotted_rule(body, head)
}

/// Makes all that the declaration of a compound constructor becomes.
pub fn make_compound_machinery(
    name: &String,
    inputs: &Vec<String>,
    output: &String,
    mask: &Vec<bool>,
) -> (r: Vec<Command>)
    ensures
        commands(r@) == compound_machinery(name@, texts(inputs@), output@, mask@),
{
    broadcast use crate::ast::commands_push;

    let decl = FunctionDecl {
        span: Span::Generated,
        name: name.clone(),
        subtype: FunctionSubtype::Constructor,
        schema: Schema { input: make_slotted_inputs(inputs, mask), output: output.clone() },
        merge: None,
        cost: None,
        unextractable: false,
    };
    let alpha = make_alpha_rule(name, output, mask);
    let migration = make_migration_rule(name, output, mask);
    let ghost start = seq![
        slotted_constructor(name@, texts(inputs@), output@, mask@),
        alpha_rule(name@, output@, mask@),
        migration_rule(name@, output@, mask@),
    ];
    let mut r: Vec<Command> = vec![Command::Function(decl), alpha, migration];
    assert(commands(r@) =~= start + child_rules(name@, output@, mask@, 0));
    let mut i: usize = 0;
    while i < mask.len()
        invariant
            i <= mask.len(),
            commands(r@) == start + child_rules(name@, output@, mask@, i as nat),
        decreases mask.len() - i,
    {
        let ghost before = child_rules(name@, output@, mask@, i as nat);
        if mask[i] {
            r.push(make_child_rule(name, output, mask, i));
            assert((start + before).push(child_rule(name@, output@, mask@, i)) =~= start
                + before.push(child_rule(name@, output@, mask@, i)));
        }
        i += 1;
    }
    r
}

} // verus!
