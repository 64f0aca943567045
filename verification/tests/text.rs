use slotted::ast::{
    Action, Change, Command, Expr, Fact, FunctionDecl, FunctionSubtype, Literal, NCommand, Rule,
    RunConfig, Schedule, Schema, Span,
};
use slotted::names::SymbolGen;
use slotted::slotted_encoding::SlottedInstrumentor;

const HERE: Span = Span::Generated;

fn text(s: &str) -> String {
    s.to_string()
}

fn var(name: &str) -> Expr {
    Expr::Var(HERE, text(name))
}

fn number(n: i64) -> Expr {
    Expr::Lit(HERE, Literal::Int(n))
}

fn call(head: &str, args: Vec<Expr>) -> Expr {
    Expr::Call(HERE, text(head), args)
}

fn shown(e: Expr) -> String {
    Command::Action(Action::Expr(HERE, e)).text()
}

fn decl(subtype: FunctionSubtype, inputs: &[&str]) -> FunctionDecl {
    FunctionDecl {
        span: HERE,
        name: text("F"),
        subtype,
        schema: Schema {
            input: inputs.iter().map(|s| text(s)).collect(),
            output: text("U"),
        },
        merge: None,
        cost: None,
        unextractable: false,
    }
}

#[test]
fn expressions_are_written_in_prefix_form() {
    assert_eq!(shown(var("x")), "x");
    assert_eq!(shown(call("Nil", vec![])), "(Nil)");
    assert_eq!(
        shown(call("App", vec![var("f"), call("g", vec![var("a"), number(7)])])),
        "(App f (g a 7))"
    );
}

#[test]
fn literals_are_written_as_read() {
    assert_eq!(shown(number(0)), "0");
    assert_eq!(shown(number(-120)), "-120");
    assert_eq!(shown(number(i64::MAX)), "9223372036854775807");
    assert_eq!(shown(number(i64::MIN)), "-9223372036854775808");
    let lit = |l: Literal| shown(Expr::Lit(HERE, l));
    assert_eq!(lit(Literal::Float(text("2.5"))), "2.5");
    assert_eq!(lit(Literal::Text(text("a b"))), "\"a b\"");
    assert_eq!(lit(Literal::Bool(true)), "true");
    assert_eq!(lit(Literal::Bool(false)), "false");
    assert_eq!(lit(Literal::Unit), "()");
}

#[test]
fn actions_are_written_with_their_keywords() {
    let shown = |a: Action| Command::Action(a).text();
    let args = || vec![var("a"), var("b")];
    assert_eq!(shown(Action::Let(HERE, text("v"), number(1))), "(let v 1)");
    assert_eq!(
        shown(Action::Assign(HERE, text("f"), args(), number(1))),
        "(set (f a b) 1)"
    );
    assert_eq!(
        shown(Action::Change(HERE, Change::Delete, text("f"), args())),
        "(delete (f a b))"
    );
    assert_eq!(
        shown(Action::Change(HERE, Change::Subsume, text("f"), vec![])),
        "(subsume (f))"
    );
    assert_eq!(
        shown(Action::Union(HERE, var("a"), var("b"))),
        "(union a b)"
    );
    assert_eq!(
        shown(Action::Panic(HERE, text("no"))),
        "(panic \"no\")"
    );
}

#[test]
fn declarations_are_written_with_their_options() {
    let sort = |presort_and_args| Command::Sort {
        span: HERE,
        name: text("S"),
        presort_and_args,
    };
    assert_eq!(sort(None).text(), "(sort S)");
    assert_eq!(
        sort(Some((text("Map"), vec![var("i64"), var("i64")]))).text(),
        "(sort S (Map i64 i64))"
    );
    let mut f = decl(FunctionSubtype::Constructor, &["i64", "U"]);
    assert_eq!(
        Command::Function(f.clone()).text(),
        "(constructor F (i64 U) U)"
    );
    f.cost = Some(12);
    f.unextractable = true;
    assert_eq!(
        Command::Function(f).text(),
        "(constructor F (i64 U) U :cost 12 :unextractable)"
    );
    let mut f = decl(FunctionSubtype::Custom, &[]);
    assert_eq!(
        Command::Function(f.clone()).text(),
        "(function F () U :no-merge)"
    );
    f.merge = Some(var("new"));
    assert_eq!(Command::Function(f).text(), "(function F () U :merge new)");
    assert_eq!(
        Command::Function(decl(FunctionSubtype::Relation, &["U"])).text(),
        "(relation F (U))"
    );
    let relation = Command::Relation {
        span: HERE,
        name: text("R"),
        inputs: vec![text("U"), text("U")],
    };
    assert_eq!(relation.text(), "(relation R (U U))");
    assert_eq!(Command::AddRuleset(HERE, text("r")).text(), "(ruleset r)");
    assert_eq!(
        Command::UnstableCombinedRuleset(HERE, text("r"), vec![text("p"), text("q")]).text(),
        "(unstable-combined-ruleset r p q)"
    );
}

#[test]
fn rules_are_written_with_ruleset_and_name() {
    let mut rule = Rule {
        span: HERE,
        head: vec![
            Action::Union(HERE, var("a"), var("b")),
            Action::Expr(HERE, call("g", vec![])),
        ],
        body: vec![
            Fact::Eq(HERE, var("a"), call("f", vec![var("b")])),
            Fact::Fact(call("h", vec![var("a")])),
        ],
        name: String::new(),
        ruleset: String::new(),
    };
    assert_eq!(
        Command::Rule { rule: rule.clone() }.text(),
        "(rule ((= a (f b)) (h a)) ((union a b) (g)))"
    );
    rule.ruleset = text("mine");
    rule.name = text("first");
    rule.body = vec![];
    assert_eq!(
        Command::Rule { rule }.text(),
        "(rule () ((union a b) (g)) :ruleset mine :name \"first\")"
    );
}

#[test]
fn other_commands_are_written_in_full() {
    let facts = || vec![Fact::Fact(var("a")), Fact::Fact(var("b"))];
    assert_eq!(
        Command::Extract(HERE, var("a"), number(3)).text(),
        "(extract a 3)"
    );
    assert_eq!(Command::Check(HERE, facts()).text(), "(check a b)");
    let output = Command::Output {
        span: HERE,
        file: text("out"),
        exprs: vec![var("a"), number(1)],
    };
    assert_eq!(output.text(), "(output \"out\" a 1)");
    assert_eq!(
        Command::Fail(HERE, Box::new(Command::Check(HERE, facts()))).text(),
        "(fail (check a b))"
    );
    assert_eq!(Command::Other(HERE, text("(push)")).text(), "(push)");
    let run = |ruleset: &str, until| {
        Schedule::Run(
            HERE,
            RunConfig {
                ruleset: text(ruleset),
                until,
            },
        )
    };
    let schedule = Schedule::Sequence(
        HERE,
        vec![
            run("", None),
            Schedule::Repeat(HERE, 10, Box::new(run("mine", Some(facts())))),
            Schedule::Saturate(HERE, Box::new(run("mine", None))),
        ],
    );
    assert_eq!(
        Command::RunSchedule(schedule).text(),
        "(run-schedule (seq (run) (repeat 10 (run mine :until a b)) (saturate (run mine))))"
    );
}

#[test]
fn an_encoded_program_can_be_read() {
    let mut pass = SlottedInstrumentor::new(SymbolGen::new(text("@")));
    let sort = NCommand::Sort {
        span: HERE,
        name: text("U"),
        presort_and_args: None,
    };
    let out = pass.add_slotted_encoding(&vec![
        sort,
        NCommand::Check(HERE, vec![Fact::Fact(var("x"))]),
    ]);
    let shown: Vec<String> = out.iter().map(|c| c.text()).collect();
    assert_eq!(shown.first().unwrap(), "(sort U)");
    assert_eq!(shown[1], "(sort Renaming (Map i64 i64))");
    assert_eq!(shown[2], "(ruleset slotted)");
    assert_eq!(shown[shown.len() - 2], "(check x)");
    assert_eq!(
        shown.last().unwrap(),
        "(run-schedule (saturate (run slotted)))"
    );
}
