use slotted::ast::{
    Action, Change, Command, Expr, Fact, FunctionDecl, FunctionSubtype, Literal, NCommand, Rule,
    RunConfig, Schedule, Schema, Span,
};
use slotted::names::SymbolGen;
use slotted::slotted_encoding::{
    compose_path, id_on_values, id_on_values_expr, identity_at, synthesize_identity,
    synthesize_identity_from_exprs, SlottedInstrumentor,
};
use slotted::sort::map::{compose, inverse, map_union, MapContainer};
use slotted::sort::Value;
use std::collections::BTreeMap;

// ---------------------------------------------------------------------------
// Reading and printing programs
// ---------------------------------------------------------------------------
#[derive(Clone)]
enum Sexp {
    Atom(String),
    List(Vec<Sexp>),
}

fn read_all(text: &str) -> Vec<Sexp> {
    let spaced = text.replace('(', " ( ").replace(')', " ) ");
    let mut stack: Vec<Vec<Sexp>> = vec![vec![]];
    for token in spaced.split_whitespace() {
        if token == "(" {
            stack.push(vec![]);
        } else if token == ")" {
            let done = stack.pop().unwrap();
            stack.last_mut().unwrap().push(Sexp::List(done));
        } else {
            stack
                .last_mut()
                .unwrap()
                .push(Sexp::Atom(token.to_string()));
        }
    }
    stack.pop().unwrap()
}

fn atom(s: &Sexp) -> String {
    match s {
        Sexp::Atom(a) => a.clone(),
        Sexp::List(_) => panic!("not an atom"),
    }
}

fn list(s: &Sexp) -> &Vec<Sexp> {
    match s {
        Sexp::List(items) => items,
        Sexp::Atom(a) => panic!("not a list: {a}"),
    }
}

const HERE: Span = Span::Source { start: 0, end: 0 };

fn to_expr(s: &Sexp) -> Expr {
    match s {
        Sexp::Atom(a) => match a.parse::<i64>() {
            Ok(n) => Expr::Lit(HERE, Literal::Int(n)),
            Err(_) if a.starts_with('"') => {
                Expr::Lit(HERE, Literal::Text(a.trim_matches('"').to_string()))
            }
            Err(_) => Expr::Var(HERE, a.clone()),
        },
        Sexp::List(items) => Expr::Call(HERE, atom(&items[0]), items[1..].iter().map(to_expr).collect()),
    }
}

fn expr(text: &str) -> Expr {
    to_expr(&read_all(text)[0])
}

fn to_fact(s: &Sexp) -> Fact {
    if let Sexp::List(items) = s {
        if items.len() == 3 && atom(&items[0]) == "=" {
            return Fact::Eq(HERE, to_expr(&items[1]), to_expr(&items[2]));
        }
    }
    Fact::Fact(to_expr(s))
}

fn to_action(s: &Sexp) -> Action {
    let items = list(s);
    let call = |s: &Sexp| -> (String, Vec<Expr>) {
        let parts = list(s);
        (atom(&parts[0]), parts[1..].iter().map(to_expr).collect())
    };
    match atom(&items[0]).as_str() {
        "union" => Action::Union(HERE, to_expr(&items[1]), to_expr(&items[2])),
        "let" => Action::Let(HERE, atom(&items[1]), to_expr(&items[2])),
        "set" => {
            let (head, args) = call(&items[1]);
            Action::Assign(HERE, head, args, to_expr(&items[2]))
        }
        "delete" => {
            let (head, args) = call(&items[1]);
            Action::Change(HERE, Change::Delete, head, args)
        }
        "subsume" => {
            let (head, args) = call(&items[1]);
            Action::Change(HERE, Change::Subsume, head, args)
        }
        "panic" => Action::Panic(HERE, atom(&items[1])),
        _ => Action::Expr(HERE, to_expr(s)),
    }
}

fn to_schedule(s: &Sexp) -> Schedule {
    match s {
        Sexp::Atom(name) => Schedule::Run(
            HERE,
            RunConfig {
                ruleset: name.clone(),
                until: None,
            },
        ),
        Sexp::List(items) => match atom(&items[0]).as_str() {
            "saturate" => Schedule::Saturate(HERE, Box::new(to_schedule(&items[1]))),
            "repeat" => Schedule::Repeat(
                HERE,
                atom(&items[1]).parse().unwrap(),
                Box::new(to_schedule(&items[2])),
            ),
            "seq" => Schedule::Sequence(HERE, items[1..].iter().map(to_schedule).collect()),
            other => panic!("not a schedule: {other}"),
        },
    }
}

fn names(s: &Sexp) -> Vec<String> {
    list(s).iter().map(atom).collect()
}

fn to_command(s: &Sexp) -> NCommand {
    let items = list(s);
    match atom(&items[0]).as_str() {
        "sort" => NCommand::Sort {
            span: HERE,
            name: atom(&items[1]),
            presort_and_args: items.get(2).map(|p| {
                let parts = list(p);
                (atom(&parts[0]), parts[1..].iter().map(to_expr).collect())
            }),
        },
        kind @ ("constructor" | "function") => NCommand::Function(FunctionDecl {
            span: HERE,
            name: atom(&items[1]),
            subtype: if kind == "constructor" {
                FunctionSubtype::Constructor
            } else {
                FunctionSubtype::Custom
            },
            schema: Schema {
                input: names(&items[2]),
                output: atom(&items[3]),
            },
            merge: None,
            cost: None,
            unextractable: false,
        }),
        "ruleset" => NCommand::AddRuleset(HERE, atom(&items[1])),
        "rule" => NCommand::NormRule {
            rule: Rule {
                span: HERE,
                body: list(&items[1]).iter().map(to_fact).collect(),
                head: list(&items[2]).iter().map(to_action).collect(),
                name: String::new(),
                ruleset: String::new(),
            },
        },
        "run-schedule" => NCommand::RunSchedule(to_schedule(&items[1])),
        "check" => NCommand::Check(HERE, items[1..].iter().map(to_fact).collect()),
        "extract" => NCommand::Extract(
            HERE,
            to_expr(&items[1]),
            Expr::Lit(HERE, Literal::Int(0)),
        ),
        "output" => NCommand::Output {
            span: HERE,
            file: atom(&items[1]),
            exprs: items[2..].iter().map(to_expr).collect(),
        },
        "fail" => NCommand::Fail(HERE, Box::new(to_command(&items[1]))),
        "push" => NCommand::Other(HERE, "(push)".to_string()),
        _ => NCommand::CoreAction(to_action(s)),
    }
}

fn read_program(text: &str) -> Vec<NCommand> {
    read_all(text).iter().map(to_command).collect()
}

fn show(e: &Expr) -> String {
    match e {
        Expr::Lit(_, Literal::Int(n)) => format!("{n}"),
        Expr::Lit(_, Literal::Text(t)) => format!("\"{t}\""),
        Expr::Lit(..) => panic!("unexpected literal"),
        Expr::Var(_, v) => v.clone(),
        Expr::Call(_, head, args) => show_call(head, args),
    }
}

fn show_call(head: &str, args: &[Expr]) -> String {
    let mut s = format!("({head}");
    for a in args {
        s.push(' ');
        s.push_str(&show(a));
    }
    s.push(')');
    s
}

fn show_fact(f: &Fact) -> String {
    match f {
        Fact::Eq(_, a, b) => format!("(= {} {})", show(a), show(b)),
        Fact::Fact(e) => show(e),
    }
}

fn show_action(a: &Action) -> String {
    match a {
        Action::Let(_, v, e) => format!("(let {v} {})", show(e)),
        Action::Assign(_, head, args, e) => format!("(set {} {})", show_call(head, args), show(e)),
        Action::Change(_, Change::Delete, head, args) => {
            format!("(delete {})", show_call(head, args))
        }
        Action::Change(_, Change::Subsume, head, args) => {
            format!("(subsume {})", show_call(head, args))
        }
        Action::Union(_, x, y) => format!("(union {} {})", show(x), show(y)),
        Action::Panic(_, msg) => format!("(panic {msg})"),
        Action::Expr(_, e) => show(e),
    }
}

fn joined<T>(items: &[T], f: impl Fn(&T) -> String) -> String {
    items.iter().map(f).collect::<Vec<_>>().join(" ")
}

fn show_schedule(s: &Schedule) -> String {
    match s {
        Schedule::Run(_, config) => config.ruleset.clone(),
        Schedule::Saturate(_, inner) => format!("(saturate {})", show_schedule(inner)),
        Schedule::Repeat(_, n, inner) => format!("(repeat {n} {})", show_schedule(inner)),
        Schedule::Sequence(_, items) => format!("(seq {})", joined(items, show_schedule)),
    }
}

fn show_command(c: &Command) -> String {
    match c {
        Command::Sort {
            name,
            presort_and_args,
            ..
        } => match presort_and_args {
            None => format!("(sort {name})"),
            Some((presort, args)) => format!("(sort {name} {})", show_call(presort, args)),
        },
        Command::Function(f) => {
            let kind = match f.subtype {
                FunctionSubtype::Constructor => "constructor",
                _ => "function",
            };
            format!(
                "({kind} {} ({}) {})",
                f.name,
                f.schema.input.join(" "),
                f.schema.output
            )
        }
        Command::Relation { name, inputs, .. } => {
            format!("(relation {name} ({}))", inputs.join(" "))
        }
        Command::AddRuleset(_, name) => format!("(ruleset {name})"),
        Command::UnstableCombinedRuleset(_, name, parts) => {
            format!("(unstable-combined-ruleset {name} {})", parts.join(" "))
        }
        Command::Rule { rule } => {
            let tail = if rule.ruleset.is_empty() {
                String::new()
            } else {
                format!(" :ruleset {}", rule.ruleset)
            };
            format!(
                "(rule ({}) ({}){tail})",
                joined(&rule.body, show_fact),
                joined(&rule.head, show_action)
            )
        }
        Command::Action(a) => show_action(a),
        Command::Extract(_, e, n) => format!("(extract {} {})", show(e), show(n)),
        Command::RunSchedule(s) => format!("(run-schedule {})", show_schedule(s)),
        Command::Check(_, fs) => format!("(check {})", joined(fs, show_fact)),
        Command::Output { file, exprs, .. } => format!("(output {file} {})", joined(exprs, show)),
        Command::Fail(_, inner) => format!("(fail {})", show_command(inner)),
        Command::Other(_, text) => text.clone(),
    }
}

fn pass() -> SlottedInstrumentor {
    SlottedInstrumentor::new(SymbolGen::new("@".to_string()))
}

fn encode_with(pass: &mut SlottedInstrumentor, text: &str) -> Vec<String> {
    let out = pass.add_slotted_encoding(&read_program(text));
    out.iter().map(show_command).collect()
}

/// A pass that has seen the declarations of the running example.
fn declared() -> SlottedInstrumentor {
    let mut p = pass();
    encode_with(
        &mut p,
        "(sort U) (constructor Var (i64) U) (constructor App (String U U) U) (constructor Nil () U)",
    );
    p
}

fn encode(text: &str) -> Vec<String> {
    encode_with(&mut declared(), text)
}

const MAINTENANCE: &str = "(run-schedule (saturate slotted))";

// ---------------------------------------------------------------------------
// Renaming expressions
// ---------------------------------------------------------------------------
#[test]
fn renaming_expressions_are_built_as_written() {
    assert_eq!(show(&compose_path(HERE, None, expr("r"))), "r");
    assert_eq!(
        show(&compose_path(HERE, Some(expr("p")), expr("r"))),
        "(compose p r)"
    );
    assert_eq!(
        show(&id_on_values(HERE, &"r".to_string())),
        "(compose r (inverse r))"
    );
    assert_eq!(
        show(&id_on_values_expr(HERE, expr("(f x)"))),
        "(compose (f x) (inverse (f x)))"
    );
    assert_eq!(
        show(&identity_at(HERE, -3)),
        "(map-insert (map-empty) -3 -3)"
    );
}

#[test]
fn identities_are_synthesized_over_all_edges() {
    assert!(synthesize_identity(HERE, &vec![]).is_none());
    assert!(synthesize_identity_from_exprs(HERE, &vec![]).is_none());
    let one = synthesize_identity(HERE, &vec!["a".to_string()]).unwrap();
    assert_eq!(show(&one), "(compose a (inverse a))");
    let names = vec!["a".to_string(), "b".to_string(), "c".to_string()];
    let expected = "(map-union (map-union (compose a (inverse a)) (compose b (inverse b))) \
                    (compose c (inverse c)))";
    assert_eq!(show(&synthesize_identity(HERE, &names).unwrap()), expected);
    let edges = vec![expr("a"), expr("b"), expr("c")];
    assert_eq!(
        show(&synthesize_identity_from_exprs(HERE, &edges).unwrap()),
        expected
    );
}

// ---------------------------------------------------------------------------
// Declarations
// ---------------------------------------------------------------------------
#[test]
fn a_sort_brings_the_preamble_once() {
    let mut p = pass();
    let first = encode_with(&mut p, "(sort U)");
    assert_eq!(
        first,
        vec![
            "(sort U)",
            "(sort Renaming (Map i64 i64))",
            "(ruleset slotted)",
            "(relation RenamesToLeader_U (U U Renaming))",
            "(rule ((RenamesToLeader_U e1 e2 R) (RenamesToLeader_U e2 e3 R2)) \
             ((RenamesToLeader_U e1 e3 (compose R2 R))) :ruleset slotted)",
        ]
    );
    assert!(p.slotted_state.renaming_sort_emitted);
    assert!(p.is_u_sort(&"U".to_string()));
    assert!(!p.is_u_sort(&"V".to_string()));
    let second = encode_with(&mut p, "(sort V)");
    assert_eq!(
        second,
        vec![
            "(sort V)",
            "(relation RenamesToLeader_V (V V Renaming))",
            "(rule ((RenamesToLeader_V e1 e2 R) (RenamesToLeader_V e2 e3 R2)) \
             ((RenamesToLeader_V e1 e3 (compose R2 R))) :ruleset slotted)",
        ]
    );
}

#[test]
fn a_sort_over_a_presort_carries_no_slots() {
    let mut p = pass();
    assert_eq!(
        encode_with(&mut p, "(sort IVec (Vec i64))"),
        vec!["(sort IVec (Vec i64))"]
    );
    assert!(!p.is_u_sort(&"IVec".to_string()));
    assert!(!p.slotted_state.renaming_sort_emitted);
}

#[test]
fn a_leaf_constructor_gets_the_pair_rule() {
    let mut p = pass();
    encode_with(&mut p, "(sort U)");
    assert_eq!(
        encode_with(&mut p, "(constructor Var (i64) U)"),
        vec![
            "(constructor Var (i64) U)",
            "(rule ((= e1 (Var id1)) (= e2 (Var id2)) (!= id1 id2) \
             (= e2 (ordering-max e1 e2))) \
             ((RenamesToLeader_U e2 e1 (map-insert (map-empty) id2 id1))) :ruleset slotted)",
        ]
    );
}

#[test]
fn constructors_without_slots_are_left_alone() {
    let mut p = pass();
    encode_with(&mut p, "(sort U)");
    assert_eq!(
        encode_with(
            &mut p,
            "(constructor Nil () U) (constructor Pair (i64 i64) U) (constructor Name (String) U) \
             (constructor Num (i64) i64) (function cost (U) i64)"
        ),
        vec![
            "(constructor Nil () U)",
            "(constructor Pair (i64 i64) U)",
            "(constructor Name (String) U)",
            "(constructor Num (i64) i64)",
            "(function cost (U) i64)",
        ]
    );
}

#[test]
fn a_compound_constructor_gets_edges_and_its_rules() {
    let mut p = pass();
    encode_with(&mut p, "(sort U)");
    assert_eq!(
        encode_with(&mut p, "(constructor App (String U U) U)"),
        vec![
            "(constructor App (String U Renaming U Renaming) U)",
            "(rule ((= e1 (App x0 c1 a1 c2 a2)) (= e2 (App x0 c1 b1 c2 b2)) \
             (= rename (find-mapping a1 a2 b1 b2)) (= e2 (ordering-max e1 e2))) \
             ((RenamesToLeader_U e2 e1 rename)) :ruleset slotted)",
            "(rule ((RenamesToLeader_U e2 e1 R) (= e2 (App x0 c1 r1 c2 r2)) (!= e1 e2)) \
             ((union e2 (App x0 c1 (compose R r1) c2 (compose R r2))) \
             (delete (App x0 c1 r1 c2 r2))) :ruleset slotted)",
            "(rule ((RenamesToLeader_U c c' R) (= node (App x0 c r c2 r2)) (!= c c')) \
             ((union node (App x0 c' (compose r (inverse R)) c2 r2))) :ruleset slotted)",
            "(rule ((RenamesToLeader_U c c' R) (= node (App x0 c1 r1 c r)) (!= c c')) \
             ((union node (App x0 c1 r1 c' (compose r (inverse R))))) :ruleset slotted)",
        ]
    );
}

#[test]
fn the_machinery_of_many_children_is_numbered_by_position() {
    let mut p = pass();
    encode_with(&mut p, "(sort U)");
    let inputs = vec!["U"; 11].join(" ");
    let out = encode_with(&mut p, &format!("(constructor F ({inputs}) U)"));
    assert_eq!(out.len(), 3 + 11);
    assert!(out[1].contains("(= e1 (F c0 a0 c1 a1"));
    assert!(out[1].contains("c10 a10))"));
    assert!(out[13].contains("c9 r9 c r)"));
}

// ---------------------------------------------------------------------------
// Terms outside rules
// ---------------------------------------------------------------------------
#[test]
fn terms_get_the_identity_at_their_slots() {
    assert_eq!(
        encode("(App \"f\" (Var 20) (Var 1))"),
        vec![
            "(App \"f\" (Var 20) (map-insert (map-empty) 20 20) \
             (Var 1) (map-insert (map-empty) 1 1))",
            MAINTENANCE
        ]
    );
    assert_eq!(
        encode("(App \"f\" (App \"g\" (Var 2) (Var 1)) (Var 2))"),
        vec![
            "(App \"f\" (App \"g\" (Var 2) (map-insert (map-empty) 2 2) \
             (Var 1) (map-insert (map-empty) 1 1)) \
             (map-insert (map-insert (map-empty) 2 2) 1 1) \
             (Var 2) (map-insert (map-empty) 2 2))",
            MAINTENANCE
        ]
    );
}

#[test]
fn the_outer_slots_of_a_compound_are_those_of_its_children_once() {
    let p = declared();
    let (_, slots) = p.rewrite_expr_with_slots(&expr(
        "(App \"f\" (App \"g\" (Var 3) (Var 1)) (App \"g\" (Var 1) (Var 7)))",
    ));
    assert_eq!(slots, vec![3, 1, 7]);
    let (leaf, slots) = p.rewrite_expr_with_slots(&expr("(Var 5)"));
    assert_eq!(show(&leaf), "(Var 5)");
    assert_eq!(slots, vec![5]);
    let (other, slots) = p.rewrite_expr_with_slots(&expr("(g (App \"f\" (Nil) x))"));
    assert_eq!(
        show(&other),
        "(g (App \"f\" (Nil) (map-empty) x (map-empty)))"
    );
    assert!(slots.is_empty());
}

#[test]
fn names_keep_their_slots_for_later_terms() {
    let mut p = declared();
    assert_eq!(
        encode_with(&mut p, "(set (v1) (Var 20)) (set (v2) (Var 1))"),
        vec!["(set (v1) (Var 20))", MAINTENANCE, "(set (v2) (Var 1))", MAINTENANCE]
    );
    assert_eq!(
        encode_with(&mut p, "(set (a1) (App \"f\" (v1) (v2)))"),
        vec![
            "(set (a1) (App \"f\" (v1) (map-insert (map-empty) 20 20) \
             (v2) (map-insert (map-empty) 1 1)))",
            MAINTENANCE
        ]
    );
    assert_eq!(
        encode_with(&mut p, "(App \"g\" (a1) (v1))"),
        vec![
            "(App \"g\" (a1) (map-insert (map-insert (map-empty) 20 20) 1 1) \
             (v1) (map-insert (map-empty) 20 20))",
            MAINTENANCE
        ]
    );
    // A function with arguments is no name.
    encode_with(&mut p, "(set (f 1) (Var 9)) (let y (Var 8))");
    assert_eq!(
        encode_with(&mut p, "(App \"g\" (f 1) (y))"),
        vec![
            "(App \"g\" (f 1) (map-empty) (y) (map-insert (map-empty) 8 8))",
            MAINTENANCE
        ]
    );
}

#[test]
fn every_kind_of_command_is_rewritten() {
    let app = "(App \"f\" (Var 1) (Nil))";
    let enc = "(App \"f\" (Var 1) (map-insert (map-empty) 1 1) (Nil) (map-empty))";
    let program = format!(
        "(check (= {app} x) {app}) (extract {app}) (output file {app} (Nil)) (fail (check {app})) \
         (union {app} (Nil)) (delete (App \"f\" (Var 1) (Nil))) (subsume (h {app})) (panic stop) \
         (set (h {app}) 3) (push)"
    );
    let out = encode(&program);
    let commands: Vec<&String> = out.iter().filter(|c| *c != MAINTENANCE).collect();
    assert_eq!(
        commands,
        vec![
            &format!("(check (= {enc} x) {enc})"),
            &format!("(extract {enc} 0)"),
            &format!("(output file {enc} (Nil))"),
            &format!("(fail (check {enc}))"),
            &format!("(union {enc} (Nil))"),
            &format!("(delete {enc})"),
            &format!("(subsume (h {enc}))"),
            &"(panic stop)".to_string(),
            &format!("(set (h {enc}) 3)"),
            &"(push)".to_string(),
        ]
    );
    // Each of them is followed by the maintenance.
    assert_eq!(out.len(), 2 * commands.len());
}

// ---------------------------------------------------------------------------
// Rules
// ---------------------------------------------------------------------------
#[test]
fn a_commutativity_rule_reuses_its_edges() {
    assert_eq!(
        encode("(rule ((= e (App \"f\" a b))) ((union e (App \"f\" b a))))"),
        vec![
            "(rule ((= e (App \"f\" a @r_slotted0 b @r_slotted1))) \
             ((union e (App \"f\" b @r_slotted1 a @r_slotted0))))"
        ]
    );
}

#[test]
fn paths_to_one_variable_are_equated() {
    assert_eq!(
        encode("(rule ((= e (App \"f\" (App \"g\" a b) b))) ((union e (App \"matched\" b b))))"),
        vec![
            "(rule ((= e (App \"f\" (App \"g\" a @r_slotted1 b @r_slotted2) @r_slotted0 \
             b @r_slotted3)) (= (compose @r_slotted0 @r_slotted2) @r_slotted3)) \
             ((union e (App \"matched\" b (compose @r_slotted0 @r_slotted2) \
             b (compose @r_slotted0 @r_slotted2)))))"
        ]
    );
}

#[test]
fn three_paths_give_two_equations() {
    let out = encode("(rule ((App \"f\" a a) (App \"g\" a x)) ())");
    assert_eq!(
        out,
        vec![
            "(rule ((App \"f\" a @r_slotted0 a @r_slotted1) (App \"g\" a @r_slotted2 x @r_slotted3) \
             (= @r_slotted0 @r_slotted1) (= @r_slotted1 @r_slotted2)) ())"
        ]
    );
}

#[test]
fn a_head_variable_gets_the_identity_over_its_slots() {
    assert_eq!(
        encode("(rule ((= e (App \"f\" a b))) ((App \"g\" e a)))"),
        vec![
            "(rule ((= e (App \"f\" a @r_slotted0 b @r_slotted1))) \
             ((App \"g\" e (map-union (compose @r_slotted0 (inverse @r_slotted0)) \
             (compose @r_slotted1 (inverse @r_slotted1))) a @r_slotted0)))"
        ]
    );
    // The call may stand on either side, and a path goes before an identity.
    assert_eq!(
        encode("(rule ((= (App \"f\" a b) a)) ((App \"g\" a (Nil))))"),
        vec![
            "(rule ((= (App \"f\" a @r_slotted0 b @r_slotted1) a)) \
             ((App \"g\" a @r_slotted0 (Nil) (map-empty))))"
        ]
    );
    // A leaf has no edges to take an identity from.
    assert_eq!(
        encode("(rule ((= e (Var n))) ((App \"g\" e z)))"),
        vec!["(rule ((= e (Var n))) ((App \"g\" e (map-empty) z (map-empty))))"]
    );
}

#[test]
fn new_terms_in_a_head_get_outgoing_renames() {
    assert_eq!(
        encode("(rule ((= e (App \"f\" a b))) ((let t (App \"g\" (App \"h\" a (Var 4)) (Var 2)))))"),
        vec![
            "(rule ((= e (App \"f\" a @r_slotted0 b @r_slotted1))) \
             ((let t (App \"g\" (App \"h\" a @r_slotted0 (Var 4) (map-insert (map-empty) 4 4)) \
             (map-union (compose @r_slotted0 (inverse @r_slotted0)) \
             (compose (map-insert (map-empty) 4 4) (inverse (map-insert (map-empty) 4 4)))) \
             (Var 2) (map-insert (map-empty) 2 2)))))"
        ]
    );
}

#[test]
fn every_action_of_a_head_is_rewritten() {
    assert_eq!(
        encode(
            "(rule ((App \"f\" a b)) ((set (h (App \"f\" b a)) (App \"f\" a a)) \
             (delete (App \"f\" a b)) (subsume (g (App \"f\" b b))) (panic no) (f2 (k a))))"
        ),
        vec![
            "(rule ((App \"f\" a @r_slotted0 b @r_slotted1)) \
             ((set (h (App \"f\" b @r_slotted1 a @r_slotted0)) \
             (App \"f\" a @r_slotted0 a @r_slotted0)) \
             (delete (App \"f\" a @r_slotted0 b @r_slotted1)) \
             (subsume (g (App \"f\" b @r_slotted1 b @r_slotted1))) (panic no) (f2 (k a))))"
        ]
    );
}

#[test]
fn fresh_renames_go_on_from_rule_to_rule() {
    let mut p = declared();
    encode_with(&mut p, "(rule ((App \"f\" a b)) ())");
    assert_eq!(p.symbol_gen.count, 2);
    assert_eq!(
        encode_with(&mut p, "(rule ((App \"f\" a b)) ())"),
        vec!["(rule ((App \"f\" a @r_slotted2 b @r_slotted3)) ())"]
    );
    assert_eq!(p.fresh_rename_var(), "@r_slotted4");
}

#[test]
fn only_variables_at_slotted_positions_record_a_path() {
    // Below a function, a variable stands at no edge.
    assert_eq!(
        encode("(rule ((App s (App t a b) (h a))) ())"),
        vec![
            "(rule ((App s (App t a @r_slotted1 b @r_slotted2) @r_slotted0 (h a) @r_slotted3)) ())"
        ]
    );
    // Neither does one at a position that takes no slots.
    assert_eq!(
        encode("(rule ((= e (App \"f\" (App g a b) (App g c d)))) ((union e (App \"h\" a d))))"),
        vec![
            "(rule ((= e (App \"f\" (App g a @r_slotted1 b @r_slotted2) @r_slotted0 \
             (App g c @r_slotted4 d @r_slotted5) @r_slotted3))) \
             ((union e (App \"h\" a (compose @r_slotted0 @r_slotted1) \
             d (compose @r_slotted3 @r_slotted5)))))"
        ]
    );
    // A call there passes the path on to its own children.
    assert_eq!(
        encode("(rule ((App s (h (App t a b)) a)) ())"),
        vec![
            "(rule ((App s (h (App t a @r_slotted1 b @r_slotted2)) @r_slotted0 a @r_slotted3) \
             (= (compose @r_slotted0 @r_slotted1) @r_slotted3)) ())"
        ]
    );
}

#[test]
fn a_rewritten_pattern_is_the_users_with_fresh_edges() {
    let mut p = declared();
    let out = p.add_slotted_encoding(&read_program(
        "(rule ((App \"f\" (App g a b) (h (App g a (Nil))))) ())",
    ));
    let body = match &out[0] {
        Command::Rule { rule } => match &rule.body[0] {
            Fact::Fact(e) => e,
            _ => panic!("not an expression"),
        },
        _ => panic!("not a rule"),
    };
    assert_eq!(
        without_edges(body),
        expr("(App \"f\" (App g a b) (h (App g a (Nil))))")
    );
    let mut found = edge_names(body);
    assert_eq!(found.len(), 6);
    found.sort();
    found.dedup();
    assert_eq!(found.len(), 6);
}

#[test]
fn rename_variables_capture_no_variable_of_the_rule() {
    // A user's variable may look like a rename but for the reserved prefix.
    assert_eq!(
        encode("(rule ((App \"f\" r_slotted0 r_slotted1)) ((App \"g\" r_slotted1 r_slotted0)))"),
        vec![
            "(rule ((App \"f\" r_slotted0 @r_slotted0 r_slotted1 @r_slotted1)) \
             ((App \"g\" r_slotted1 @r_slotted1 r_slotted0 @r_slotted0)))"
        ]
    );
}

/// The variables at the edges of a term.
fn edge_names(e: &Expr) -> Vec<String> {
    match e {
        Expr::Call(_, head, args) => {
            let mut all = vec![];
            if head == "App" {
                all.push(show(&args[2]));
                all.push(show(&args[4]));
            }
            for arg in args {
                all.extend(edge_names(arg));
            }
            all
        }
        _ => vec![],
    }
}

// ---------------------------------------------------------------------------
// Programs
// ---------------------------------------------------------------------------
#[test]
fn run_steps_are_followed_by_saturation() {
    assert_eq!(
        encode("(run-schedule (repeat 3 (seq mine (saturate other))))"),
        vec![
            "(run-schedule (repeat 3 (seq (seq mine (saturate slotted)) \
             (saturate (seq other (saturate slotted))))))",
            MAINTENANCE
        ]
    );
}

#[test]
fn declarations_get_no_maintenance() {
    assert_eq!(
        encode("(ruleset mine) (function h (U) i64) (rule () ())"),
        vec!["(ruleset mine)", "(function h (U) i64)", "(rule () ())"]
    );
}

#[test]
fn nothing_is_maintained_before_a_sort_with_slots() {
    let mut p = pass();
    assert_eq!(
        encode_with(&mut p, "(check (= 1 1)) (f (Var 1))"),
        vec!["(check (= 1 1))", "(f (Var 1))"]
    );
}

#[test]
fn a_program_can_be_encoded_in_pieces() {
    let pieces = [
        "(sort U) (constructor Var (i64) U)",
        "(constructor App (String U U) U) (set (v) (Var 3))",
        "(rule ((= e (App \"f\" a b))) ((union e (App \"f\" b (v)))))",
        "(App \"f\" (v) (v)) (sort V) (check (= (v) (v)))",
    ];
    let mut p = pass();
    let mut apart: Vec<String> = vec![];
    for piece in pieces {
        apart.extend(encode_with(&mut p, piece));
    }
    let at_once = encode_with(&mut pass(), &pieces.join(" "));
    assert_eq!(apart, at_once);
    let renaming = "(sort Renaming (Map i64 i64))";
    assert_eq!(at_once.iter().filter(|c| *c == renaming).count(), 1);
    assert_eq!(at_once.iter().filter(|c| *c == "(ruleset slotted)").count(), 1);
}

/// The term without the argument behind each child of `App`.
fn without_edges(e: &Expr) -> Expr {
    match e {
        Expr::Call(span, head, args) => {
            let kept: Vec<Expr> = if head == "App" {
                vec![
                    without_edges(&args[0]),
                    without_edges(&args[1]),
                    without_edges(&args[3]),
                ]
            } else {
                args.iter().map(without_edges).collect()
            };
            Expr::Call(*span, head.clone(), kept)
        }
        other => other.clone(),
    }
}

#[test]
fn dropping_the_edges_gives_the_term_back() {
    let p = declared();
    let e = expr("(App \"f\" (App \"g\" (Var 1) (Nil)) (h (App \"k\" (Var 2) (Var 1))))");
    assert_eq!(without_edges(&p.rewrite_expr(&e)), e);
}

/// The renaming that an expression stands for.
fn renaming(e: &Expr) -> BTreeMap<Value, Value> {
    let (head, args) = match e {
        Expr::Call(_, head, args) => (head.as_str(), args),
        _ => panic!("not a renaming"),
    };
    let number = |e: &Expr| match e {
        Expr::Lit(_, Literal::Int(n)) => *n as Value,
        _ => panic!("not a slot"),
    };
    let container = |data: BTreeMap<Value, Value>| MapContainer {
        do_rebuild_keys: false,
        do_rebuild_vals: false,
        data,
    };
    match head {
        "map-empty" => BTreeMap::new(),
        "map-insert" => {
            let mut m = renaming(&args[0]);
            m.insert(number(&args[1]), number(&args[2]));
            m
        }
        "compose" => compose(&renaming(&args[0]), &renaming(&args[1])),
        "inverse" => inverse(&renaming(&args[0])),
        "map-union" => {
            let a = container(renaming(&args[0]));
            let b = container(renaming(&args[1]));
            map_union(&a, &b).unwrap().data
        }
        _ => panic!("not a renaming"),
    }
}

/// The renamings at the edges of a term made of `App`.
fn edges(e: &Expr) -> Vec<BTreeMap<Value, Value>> {
    match e {
        Expr::Call(_, head, args) if head == "App" => {
            let mut all = vec![renaming(&args[2]), renaming(&args[4])];
            all.extend(edges(&args[1]));
            all.extend(edges(&args[3]));
            all
        }
        _ => vec![],
    }
}

#[test]
fn a_term_has_the_same_edges_inside_and_outside_rules() {
    let mut p = declared();
    let term = "(App \"f\" (App \"g\" (Var 2) (App \"h\" (Var 1) (Nil))) (App \"k\" (Nil) (Nil)))";
    let top = p.rewrite_expr(&expr(term));
    let out = p.add_slotted_encoding(&read_program(&format!("(rule () ({term}))")));
    let inside = match &out[0] {
        Command::Rule { rule } => match &rule.head[0] {
            Action::Expr(_, e) => e,
            _ => panic!("not an expression"),
        },
        _ => panic!("not a rule"),
    };
    let found = edges(&top);
    assert_eq!(found, edges(inside));
    assert_eq!(found[0], [(1, 1), (2, 2)].into_iter().collect());
    assert_eq!(found[1], BTreeMap::new());
}

#[test]
fn a_synthesized_identity_is_the_identity_over_all_values() {
    let edges = vec![
        expr("(map-insert (map-insert (map-empty) 1 5) 2 6)"),
        expr("(map-insert (map-empty) 9 5)"),
        expr("(map-insert (map-empty) 3 7)"),
    ];
    let id = synthesize_identity_from_exprs(HERE, &edges).unwrap();
    assert_eq!(
        renaming(&id),
        [(5, 5), (6, 6), (7, 7)].into_iter().collect()
    );
}

#[test]
fn terms_stay_before_any_sort_with_slots() {
    let p = pass();
    let e = expr("(App \"f\" (Var 1) (g (Var 2)))");
    assert_eq!(p.rewrite_expr(&e), e);
}

#[test]
fn instrumenting_leaves_everything_but_run_steps() {
    let schedule = to_schedule(&read_all("(repeat 2 (seq))")[0]);
    assert_eq!(SlottedInstrumentor::instrument_schedule(&schedule), schedule);
    assert_eq!(
        show_schedule(&SlottedInstrumentor::saturate_slotted(HERE)),
        "(saturate slotted)"
    );
}
