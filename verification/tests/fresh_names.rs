use slotted::ast::{Expr, Fact, NCommand, Rule, Span};
use slotted::names::{numbered_name, NameSet, NameTable, SymbolGen};
use slotted::slotted_encoding::size::spend_program;
use slotted::slotted_encoding::SlottedInstrumentor;

#[test]
fn numbers_are_written_in_decimal() {
    assert_eq!(numbered_name("c", 0), "c0");
    assert_eq!(numbered_name("c", 9), "c9");
    assert_eq!(numbered_name("c", 10), "c10");
    assert_eq!(numbered_name("", 10305), "10305");
    assert_eq!(numbered_name("x", usize::MAX), format!("x{}", usize::MAX));
}

#[test]
fn fresh_names_are_all_different() {
    let mut g = SymbolGen::new("@".to_string());
    let names: Vec<String> = (0..120).map(|_| g.fresh("r")).collect();
    assert_eq!(names[0], "@r0");
    assert_eq!(names[119], "@r119");
    for i in 0..names.len() {
        for j in 0..i {
            assert_ne!(names[i], names[j]);
        }
    }
}

#[test]
fn fresh_names_start_with_the_reserved_prefix() {
    let mut g = SymbolGen::new("@@".to_string());
    assert!(g.fresh("r").starts_with("@@"));
    assert!(g.fresh("").starts_with("@@"));
    assert_eq!(g.fresh(""), "@@2");
}

#[test]
fn sets_hold_what_was_inserted() {
    let mut s = NameSet::new();
    assert!(!s.contains(&"a".to_string()));
    s.insert("a".to_string());
    s.insert("a".to_string());
    assert!(s.contains(&"a".to_string()));
    assert!(!s.contains(&"b".to_string()));
}

#[test]
fn later_entries_of_a_table_replace_earlier_ones() {
    let mut t: NameTable<i64> = NameTable::new();
    assert!(t.get(&"a".to_string()).is_none());
    t.insert("a".to_string(), 1);
    t.insert("b".to_string(), 2);
    t.insert("a".to_string(), 3);
    assert_eq!(t.get(&"a".to_string()), Some(&3));
    assert_eq!(t.get(&"b".to_string()), Some(&2));
}

fn rule_with_three_arguments() -> NCommand {
    let var = |name: &str| Expr::Var(Span::Generated, name.to_string());
    let inner = Expr::Call(Span::Generated, "f".to_string(), vec![var("x")]);
    let outer = Expr::Call(Span::Generated, "g".to_string(), vec![inner, var("y")]);
    NCommand::NormRule {
        rule: Rule {
            span: Span::Generated,
            head: vec![],
            body: vec![Fact::Fact(outer)],
            name: String::new(),
            ruleset: String::new(),
        },
    }
}

#[test]
fn a_program_needs_at_most_one_name_per_argument() {
    let program = vec![
        rule_with_three_arguments(),
        NCommand::Fail(Span::Generated, Box::new(rule_with_three_arguments())),
    ];
    assert_eq!(spend_program(&program, 10), Some(4));
    assert_eq!(spend_program(&program, 6), Some(0));
    assert_eq!(spend_program(&program, 5), None);
}

#[test]
fn encoding_is_refused_where_names_could_run_out() {
    let mut p = SlottedInstrumentor::new(SymbolGen::new("@".to_string()));
    p.symbol_gen.count = usize::MAX - 2;
    let program = vec![rule_with_three_arguments()];
    assert!(p.try_add_slotted_encoding(&program).is_none());
    assert_eq!(p.symbol_gen.count, usize::MAX - 2);
    p.symbol_gen.count = usize::MAX - 3;
    assert_eq!(p.try_add_slotted_encoding(&program).unwrap().len(), 1);
}
