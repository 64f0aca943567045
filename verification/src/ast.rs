//! The syntax that the slotted encoding reads and writes.
//!
//! Every type has a view in which names are character sequences and lists are
//! sequences; contracts speak of the views.

use vstd::prelude::*;

use crate::names::{clone_names, texts};

verus! {

/// Where a piece of syntax comes from.
#[derive(Clone, Copy, Debug, PartialEq, Eq)]
pub enum Span {
    /// The bytes from `start` up to `end` of the program text.
    Source { start: usize, end: usize },
    /// Syntax that no program text contains.
    Generated,
}

/// A literal of the surface language.
#[derive(Debug, PartialEq, Eq)]
pub enum Literal {
    Int(i64),
    /// A floating-point literal, by its text.
    Float(String),
    Text(String),
    Bool(bool),
    Unit,
}

/// The view of a [`Literal`].
pub enum LiteralView {
    Int(i64),
    Float(Seq<char>),
    Text(Seq<char>),
    Bool(bool),
    Unit,
}

impl View for Literal {
    type V = LiteralView;

    open spec fn view(&self) -> LiteralView {
        match self {
            Literal::Int(n) => LiteralView::Int(*n),
            Literal::Float(text) => LiteralView::Float(text@),
            Literal::Text(s) => LiteralView::Text(s@),
            Literal::Bool(b) => LiteralView::Bool(*b),
            Literal::Unit => LiteralView::Unit,
        }
    }
}

impl Clone for Literal {
    fn clone(&self) -> (r: Self)
        ensures
            r@ == self@,
    {
        match self {
            Literal::Int(n) => Literal::Int(*n),
            Literal::Float(text) => Literal::Float(text.clone()),
            Literal::Text(s) => Literal::Text(s.clone()),
            Literal::Bool(b) => Literal::Bool(*b),
            Literal::Unit => Literal::Unit,
        }
    }
}

/// An expression: a literal, a variable, or the call of a constructor,
/// function or primitive.
#[derive(Debug, PartialEq, Eq)]
pub enum Expr {
    Lit(Span, Literal),
    Var(Span, String),
    Call(Span, String, Vec<Expr>),
}

/// The view of an [`Expr`].
pub enum ExprView {
    Lit(Span, LiteralView),
    Var(Span, Seq<char>),
    Call(Span, Seq<char>, Seq<ExprView>),
}

/// What a [`Expr`] stands for.
pub open spec fn expr_view(e: Expr) -> ExprView
    decreases e,
{
    match e {
        Expr::Lit(span, lit) => ExprView::Lit(span, lit@),
        Expr::Var(span, name) => ExprView::Var(span, name@),
        Expr::Call(span, head, args) => ExprView::Call(
            span,
            head@,
            Seq::new(
                args@.len(),
                |i: int|
                    if 0 <= i < args@.len() {
                        expr_view(args@[i])
                    } else {
                        arbitrary()
                    },
            ),
        ),
    }
}

impl View for Expr {
    type V = ExprView;

    open spec fn view(&self) -> ExprView {
        expr_view(*self)
    }
}

/// The views of a sequence of expressions.
pub open spec fn exprs(s: Seq<Expr>) -> Seq<ExprView> {
    s.map_values(|e: Expr| e@)
}

/// The view of a call, over the views of its arguments.
pub proof fn call_view(e: Expr)
    requires
        e is Call,
    ensures
        e@ == ExprView::Call(e->Call_0, e->Call_1@, exprs(e->Call_2@)),
{
    assert(e@->Call_2 =~= exprs(e->Call_2@));
}

/// The views of a list of expressions grow with the list.
pub broadcast proof fn exprs_push(s: Seq<Expr>, e: Expr)
    ensures
        #[trigger] exprs(s.push(e)) == exprs(s).push(e@),
{
    assert(exprs(s.push(e)) =~= exprs(s).push(e@));
}

/// Builds a call from its parts.
pub fn make_call(span: Span, head: String, args: Vec<Expr>) -> (r: Expr)
    ensures
        r@ == ExprView::Call(span, head@, exprs(args@)),
{
    let r = Expr::Call(span, head, args);
    proof {
        call_view(r);
    }
    r
}

impl Clone for Expr {
    fn clone(&self) -> (r: Self)
        ensures
            r@ == self@,
        decreases self,
    {
        match self {
            Expr::Lit(span, lit) => Expr::Lit(*span, lit.clone()),
            Expr::Var(span, name) => Expr::Var(*span, name.clone()),
            Expr::Call(span, head, args) => {
                let mut out: Vec<Expr> = Vec::new();
                let mut i: usize = 0;
                while i < args.len()
                    invariant
                        i <= args.len(),
                        out.len() == i,
                        self matches Expr::Call(_, _, a) && a == args,
                        forall|j: int| 0 <= j < i ==> out@[j]@ == args@[j]@,
                    decreases args.len() - i,
                {
                    out.push(args[i].clone());
                    i += 1;
                }
                proof {
                    call_view(*self);
                    assert(exprs(out@) =~= exprs(args@));
                }
                make_call(*span, head.clone(), out)
            },
        }
    }
}

/// Copies a list of expressions.
pub fn clone_exprs(v: &Vec<Expr>) -> (r: Vec<Expr>)
    ensures
        exprs(r@) == exprs(v@),
{
    let mut r: Vec<Expr> = Vec::new();
    let mut i: usize = 0;
    while i < v.len()
        invariant
            i <= v.len(),
            r.len() == i,
            forall|j: int| 0 <= j < i ==> r@[j]@ == v@[j]@,
        decreases v.len() - i,
    {
        r.push(v[i].clone());
        i += 1;
    }
    assert(exprs(r@) =~= exprs(v@));
    r
}

/// A condition of a rule body or of a check.
#[derive(Debug, PartialEq, Eq)]
pub enum Fact {
    /// Two expressions are equal.
    Eq(Span, Expr, Expr),
    /// An expression holds.
    Fact(Expr),
}

/// The view of a [`Fact`].
pub enum FactView {
    Eq(Span, ExprView, ExprView),
    Fact(ExprView),
}

impl View for Fact {
    type V = FactView;

    open spec fn view(&self) -> FactView {
        match self {
            Fact::Eq(span, lhs, rhs) => FactView::Eq(*span, lhs@, rhs@),
            Fact::Fact(e) => FactView::Fact(e@),
        }
    }
}

impl Clone for Fact {
    fn clone(&self) -> (r: Self)
        ensures
            r@ == self@,
    {
        match self {
            Fact::Eq(span, lhs, rhs) => Fact::Eq(*span, lhs.clone(), rhs.clone()),
            Fact::Fact(e) => Fact::Fact(e.clone()),
        }
    }
}

/// The views of a sequence of facts.
pub open spec fn facts(s: Seq<Fact>) -> Seq<FactView> {
    s.map_values(|f: Fact| f@)
}

/// The views of a list of facts grow with the list.
pub broadcast proof fn facts_push(s: Seq<Fact>, f: Fact)
    ensures
        #[trigger] facts(s.push(f)) == facts(s).push(f@),
{
    assert(facts(s.push(f)) =~= facts(s).push(f@));
}

/// Copies a list of facts.
pub fn clone_facts(v: &Vec<Fact>) -> (r: Vec<Fact>)
    ensures
        facts(r@) == facts(v@),
{
    let mut r: Vec<Fact> = Vec::new();
    let mut i: usize = 0;
    while i < v.len()
        invariant
            i <= v.len(),
            r.len() == i,
            forall|j: int| 0 <= j < i ==> r@[j]@ == v@[j]@,
        decreases v.len() - i,
    {
        r.push(v[i].clone());
        i += 1;
    }
    assert(facts(r@) =~= facts(v@));
    r
}

/// What a change action does to the row it names.
#[derive(Clone, Copy, Debug, PartialEq, Eq)]
pub enum Change {
    Delete,
    Subsume,
}

/// An action of a rule head or of the top level.
#[derive(Debug, PartialEq, Eq)]
pub enum Action {
    Let(Span, String, Expr),
    /// Sets the value of a function at the given arguments.
    Assign(Span, String, Vec<Expr>, Expr),
    Change(Span, Change, String, Vec<Expr>),
    Union(Span, Expr, Expr),
    Panic(Span, String),
    Expr(Span, Expr),
}

/// The view of an [`Action`].
pub enum ActionView {
    Let(Span, Seq<char>, ExprView),
    Assign(Span, Seq<char>, Seq<ExprView>, ExprView),
    Change(Span, Change, Seq<char>, Seq<ExprView>),
    Union(Span, ExprView, ExprView),
    Panic(Span, Seq<char>),
    Expr(Span, ExprView),
}

impl View for Action {
    type V = ActionView;

    open spec fn view(&self) -> ActionView {
        match self {
            Action::Let(span, v, e) => ActionView::Let(*span, v@, e@),
            Action::Assign(span, head, args, val) => ActionView::Assign(
                *span,
                head@,
                exprs(args@),
                val@,
            ),
            Action::Change(span, change, head, args) => ActionView::Change(
                *span,
                *change,
                head@,
                exprs(args@),
            ),
            Action::Union(span, lhs, rhs) => ActionView::Union(*span, lhs@, rhs@),
            Action::Panic(span, msg) => ActionView::Panic(*span, msg@),
            Action::Expr(span, e) => ActionView::Expr(*span, e@),
        }
    }
}

impl Clone for Action {
    fn clone(&self) -> (r: Self)
        ensures
            r@ == self@,
    {
        match self {
            Action::Let(span, v, e) => Action::Let(*span, v.clone(), e.clone()),
            Action::Assign(span, head, args, val) => Action::Assign(
                *span,
                head.clone(),
                clone_exprs(args),
                val.clone(),
            ),
            Action::Change(span, change, head, args) => Action::Change(
                *span,
                *change,
                head.clone(),
                clone_exprs(args),
            ),
            Action::Union(span, lhs, rhs) => Action::Union(*span, lhs.clone(), rhs.clone()),
            Action::Panic(span, msg) => Action::Panic(*span, msg.clone()),
            Action::Expr(span, e) => Action::Expr(*span, e.clone()),
        }
    }
}

/// The views of a sequence of actions.
pub open spec fn actions(s: Seq<Action>) -> Seq<ActionView> {
    s.map_values(|a: Action| a@)
}

/// The views of a list of actions grow with the list.
pub broadcast proof fn actions_push(s: Seq<Action>, a: Action)
    ensures
        #[trigger] actions(s.push(a)) == actions(s).push(a@),
{
    assert(actions(s.push(a)) =~= actions(s).push(a@));
}

/// Copies a list of actions.
pub fn clone_actions(v: &Vec<Action>) -> (r: Vec<Action>)
    ensures
        actions(r@) == actions(v@),
{
    let mut r: Vec<Action> = Vec::new();
    let mut i: usize = 0;
    while i < v.len()
        invariant
            i <= v.len(),
            r.len() == i,
            forall|j: int| 0 <= j < i ==> r@[j]@ == v@[j]@,
        decreases v.len() - i,
    {
        r.push(v[i].clone());
        i += 1;
    }
    assert(actions(r@) =~= actions(v@));
    r
}

/// A rule: when all facts of its body hold, its head runs.
#[derive(Debug, PartialEq, Eq)]
pub struct Rule {
    pub span: Span,
    pub head: Vec<Action>,
    pub body: Vec<Fact>,
    pub name: String,
    pub ruleset: String,
}

/// The view of a [`Rule`].
#[verifier::ext_equal]
pub struct RuleView {
    pub span: Span,
    pub head: Seq<ActionView>,
    pub body: Seq<FactView>,
    pub name: Seq<char>,
    pub ruleset: Seq<char>,
}

impl View for Rule {
    type V = RuleView;

    open spec fn view(&self) -> RuleView {
        RuleView {
            span: self.span,
            head: actions(self.head@),
            body: facts(self.body@),
            name: self.name@,
            ruleset: self.ruleset@,
        }
    }
}

impl Clone for Rule {
    fn clone(&self) -> (r: Self)
        ensures
            r@ == self@,
    {
        Rule {
            span: self.span,
            head: clone_actions(&self.head),
            body: clone_facts(&self.body),
            name: self.name.clone(),
            ruleset: self.ruleset.clone(),
        }
    }
}

/// Which ruleset a run step runs, and the facts that stop it.
#[derive(Debug, PartialEq, Eq)]
pub struct RunConfig {
    pub ruleset: String,
    pub until: Option<Vec<Fact>>,
}

/// The view of a [`RunConfig`].
#[verifier::ext_equal]
pub struct RunConfigView {
    pub ruleset: Seq<char>,
    pub until: Option<Seq<FactView>>,
}

impl View for RunConfig {
    type V = RunConfigView;

    open spec fn view(&self) -> RunConfigView {
        RunConfigView {
            ruleset: self.ruleset@,
            until: match self.until {
                Some(fs) => Some(facts(fs@)),
                None => None,
            },
        }
    }
}

impl Clone for RunConfig {
    fn clone(&self) -> (r: Self)
        ensures
            r@ == self@,
    {
        let until = match &self.until {
            Some(fs) => Some(clone_facts(fs)),
            None => None,
        };
        RunConfig { ruleset: self.ruleset.clone(), until }
    }
}

/// In which order rulesets run.
#[derive(Debug, PartialEq, Eq)]
pub enum Schedule {
    Saturate(Span, Box<Schedule>),
    Repeat(Span, usize, Box<Schedule>),
    Run(Span, RunConfig),
    Sequence(Span, Vec<Schedule>),
}

/// The view of a [`Schedule`].
pub enum ScheduleView {
    Saturate(Span, Box<ScheduleView>),
    Repeat(Span, usize, Box<ScheduleView>),
    Run(Span, RunConfigView),
    Sequence(Span, Seq<ScheduleView>),
}

/// What a [`Schedule`] stands for.
pub open spec fn schedule_view(s: Schedule) -> ScheduleView
    decreases s,
{
    match s {
        Schedule::Saturate(span, inner) => ScheduleView::Saturate(
            span,
            Box::new(schedule_view(*inner)),
        ),
        Schedule::Repeat(span, n, inner) => ScheduleView::Repeat(
            span,
            n,
            Box::new(schedule_view(*inner)),
        ),
        Schedule::Run(span, config) => ScheduleView::Run(span, config@),
        Schedule::Sequence(span, items) => ScheduleView::Sequence(
            span,
            Seq::new(
                items@.len(),
                |i: int|
                    if 0 <= i < items@.len() {
                        schedule_view(items@[i])
                    } else {
                        arbitrary()
                    },
            ),
        ),
    }
}

impl View for Schedule {
    type V = ScheduleView;

    open spec fn view(&self) -> ScheduleView {
        schedule_view(*self)
    }
}

/// The views of a sequence of schedules.
pub open spec fn schedules(s: Seq<Schedule>) -> Seq<ScheduleView> {
    s.map_values(|x: Schedule| x@)
}

/// The view of a sequence step, over the views of its items.
pub proof fn sequence_view(s: Schedule)
    requires
        s is Sequence,
    ensures
        s@ == ScheduleView::Sequence(s->Sequence_0, schedules(s->Sequence_1@)),
{
    assert(s@->Sequence_1 =~= schedules(s->Sequence_1@));
}

/// What kind of table a function declaration makes.
#[derive(Clone, Copy, Debug, PartialEq, Eq, Structural)]
pub enum FunctionSubtype {
    Constructor,
    Relation,
    Custom,
}

/// The argument sorts and the result sort of a function.
#[derive(Debug, PartialEq, Eq)]
pub struct Schema {
    pub input: Vec<String>,
    pub output: String,
}

/// The view of a [`Schema`].
#[verifier::ext_equal]
pub struct SchemaView {
    pub input: Seq<Seq<char>>,
    pub output: Seq<char>,
}

impl View for Schema {
    type V = SchemaView;

    open spec fn view(&self) -> SchemaView {
        SchemaView { input: texts(self.input@), output: self.output@ }
    }
}

/// The declaration of a function, relation or constructor.
#[derive(Debug, PartialEq, Eq)]
pub struct FunctionDecl {
    pub span: Span,
    pub name: String,
    pub subtype: FunctionSubtype,
    pub schema: Schema,
    pub merge: Option<Expr>,
    pub cost: Option<u64>,
    pub unextractable: bool,
}

/// The view of a [`FunctionDecl`].
#[verifier::ext_equal]
pub struct FunctionDeclView {
    pub span: Span,
    pub name: Seq<char>,
    pub subtype: FunctionSubtype,
    pub schema: SchemaView,
    pub merge: Option<ExprView>,
    pub cost: Option<u64>,
    pub unextractable: bool,
}

impl View for FunctionDecl {
    type V = FunctionDeclView;

    open spec fn view(&self) -> FunctionDeclView {
        FunctionDeclView {
            span: self.span,
            name: self.name@,
            subtype: self.subtype,
            schema: self.schema@,
            merge: match self.merge {
                Some(e) => Some(e@),
                None => None,
            },
            cost: self.cost,
            unextractable: self.unextractable,
        }
    }
}

impl Clone for FunctionDecl {
    fn clone(&self) -> (r: Self)
        ensures
            r@ == self@,
    {
        let merge = match &self.merge {
            Some(e) => Some(e.clone()),
            None => None,
        };
        FunctionDecl {
            span: self.span,
            name: self.name.clone(),
            subtype: self.subtype,
            schema: Schema {
                input: clone_names(&self.schema.input),
                output: self.schema.output.clone(),
            },
            merge,
            cost: self.cost,
            unextractable: self.unextractable,
        }
    }
}

/// A command of a resolved program: the form in which the encoding gets the
/// user's program.
#[derive(Debug, PartialEq, Eq)]
pub enum NCommand {
    Sort { span: Span, name: String, presort_and_args: Option<(String, Vec<Expr>)> },
    Function(FunctionDecl),
    AddRuleset(Span, String),
    UnstableCombinedRuleset(Span, String, Vec<String>),
    NormRule { rule: Rule },
    CoreAction(Action),
    Extract(Span, Expr, Expr),
    RunSchedule(Schedule),
    Check(Span, Vec<Fact>),
    Output { span: Span, file: String, exprs: Vec<Expr> },
    Fail(Span, Box<NCommand>),
    /// Any other command, by its text: none of its parts are looked at.
    Other(Span, String),
}

/// A command of an encoded program.
#[derive(Debug, PartialEq, Eq)]
pub enum Command {
    Sort { span: Span, name: String, presort_and_args: Option<(String, Vec<Expr>)> },
    Function(FunctionDecl),
    Relation { span: Span, name: String, inputs: Vec<String> },
    AddRuleset(Span, String),
    UnstableCombinedRuleset(Span, String, Vec<String>),
    Rule { rule: Rule },
    Action(Action),
    Extract(Span, Expr, Expr),
    RunSchedule(Schedule),
    Check(Span, Vec<Fact>),
    Output { span: Span, file: String, exprs: Vec<Expr> },
    Fail(Span, Box<Command>),
    /// Any other command, by its text.
    Other(Span, String),
}

/// The view of an [`NCommand`].
pub enum NCommandView {
    Sort { span: Span, name: Seq<char>, presort_and_args: Option<(Seq<char>, Seq<ExprView>)> },
    Function(FunctionDeclView),
    AddRuleset(Span, Seq<char>),
    UnstableCombinedRuleset(Span, Seq<char>, Seq<Seq<char>>),
    NormRule { rule: RuleView },
    CoreAction(ActionView),
    Extract(Span, ExprView, ExprView),
    RunSchedule(ScheduleView),
    Check(Span, Seq<FactView>),
    Output { span: Span, file: Seq<char>, exprs: Seq<ExprView> },
    Fail(Span, Box<NCommandView>),
    Other(Span, Seq<char>),
}

/// The view of a [`Command`].
pub enum CommandView {
    Sort { span: Span, name: Seq<char>, presort_and_args: Option<(Seq<char>, Seq<ExprView>)> },
    Function(FunctionDeclView),
    Relation { span: Span, name: Seq<char>, inputs: Seq<Seq<char>> },
    AddRuleset(Span, Seq<char>),
    UnstableCombinedRuleset(Span, Seq<char>, Seq<Seq<char>>),
    Rule { rule: RuleView },
    Action(ActionView),
    Extract(Span, ExprView, ExprView),
    RunSchedule(ScheduleView),
    Check(Span, Seq<FactView>),
    Output { span: Span, file: Seq<char>, exprs: Seq<ExprView> },
    Fail(Span, Box<CommandView>),
    Other(Span, Seq<char>),
}

/// The view of the presort and the arguments of a sort declaration.
pub open spec fn presort_view(p: Option<(String, Vec<Expr>)>) -> Option<
    (Seq<char>, Seq<ExprView>),
> {
    match p {
        Some((name, args)) => Some((name@, exprs(args@))),
        None => None,
    }
}

/// Copies the presort and the arguments of a sort declaration.
fn clone_presort(p: &Option<(String, Vec<Expr>)>) -> (r: Option<(String, Vec<Expr>)>)
    ensures
        presort_view(r) == presort_view(*p),
{
    match p {
        Some((name, args)) => Some((name.clone(), clone_exprs(args))),
        None => None,
    }
}

/// What a [`NCommand`] stands for.
pub open spec fn ncommand_view(c: NCommand) -> NCommandView
    decreases c,
{
    match c {
        NCommand::Sort { span, name, presort_and_args } => NCommandView::Sort {
            span: span,
            name: name@,
            presort_and_args: presort_view(presort_and_args),
        },
        NCommand::Function(decl) => NCommandView::Function(decl@),
        NCommand::AddRuleset(span, name) => NCommandView::AddRuleset(span, name@),
        NCommand::UnstableCombinedRuleset(
            span,
            name,
            parts,
        ) => NCommandView::UnstableCombinedRuleset(span, name@, texts(parts@)),
        NCommand::NormRule { rule } => NCommandView::NormRule { rule: rule@ },
        NCommand::CoreAction(action) => NCommandView::CoreAction(action@),
        NCommand::Extract(span, e, variants) => NCommandView::Extract(span, e@, variants@),
        NCommand::RunSchedule(schedule) => NCommandView::RunSchedule(schedule@),
        NCommand::Check(span, fs) => NCommandView::Check(span, facts(fs@)),
        NCommand::Output { span, file, exprs: es } => NCommandView::Output {
            span: span,
            file: file@,
            exprs: exprs(es@),
        },
        NCommand::Fail(span, inner) => NCommandView::Fail(span, Box::new(ncommand_view(*inner))),
        NCommand::Other(span, text) => NCommandView::Other(span, text@),
    }
}

impl View for NCommand {
    type V = NCommandView;

    open spec fn view(&self) -> NCommandView {
        ncommand_view(*self)
    }
}

/// What a [`Command`] stands for.
pub open spec fn command_view(c: Command) -> CommandView
    decreases c,
{
    match c {
        Command::Sort { span, name, presort_and_args } => CommandView::Sort {
            span: span,
            name: name@,
            presort_and_args: presort_view(presort_and_args),
        },
        Command::Function(decl) => CommandView::Function(decl@),
        Command::Relation { span, name, inputs } => CommandView::Relation {
            span: span,
            name: name@,
            inputs: texts(inputs@),
        },
        Command::AddRuleset(span, name) => CommandView::AddRuleset(span, name@),
        Command::UnstableCombinedRuleset(
            span,
            name,
            parts,
        ) => CommandView::UnstableCombinedRuleset(span, name@, texts(parts@)),
        Command::Rule { rule } => CommandView::Rule { rule: rule@ },
        Command::Action(action) => CommandView::Action(action@),
        Command::Extract(span, e, variants) => CommandView::Extract(span, e@, variants@),
        Command::RunSchedule(schedule) => CommandView::RunSchedule(schedule@),
        Command::Check(span, fs) => CommandView::Check(span, facts(fs@)),
        Command::Output { span, file, exprs: es } => CommandView::Output {
            span: span,
            file: file@,
            exprs: exprs(es@),
        },
        Command::Fail(span, inner) => CommandView::Fail(span, Box::new(command_view(*inner))),
        Command::Other(span, text) => CommandView::Other(span, text@),
    }
}

impl View for Command {
    type V = CommandView;

    open spec fn view(&self) -> CommandView {
        command_view(*self)
    }
}

/// The views of a sequence of commands.
pub open spec fn commands(s: Seq<Command>) -> Seq<CommandView> {
    s.map_values(|c: Command| c@)
}

/// The views of a program.
pub open spec fn program(s: Seq<NCommand>) -> Seq<NCommandView> {
    s.map_values(|c: NCommand| c@)
}

/// The views of a list of commands grow with the list.
pub broadcast proof fn commands_push(s: Seq<Command>, c: Command)
    ensures
        #[trigger] commands(s.push(c)) == commands(s).push(c@),
{
    assert(commands(s.push(c)) =~= commands(s).push(c@));
}

/// The views of two lists of commands, one behind the other.
pub broadcast proof fn commands_add(s: Seq<Command>, t: Seq<Command>)
    ensures
        #[trigger] commands(s + t) == commands(s) + commands(t),
{
    assert(commands(s + t) =~= commands(s) + commands(t));
}

/// The command that a resolved command stands for.
pub open spec fn command_of(cmd: NCommandView) -> CommandView
    decreases cmd,
{
    match cmd {
        NCommandView::Sort { span, name, presort_and_args } => CommandView::Sort {
            span,
            name,
            presort_and_args,
        },
        NCommandView::Function(decl) => CommandView::Function(decl),
        NCommandView::AddRuleset(span, name) => CommandView::AddRuleset(span, name),
        NCommandView::UnstableCombinedRuleset(
            span,
            name,
            parts,
        ) => CommandView::UnstableCombinedRuleset(span, name, parts),
        NCommandView::NormRule { rule } => CommandView::Rule { rule },
        NCommandView::CoreAction(action) => CommandView::Action(action),
        NCommandView::Extract(span, e, variants) => CommandView::Extract(span, e, variants),
        NCommandView::RunSchedule(schedule) => CommandView::RunSchedule(schedule),
        NCommandView::Check(span, fs) => CommandView::Check(span, fs),
        NCommandView::Output { span, file, exprs } => CommandView::Output { span, file, exprs },
        NCommandView::Fail(span, inner) => CommandView::Fail(span, Box::new(command_of(*inner))),
        NCommandView::Other(span, text) => CommandView::Other(span, text),
    }
}

impl Schedule {
    /// Copies the schedule.
    fn copy(&self) -> (r: Self)
        ensures
            r@ == self@,
        decreases self,
    {
        match self {
            Schedule::Saturate(span, inner) => Schedule::Saturate(*span, Box::new(inner.copy())),
            Schedule::Repeat(span, n, inner) => Schedule::Repeat(*span, *n, Box::new(inner.copy())),
            Schedule::Run(span, config) => Schedule::Run(*span, config.clone()),
            Schedule::Sequence(span, items) => {
                let mut out: Vec<Schedule> = Vec::new();
                let mut i: usize = 0;
                while i < items.len()
                    invariant
                        i <= items.len(),
                        out.len() == i,
                        self matches Schedule::Sequence(_, s) && s == items,
                        forall|j: int| 0 <= j < i ==> out@[j]@ == items@[j]@,
                    decreases items.len() - i,
                {
                    out.push(items[i].copy());
                    i += 1;
                }
                let r = Schedule::Sequence(*span, out);
                proof {
                    sequence_view(*self);
                    sequence_view(r);
                    assert(schedules(out@) =~= schedules(items@));
                }
                r
            },
        }
    }
}

impl NCommand {
    /// The command that this resolved command stands for.
    pub fn to_command(&self) -> (r: Command)
        ensures
            r@ == command_of(self@),
        decreases self,
    {
        match self {
            NCommand::Sort { span, name, presort_and_args } => Command::Sort {
                span: *span,
                name: name.clone(),
                presort_and_args: clone_presort(presort_and_args),
            },
            NCommand::Function(decl) => Command::Function(decl.clone()),
            NCommand::AddRuleset(span, name) => Command::AddRuleset(*span, name.clone()),
            NCommand::UnstableCombinedRuleset(
                span,
                name,
                parts,
            ) => Command::UnstableCombinedRuleset(*span, name.clone(), clone_names(parts)),
            NCommand::NormRule { rule } => Command::Rule { rule: rule.clone() },
            NCommand::CoreAction(action) => Command::Action(action.clone()),
            NCommand::Extract(span, e, variants) => Command::Extract(
                *span,
                e.clone(),
                variants.clone(),
            ),
            NCommand::RunSchedule(schedule) => Command::RunSchedule(schedule.copy()),
            NCommand::Check(span, fs) => Command::Check(*span, clone_facts(fs)),
            NCommand::Output { span, file, exprs } => Command::Output {
                span: *span,
                file: file.clone(),
                exprs: clone_exprs(exprs),
            },
            NCommand::Fail(span, inner) => Command::Fail(*span, Box::new(inner.to_command())),
            NCommand::Other(span, text) => Command::Other(*span, text.clone()),
        }
    }
}

} // verus!
