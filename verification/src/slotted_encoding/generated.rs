//! What the generated rules say: what each of them matches, what it derives, and
//! how the renamings in its head come from those in its body.

use vstd::prelude::*;

use crate::ast::{ActionView, Change, CommandView, ExprView, FactView, FunctionSubtype, Span};
use crate::names::{decimal, decimal_is_digits, is_digit, numbered, numbered_is_injective};
use crate::slotted_encoding::erasure::{interleaved_places, place, set_before, slotted_input_places};
use crate::slotted_encoding::machinery::{
    child_rule, child_rules, compound_machinery, edge_vars, leader_declaration, leaf_pair_rule,
    pattern_args, pattern_child, pattern_children, pattern_edge, pattern_edges, transitivity_rule,
    var, Pattern,
};
use crate::slotted_encoding::meaning::{compose_reads, inverse_reads, renaming_of, Reading};
use crate::sort::renaming::{
    composed, forced_mapping_renames_second_to_first, inverted, is_forced_mapping, mappable, Pairs,
};

verus! {

// ---------------------------------------------------------------------------
// Words for rules
// ---------------------------------------------------------------------------
/// Whether the expressions are variables, no two of them the same.
pub open spec fn are_different_variables(es: Seq<ExprView>) -> bool {
    &&& forall|i: int| 0 <= i < es.len() ==> (#[trigger] es[i]) is Var
    &&& forall|i: int, j: int|
        0 <= i < j < es.len() ==> (#[trigger] es[i])->Var_1 != (#[trigger] es[j])->Var_1
}

/// Whether a command is a rule of the `slotted` ruleset with so many facts and
/// actions.
pub open spec fn is_slotted_rule(c: CommandView, facts: nat, actions: nat) -> bool {
    c matches CommandView::Rule { rule } && rule.ruleset == "slotted"@ && rule.name.len() == 0
        && rule.body.len() == facts && rule.head.len() == actions
}

/// Whether a term says that `a` renames to `b` by `r`, for a sort.
pub open spec fn says_renames(
    e: ExprView,
    sort: Seq<char>,
    a: ExprView,
    b: ExprView,
    r: ExprView,
) -> bool {
    e matches ExprView::Call(_, head, args) && head == "RenamesToLeader_"@ + sort && args == seq![
        a,
        b,
        r,
    ]
}

/// Whether a fact matches the variable `v` with a call of `name`.
pub open spec fn matches_call(f: FactView, name: Seq<char>) -> bool {
    f matches FactView::Eq(_, v, c) && v is Var && (c matches ExprView::Call(_, head, _) && head
        == name)
}

/// Whether a fact says that two expressions differ.
pub open spec fn says_different(f: FactView, a: ExprView, b: ExprView) -> bool {
    f matches FactView::Fact(ExprView::Call(_, head, args)) && head == "!="@ && args == seq![a, b]
}

/// Whether a fact says that `b` is the greater of `a` and `b`.
pub open spec fn says_greater(f: FactView, a: ExprView, b: ExprView) -> bool {
    f matches FactView::Eq(_, x, ExprView::Call(_, head, args)) && x == b && head
        == "ordering-max"@ && args == seq![a, b]
}

// ---------------------------------------------------------------------------
// The arguments of generated nodes
// ---------------------------------------------------------------------------
/// Names with a one-letter prefix differ in the letter or in the number.
proof fn numbered_differ(a: Seq<char>, i: nat, b: Seq<char>, j: nat)
    requires
        a.len() == 1,
        b.len() == 1,
        a[0] != b[0] || i != j,
    ensures
        numbered(a, i) != numbered(b, j),
{
    if numbered(a, i) == numbered(b, j) {
        assert(numbered(a, i)[0] == a[0] && numbered(b, j)[0] == b[0]);
        assert(a =~= b);
        numbered_is_injective(a, i, j);
    }
}

/// Every argument of a node stands at the place of a child or at that of an
/// edge.
proof fn place_taken_by(mask: Seq<bool>, n: nat, j: int) -> (i: int)
    requires
        0 <= j < place(mask, n as int),
    ensures
        0 <= i < n,
        j == place(mask, i) || (mask[i] && j == place(mask, i) + 1),
    decreases n,
{
    let k = (n - 1) as nat;
    if j < place(mask, k as int) {
        place_taken_by(mask, k, j)
    } else {
        k as int
    }
}

/// Different children stand at different places, and never where an edge stands.
proof fn places_differ(mask: Seq<bool>, i: int, j: int)
    requires
        0 <= i < j,
    ensures
        place(mask, i) + (if mask[i] {
            1int
        } else {
            0int
        }) < place(mask, j),
    decreases j - i,
{
    if i + 1 < j {
        places_differ(mask, i, j - 1);
    }
}

/// Counting the set positions never goes back.
proof fn set_before_grows(mask: Seq<bool>, i: nat, j: nat)
    requires
        i <= j,
    ensures
        set_before(mask, i) <= set_before(mask, j),
    decreases j,
{
    if i < j {
        set_before_grows(mask, i, (j - 1) as nat);
    }
}

/// What a node pattern has at its places.
proof fn pattern_places(mask: Seq<bool>, p: Pattern)
    ensures
        pattern_args(mask, p).len() == place(mask, mask.len() as int),
        forall|i: int|
            0 <= i < mask.len() ==> (#[trigger] place(mask, i)) < pattern_args(mask, p).len()
                && pattern_args(mask, p)[place(mask, i)] == pattern_children(mask, p)[i],
        forall|i: int|
            0 <= i < mask.len() && mask[i] ==> (#[trigger] place(mask, i)) + 1 < pattern_args(
                mask,
                p,
            ).len() && pattern_args(mask, p)[place(mask, i) + 1] == pattern_edge(p, i),
{
    interleaved_places(pattern_children(mask, p), pattern_edges(mask, p), mask, mask.len());
    assert forall|i: int| 0 <= i < mask.len() && mask[i] implies (#[trigger] place(mask, i)) + 1
        < pattern_args(mask, p).len() && pattern_args(mask, p)[place(mask, i) + 1] == pattern_edge(
        p,
        i,
    ) by {
        assert(pattern_edges(mask, p)[i] == Some(pattern_edge(p, i)));
    }
}

/// The edges that are handed to `find-mapping` come in order, one for each set
/// position.
proof fn edge_vars_in_order(mask: Seq<bool>, p: Pattern, n: nat)
    requires
        n <= mask.len(),
    ensures
        edge_vars(mask, p, n).len() == set_before(mask, n),
        forall|i: int|
            0 <= i < n && #[trigger] mask[i] ==> set_before(mask, i as nat) < set_before(mask, n)
                && edge_vars(mask, p, n)[set_before(mask, i as nat) as int] == pattern_edge(p, i),
    decreases n,
{
    if n > 0 {
        edge_vars_in_order(mask, p, (n - 1) as nat);
    }
}

/// Every argument of `find-mapping` is the edge of a set position.
pub proof fn set_position(mask: Seq<bool>, n: nat, j: int) -> (i: int)
    requires
        n <= mask.len(),
        0 <= j < set_before(mask, n),
    ensures
        0 <= i < n,
        mask[i],
        set_before(mask, i as nat) == j,
    decreases n,
{
    let k = (n - 1) as nat;
    if j < set_before(mask, k) {
        set_position(mask, k, j)
    } else {
        k as int
    }
}

/// The letter that the variable at position `i` of a node pattern starts with.
spec fn letter_of(mask: Seq<bool>, p: Pattern, i: int, edge: bool) -> Seq<char> {
    if edge {
        match p {
            Pattern::First => "a"@,
            Pattern::Second => "b"@,
            _ => "r"@,
        }
    } else if mask[i] {
        "c"@
    } else {
        "x"@
    }
}

/// The variable at position `i` of a node pattern.
spec fn name_at(mask: Seq<bool>, p: Pattern, i: int, edge: bool) -> Seq<char> {
    if mask[i] && (p matches Pattern::ChildMatched(k) && k == i) {
        letter_of(mask, p, i, edge)
    } else {
        numbered(letter_of(mask, p, i, edge), i as nat)
    }
}

/// Whether all arguments of a node pattern are variables.
spec fn is_linear(p: Pattern) -> bool {
    p is First || p is Second || p is Plain || p is ChildMatched
}

/// The letters are what they look like.
proof fn letters()
    ensures
        "a"@ == seq!['a'],
        "b"@ == seq!['b'],
        "c"@ == seq!['c'],
        "r"@ == seq!['r'],
        "x"@ == seq!['x'],
{
    reveal_strlit("a");
    reveal_strlit("b");
    reveal_strlit("c");
    reveal_strlit("r");
    reveal_strlit("x");
    assert("a"@ =~= seq!['a'] && "b"@ =~= seq!['b'] && "c"@ =~= seq!['c']);
    assert("r"@ =~= seq!['r'] && "x"@ =~= seq!['x']);
}

/// The arguments of a node pattern carry these names.
proof fn names_at_places(mask: Seq<bool>, p: Pattern, i: int)
    requires
        is_linear(p),
        0 <= i < mask.len(),
    ensures
        pattern_children(mask, p)[i] == ExprView::Var(
            Span::Generated,
            name_at(mask, p, i, false),
        ),
        mask[i] ==> pattern_edge(p, i) == ExprView::Var(
            Span::Generated,
            name_at(mask, p, i, true),
        ),
{
}

/// Different positions of a node pattern have different names.
proof fn names_at_differ(mask: Seq<bool>, p: Pattern, i: int, e: bool, j: int, f: bool)
    requires
        is_linear(p),
        0 <= i,
        0 <= j,
        i != j || e != f,
        e ==> mask[i],
        f ==> mask[j],
    ensures
        name_at(mask, p, i, e) != name_at(mask, p, j, f),
{
    letters();
    decimal_is_digits(i as nat);
    decimal_is_digits(j as nat);
    let a = letter_of(mask, p, i, e);
    let b = letter_of(mask, p, j, f);
    numbered_differ_if(a, i as nat, b, j as nat);
    assert(numbered(a, i as nat).len() >= 2 && numbered(b, j as nat).len() >= 2);
}

/// Names with a one-letter prefix differ if the letter or the number does.
proof fn numbered_differ_if(a: Seq<char>, i: nat, b: Seq<char>, j: nat)
    requires
        a.len() == 1,
        b.len() == 1,
    ensures
        a[0] != b[0] || i != j ==> numbered(a, i) != numbered(b, j),
{
    if a[0] != b[0] || i != j {
        numbered_differ(a, i, b, j);
    }
}

/// A name that does not look like one of a node pattern is none.
proof fn name_at_is_not(mask: Seq<bool>, p: Pattern, i: int, e: bool, s: Seq<char>)
    requires
        0 <= i,
        s.len() > 0,
        s[0] == letter_of(mask, p, i, e)[0] ==> s.len() > 1 && !is_digit(s[1]),
    ensures
        name_at(mask, p, i, e) != s,
{
    letters();
    decimal_is_digits(i as nat);
    let a = letter_of(mask, p, i, e);
    let whole = numbered(a, i as nat);
    assert(whole[0] == a[0]);
    assert(whole[1] == decimal(i as nat)[0]);
}

/// The arguments of a node pattern are different variables, and different from
/// names that do not look like theirs.
proof fn pattern_is_linear(mask: Seq<bool>, p: Pattern, others: Seq<ExprView>)
    requires
        is_linear(p),
        are_different_variables(others),
        forall|o: int, i: int, e: bool|
            #![trigger others[o], letter_of(mask, p, i, e)]
            0 <= o < others.len() && 0 <= i < mask.len() && (e ==> mask[i])
                ==> others[o]->Var_1.len() > 0 && (others[o]->Var_1[0] == letter_of(
                mask,
                p,
                i,
                e,
            )[0] ==> others[o]->Var_1.len() > 1 && !is_digit(others[o]->Var_1[1])),
    ensures
        are_different_variables(others + pattern_args(mask, p)),
{
    let args = pattern_args(mask, p);
    let all = others + args;
    let m = others.len() as int;
    pattern_places(mask, p);
    assert forall|k: int| 0 <= k < all.len() implies (#[trigger] all[k]) is Var by {
        if k >= m {
            let i = place_taken_by(mask, mask.len(), k - m);
            names_at_places(mask, p, i);
        }
    }
    assert forall|k: int, l: int| 0 <= k < l < all.len() implies (#[trigger] all[k])->Var_1 != (
    #[trigger] all[l])->Var_1 by {
        if l >= m {
            let j = place_taken_by(mask, mask.len(), l - m);
            let f = l - m != place(mask, j);
            names_at_places(mask, p, j);
            assert(all[l]->Var_1 == name_at(mask, p, j, f));
            if k >= m {
                let i = place_taken_by(mask, mask.len(), k - m);
                let e = k - m != place(mask, i);
                names_at_places(mask, p, i);
                assert(all[k]->Var_1 == name_at(mask, p, i, e));
                names_at_differ(mask, p, i, e, j, f);
            } else {
                assert(all[k] == others[k]);
                let letter = letter_of(mask, p, j, f);
                assert(others[k]->Var_1[0] == letter[0] ==> others[k]->Var_1.len() > 1
                    && !is_digit(others[k]->Var_1[1]));
                name_at_is_not(mask, p, j, f, others[k]->Var_1);
            }
        } else {
            assert(all[k] == others[k] && all[l] == others[l]);
        }
    }
}

/// The generated variables of three different names are different.
proof fn three_differ(a: Seq<char>, b: Seq<char>, c: Seq<char>)
    requires
        a != b,
        a != c,
        b != c,
    ensures
        are_different_variables(seq![var(a), var(b), var(c)]),
{
    let all = seq![var(a), var(b), var(c)];
    assert forall|i: int, j: int| 0 <= i < j < all.len() implies (#[trigger] all[i])->Var_1 != (
    #[trigger] all[j])->Var_1 by {
        assert(i == 0 || i == 1);
        assert(j == 1 || j == 2);
    }
}

/// The names that the generated rules use besides those of node patterns.
proof fn words()
    ensures
        "e1"@.len() == 2 && "e1"@[0] == 'e' && "e1"@[1] == '1',
        "e2"@.len() == 2 && "e2"@[0] == 'e' && "e2"@[1] == '2',
        "e3"@.len() == 2 && "e3"@[0] == 'e' && "e3"@[1] == '3',
        "R"@.len() == 1 && "R"@[0] == 'R',
        "R2"@.len() == 2 && "R2"@[0] == 'R',
        "rename"@.len() == 6 && "rename"@[0] == 'r' && "rename"@[1] == 'e',
        "node"@.len() == 4 && "node"@[0] == 'n',
        "c'"@.len() == 2 && "c'"@[0] == 'c' && "c'"@[1] == '\'',
        "id1"@.len() == 3 && "id1"@[2] == '1',
        "id2"@.len() == 3 && "id2"@[2] == '2',
{
    reveal_strlit("e1");
    reveal_strlit("e2");
    reveal_strlit("e3");
    reveal_strlit("R");
    reveal_strlit("R2");
    reveal_strlit("rename");
    reveal_strlit("node");
    reveal_strlit("c'");
    reveal_strlit("id1");
    reveal_strlit("id2");
}

/// The variables of the rule that relates two nodes are different.
proof fn alpha_variables_differ(mask: Seq<bool>)
    ensures
        are_different_variables(
            seq![var("e1"@), var("e2"@), var("rename"@)] + pattern_args(mask, Pattern::First)
                + edge_vars(mask, Pattern::Second, mask.len()),
        ),
{
    let n = mask.len();
    let (p, q) = (Pattern::First, Pattern::Second);
    let b = edge_vars(mask, q, n);
    pattern_places(mask, p);
    edge_vars_in_order(mask, q, n);
    letters();
    words();
    let others = seq![var("e1"@), var("e2"@), var("rename"@)];
    three_differ("e1"@, "e2"@, "rename"@);
    pattern_is_linear(mask, p, others);
    let front = others + pattern_args(mask, p);
    let all = front + b;
    assert forall|x: int| 0 <= x < all.len() implies (#[trigger] all[x]) is Var by {
        if x >= front.len() {
            let j = set_position(mask, n, x - front.len());
            assert(mask[j]);
            names_at_places(mask, q, j);
        } else {
            assert(all[x] == front[x]);
        }
    }
    assert forall|x: int, y: int| 0 <= x < y < all.len() implies (#[trigger] all[x])->Var_1 != (
    #[trigger] all[y])->Var_1 by {
        if y >= front.len() {
            let j = set_position(mask, n, y - front.len());
            assert(mask[j]);
            names_at_places(mask, q, j);
            assert(all[y]->Var_1 == name_at(mask, q, j, true));
            if x >= front.len() {
                let i = set_position(mask, n, x - front.len());
                assert(mask[i]);
                names_at_places(mask, q, i);
                assert(all[x]->Var_1 == name_at(mask, q, i, true));
                names_at_differ(mask, q, i, true, j, true);
            } else if x >= 3 {
                let i = place_taken_by(mask, n, x - 3);
                let e = x - 3 != place(mask, i);
                names_at_places(mask, p, i);
                assert(all[x] == pattern_args(mask, p)[x - 3]);
                assert(all[x]->Var_1 == name_at(mask, p, i, e));
                numbered_differ(letter_of(mask, p, i, e), i as nat, "b"@, j as nat);
            } else {
                assert(all[x] == others[x]);
                name_at_is_not(mask, q, j, true, others[x]->Var_1);
            }
        } else {
            assert(all[x] == front[x] && all[y] == front[y]);
        }
    }
}

/// The variables of the rule that moves a node are different.
proof fn migration_variables_differ(mask: Seq<bool>)
    ensures
        are_different_variables(
            seq![var("e1"@), var("e2"@), var("R"@)] + pattern_args(mask, Pattern::Plain),
        ),
{
    letters();
    words();
    three_differ("e1"@, "e2"@, "R"@);
    pattern_is_linear(mask, Pattern::Plain, seq![var("e1"@), var("e2"@), var("R"@)]);
}

/// The variables of the rule for a child are different.
proof fn child_variables_differ(mask: Seq<bool>, pos: usize)
    ensures
        are_different_variables(
            seq![var("node"@), var("c'"@), var("R"@)] + pattern_args(
                mask,
                Pattern::ChildMatched(pos),
            ),
        ),
{
    letters();
    words();
    three_differ("node"@, "c'"@, "R"@);
    pattern_is_linear(
        mask,
        Pattern::ChildMatched(pos),
        seq![var("node"@), var("c'"@), var("R"@)],
    );
}

// ---------------------------------------------------------------------------
// The declaration of a compound constructor
// ---------------------------------------------------------------------------
/// A compound constructor becomes a constructor of the same name and result that
/// takes the user's arguments in order, with a `Renaming` behind each one that
/// carries slots and nothing else; behind it come the two rules for its nodes and
/// one rule for each child that carries slots.
pub proof fn compound_declaration_gets_a_renaming_per_slotted_child(
    name: Seq<char>,
    inputs: Seq<Seq<char>>,
    output: Seq<char>,
    mask: Seq<bool>,
)
    requires
        inputs.len() == mask.len(),
    ensures
        ({
            let cmds = compound_machinery(name, inputs, output, mask);
            let n = mask.len();
            &&& cmds.len() == 3 + set_before(mask, n)
            &&& cmds[0] matches CommandView::Function(decl) && decl.name == name && decl.subtype
                == FunctionSubtype::Constructor && decl.schema.output == output
                && decl.merge is None && decl.cost is None && !decl.unextractable
                && decl.schema.input.len() == n + set_before(mask, n) && (
            forall|i: int|
                0 <= i < n ==> decl.schema.input[#[trigger] place(mask, i)] == inputs[i] && (
                mask[i] ==> decl.schema.input[place(mask, i) + 1] == "Renaming"@))
        }),
{
    slotted_input_places(inputs, mask, mask.len());
    child_rules_in_order(name, output, mask, mask.len());
}

/// The child rules come in the order of the positions.
proof fn child_rules_in_order(name: Seq<char>, output: Seq<char>, mask: Seq<bool>, n: nat)
    requires
        n <= mask.len(),
    ensures
        child_rules(name, output, mask, n).len() == set_before(mask, n),
        forall|i: int|
            0 <= i < n && #[trigger] mask[i] ==> set_before(mask, i as nat) < set_before(mask, n)
                && child_rules(name, output, mask, n)[set_before(mask, i as nat) as int]
                == child_rule(name, output, mask, i as usize),
    decreases n,
{
    if n > 0 {
        child_rules_in_order(name, output, mask, (n - 1) as nat);
    }
}

// ---------------------------------------------------------------------------
// Nodes that are equal up to renaming
// ---------------------------------------------------------------------------
/// The rule that relates two nodes of a constructor matches them with the same
/// children and other arguments, each edge with a variable of its own. It hands
/// all edges of the first node to `find-mapping`, in order, and then all edges of
/// the second, and records that the greater node renames to the smaller one by
/// what comes back.
pub proof fn alpha_rule_compares_all_edges(
    name: Seq<char>,
    inputs: Seq<Seq<char>>,
    output: Seq<char>,
    mask: Seq<bool>,
)
    ensures
        ({
            let c = compound_machinery(name, inputs, output, mask)[1];
            let rule = c->Rule_rule;
            let (e1, first) = (rule.body[0]->Eq_1, rule.body[0]->Eq_2->Call_2);
            let (e2, second) = (rule.body[1]->Eq_1, rule.body[1]->Eq_2->Call_2);
            let (rename, given) = (rule.body[2]->Eq_1, rule.body[2]->Eq_2->Call_2);
            let n = mask.len();
            let k = set_before(mask, n) as int;
            &&& is_slotted_rule(c, 4, 1)
            &&& matches_call(rule.body[0], name)
            &&& matches_call(rule.body[1], name)
            &&& matches_call(rule.body[2], "find-mapping"@)
            &&& says_greater(rule.body[3], e1, e2)
            &&& rule.head[0] matches ActionView::Expr(_, e) && says_renames(
                e,
                output,
                e2,
                e1,
                rename,
            )
            &&& first.len() == n + k && second.len() == n + k && given.len() == 2 * k
            &&& forall|i: int|
                0 <= i < n ==> first[#[trigger] place(mask, i)] == second[place(mask, i)]
            &&& forall|i: int|
                0 <= i < n && #[trigger] mask[i] ==> given[set_before(mask, i as nat) as int]
                    == first[place(mask, i) + 1] && given[k + set_before(mask, i as nat)]
                    == second[place(mask, i) + 1]
            &&& are_different_variables(seq![e1, e2, rename] + first + given.skip(k))
        }),
{
    let c = compound_machinery(name, inputs, output, mask)[1];
    let rule = c->Rule_rule;
    let n = mask.len();
    let k = set_before(mask, n) as int;
    let (p, q) = (Pattern::First, Pattern::Second);
    let (e1, e2, rename) = (rule.body[0]->Eq_1, rule.body[1]->Eq_1, rule.body[2]->Eq_1);
    let given = rule.body[2]->Eq_2->Call_2;
    let a = edge_vars(mask, p, n);
    let b = edge_vars(mask, q, n);
    pattern_places(mask, p);
    pattern_places(mask, q);
    edge_vars_in_order(mask, p, n);
    edge_vars_in_order(mask, q, n);
    assert(given == a + b);
    assert(given.skip(k) =~= b);
    assert(seq![e1, e2, rename] =~= seq![var("e1"@), var("e2"@), var("rename"@)]);
    alpha_variables_differ(mask);
}

/// Where the edges of two matched nodes are renamings and `find-mapping` gives
/// what they force, the recorded renaming composed with each edge of the greater
/// node is the edge of the smaller node at the same place.
pub proof fn alpha_rule_renames_second_to_first(
    rd: Reading,
    pairs: Pairs,
    name: Seq<char>,
    inputs: Seq<Seq<char>>,
    output: Seq<char>,
    mask: Seq<bool>,
    i: int,
)
    requires
        0 <= i < mask.len(),
        mask[i],
        ({
            let rule = compound_machinery(name, inputs, output, mask)[1]->Rule_rule;
            let given = rule.body[2]->Eq_2->Call_2;
            let k = set_before(mask, mask.len()) as int;
            &&& pairs.len() == k
            &&& forall|j: int|
                0 <= j < k ==> renaming_of(rd, given[j]) == Some((#[trigger] pairs[j]).0)
                    && renaming_of(rd, given[k + j]) == Some(pairs[j].1)
            &&& mappable(pairs)
            &&& is_forced_mapping(pairs, renaming_of(rd, rule.body[2]->Eq_1)->0)
        }),
    ensures
        ({
            let rule = compound_machinery(name, inputs, output, mask)[1]->Rule_rule;
            let first = rule.body[0]->Eq_2->Call_2[place(mask, i) + 1];
            let second = rule.body[1]->Eq_2->Call_2[place(mask, i) + 1];
            let rename = rule.body[2]->Eq_1;
            &&& renaming_of(rd, first) is Some
            &&& renaming_of(rd, second) is Some
            &&& renaming_of(rd, rename) is Some
            &&& composed(renaming_of(rd, rename)->0, renaming_of(rd, second)->0) == renaming_of(
                rd,
                first,
            )->0
        }),
{
    alpha_rule_compares_all_edges(name, inputs, output, mask);
    let rule = compound_machinery(name, inputs, output, mask)[1]->Rule_rule;
    let m = renaming_of(rd, rule.body[2]->Eq_1)->0;
    edge_vars_in_order(mask, Pattern::First, mask.len());
    let j = set_before(mask, i as nat) as int;
    assert(renaming_of(rd, rule.body[2]->Eq_2->Call_2[j]) == Some(pairs[j].0));
    forced_mapping_renames_second_to_first(pairs, m);
    assert(composed(m, pairs[j].1) == pairs[j].0);
}

// ---------------------------------------------------------------------------
// Moving a node to its leader
// ---------------------------------------------------------------------------
/// The rule that moves a node which renames to another matches the node with a
/// variable for each argument. It unites the node with the node over the same
/// children whose edges are the matched edges behind the renaming, and deletes
/// the matched row.
pub proof fn migration_rule_renames_all_edges(
    rd: Reading,
    name: Seq<char>,
    inputs: Seq<Seq<char>>,
    output: Seq<char>,
    mask: Seq<bool>,
)
    ensures
        ({
            let c = compound_machinery(name, inputs, output, mask)[2];
            let rule = c->Rule_rule;
            let (e2, before) = (rule.body[1]->Eq_1, rule.body[1]->Eq_2->Call_2);
            let e1 = rule.body[0]->Fact_0->Call_2[1];
            let rename = rule.body[0]->Fact_0->Call_2[2];
            let after = rule.head[0]->Union_2->Call_2;
            let n = mask.len();
            &&& is_slotted_rule(c, 3, 2)
            &&& rule.body[0] matches FactView::Fact(e) && says_renames(e, output, e2, e1, rename)
            &&& matches_call(rule.body[1], name)
            &&& says_different(rule.body[2], e1, e2)
            &&& rule.head[0] matches ActionView::Union(_, lhs, rhs) && lhs == e2 && (
            rhs matches ExprView::Call(_, head, _) && head == name)
            &&& rule.head[1] matches ActionView::Change(_, change, head, args) && change
                == Change::Delete && head == name && args == before
            &&& before.len() == n + set_before(mask, n) && after.len() == before.len()
            &&& forall|i: int|
                0 <= i < n ==> after[#[trigger] place(mask, i)] == before[place(mask, i)]
            &&& forall|i: int|
                0 <= i < n && mask[i] ==> renaming_of(
                    rd,
                    after[(#[trigger] place(mask, i)) + 1],
                ) == Some(
                    composed(
                        renaming_of(rd, rename)->0,
                        renaming_of(rd, before[place(mask, i) + 1])->0,
                    ),
                )
            &&& are_different_variables(seq![e1, e2, rename] + before)
        }),
{
    let c = compound_machinery(name, inputs, output, mask)[2];
    let rule = c->Rule_rule;
    let (p, q) = (Pattern::Plain, Pattern::Composed);
    pattern_places(mask, p);
    pattern_places(mask, q);
    let e2 = rule.body[1]->Eq_1;
    let e1 = rule.body[0]->Fact_0->Call_2[1];
    let rename = rule.body[0]->Fact_0->Call_2[2];
    assert(seq![e1, e2, rename] =~= seq![var("e1"@), var("e2"@), var("R"@)]);
    migration_variables_differ(mask);
    let before = pattern_args(mask, p);
    let after = pattern_args(mask, q);
    assert forall|i: int| 0 <= i < mask.len() && mask[i] implies renaming_of(
        rd,
        after[(#[trigger] place(mask, i)) + 1],
    ) == Some(
        composed(renaming_of(rd, rename)->0, renaming_of(rd, before[place(mask, i) + 1])->0),
    ) by {
        compose_reads(rd, Span::Generated, rename, pattern_edge(p, i));
    }
}

// ---------------------------------------------------------------------------
// Moving a node to the leader of a child
// ---------------------------------------------------------------------------
/// For each child that carries slots there is a rule that moves a node over to
/// the leader of that child. It matches the node with a variable for each
/// argument and unites it with the node of the same constructor that has the
/// leader in place of the child, the matched edge behind the inverse of the
/// renaming as the edge to it, and all other arguments as they were.
pub proof fn child_rule_replaces_one_child(
    rd: Reading,
    name: Seq<char>,
    inputs: Seq<Seq<char>>,
    output: Seq<char>,
    mask: Seq<bool>,
    pos: int,
)
    requires
        mask.len() <= usize::MAX,
        0 <= pos < mask.len(),
        mask[pos],
    ensures
        ({
            let c = compound_machinery(name, inputs, output, mask)[3
                + set_before(mask, pos as nat) as int];
            let rule = c->Rule_rule;
            let (whole, before) = (rule.body[1]->Eq_1, rule.body[1]->Eq_2->Call_2);
            let after = rule.head[0]->Union_2->Call_2;
            let at = place(mask, pos);
            let leader = rule.body[0]->Fact_0->Call_2[1];
            let rename = rule.body[0]->Fact_0->Call_2[2];
            &&& is_slotted_rule(c, 3, 1)
            &&& rule.body[0] matches FactView::Fact(e) && says_renames(
                e,
                output,
                before[at],
                leader,
                rename,
            )
            &&& matches_call(rule.body[1], name)
            &&& says_different(rule.body[2], before[at], leader)
            &&& rule.head[0] matches ActionView::Union(_, lhs, rhs) && lhs == whole && (
            rhs matches ExprView::Call(_, head, _) && head == name)
            &&& before.len() == mask.len() + set_before(mask, mask.len())
            &&& after.len() == before.len()
            &&& after[at] == leader
            &&& renaming_of(rd, after[at + 1]) == Some(
                composed(
                    renaming_of(rd, before[at + 1])->0,
                    inverted(renaming_of(rd, rename)->0),
                ),
            )
            &&& forall|j: int|
                0 <= j < before.len() && j != at && j != at + 1 ==> #[trigger] after[j]
                    == before[j]
            &&& are_different_variables(seq![whole, leader, rename] + before)
        }),
{
    let n = mask.len();
    child_rules_in_order(name, output, mask, n);
    assert(mask[pos]);
    let c = compound_machinery(name, inputs, output, mask)[3
        + set_before(mask, pos as nat) as int];
    let k = pos as usize;
    assert(c == child_rule(name, output, mask, k));
    let rule = c->Rule_rule;
    let (p, q) = (Pattern::ChildMatched(k), Pattern::ChildReplaced(k));
    pattern_places(mask, p);
    pattern_places(mask, q);
    let before = pattern_args(mask, p);
    let after = pattern_args(mask, q);
    let at = place(mask, pos);
    let whole = rule.body[1]->Eq_1;
    let leader = rule.body[0]->Fact_0->Call_2[1];
    let rename = rule.body[0]->Fact_0->Call_2[2];
    assert(at < before.len());
    assert(before[at] == pattern_child(p, pos));
    inverse_reads(rd, Span::Generated, rename);
    compose_reads(
        rd,
        Span::Generated,
        before[at + 1],
        ExprView::Call(Span::Generated, "inverse"@, seq![rename]),
    );
    assert forall|j: int|
        0 <= j < before.len() && j != at && j != at + 1 implies #[trigger] after[j]
        == before[j] by {
        let i = place_taken_by(mask, n, j);
        assert(place(mask, i) < before.len());
        assert(pattern_children(mask, p)[i] == pattern_children(mask, q)[i]) by {
            assert(i != pos);
        }
        assert(pattern_edge(p, i) == pattern_edge(q, i));
    }
    assert(seq![whole, leader, rename] =~= seq![var("node"@), var("c'"@), var("R"@)]);
    child_variables_differ(mask, k);
}

// ---------------------------------------------------------------------------
// Leaves and leaders
// ---------------------------------------------------------------------------
/// The rule of a leaf constructor matches two leaves of different slots and
/// records that the greater one renames to the smaller one by sending its slot
/// to the other's.
pub proof fn leaf_rule_sends_slot_to_slot(name: Seq<char>, output: Seq<char>)
    ensures
        ({
            let c = leaf_pair_rule(name, output);
            let rule = c->Rule_rule;
            let (e1, first) = (rule.body[0]->Eq_1, rule.body[0]->Eq_2->Call_2);
            let (e2, second) = (rule.body[1]->Eq_1, rule.body[1]->Eq_2->Call_2);
            &&& is_slotted_rule(c, 4, 1)
            &&& matches_call(rule.body[0], name) && first.len() == 1
            &&& matches_call(rule.body[1], name) && second.len() == 1
            &&& says_different(rule.body[2], first[0], second[0])
            &&& says_greater(rule.body[3], e1, e2)
            &&& are_different_variables(seq![e1, e2, first[0], second[0]])
            &&& rule.head[0] matches ActionView::Expr(_, e) && says_renames(
                e,
                output,
                e2,
                e1,
                e->Call_2[2],
            ) && (e->Call_2[2] matches ExprView::Call(_, insert, args) && insert == "map-insert"@
                && args.len() == 3 && args[1] == second[0] && args[2] == first[0] && (
            args[0] matches ExprView::Call(_, empty, none) && empty == "map-empty"@ && none.len()
                == 0))
        }),
{
    words();
}

/// Each sort with slots gets a relation between two of its terms and a renaming,
/// and a rule that makes it transitive: where one term renames to a second and
/// that to a third, it renames to the third by the composition.
pub proof fn leaders_of_leaders_are_leaders(rd: Reading, sort: Seq<char>)
    ensures
        leader_declaration(sort) matches CommandView::Relation { name, inputs, .. } && name
            == "RenamesToLeader_"@ + sort && inputs == seq![sort, sort, "Renaming"@],
        ({
            let c = transitivity_rule(sort);
            let rule = c->Rule_rule;
            let first = rule.body[0]->Fact_0->Call_2;
            let second = rule.body[1]->Fact_0->Call_2;
            let derived = rule.head[0]->Expr_1->Call_2;
            &&& is_slotted_rule(c, 2, 1)
            &&& rule.body[0] matches FactView::Fact(e) && says_renames(
                e,
                sort,
                first[0],
                first[1],
                first[2],
            )
            &&& rule.body[1] matches FactView::Fact(e) && says_renames(
                e,
                sort,
                first[1],
                second[1],
                second[2],
            )
            &&& rule.head[0] matches ActionView::Expr(_, e) && says_renames(
                e,
                sort,
                first[0],
                second[1],
                derived[2],
            )
            &&& renaming_of(rd, derived[2]) == Some(
                composed(renaming_of(rd, second[2])->0, renaming_of(rd, first[2])->0),
            )
            &&& are_different_variables(seq![first[0], first[1], second[1], first[2], second[2]])
        }),
{
    let rule = transitivity_rule(sort)->Rule_rule;
    let first = rule.body[0]->Fact_0->Call_2;
    let second = rule.body[1]->Fact_0->Call_2;
    compose_reads(rd, Span::Generated, second[2], first[2]);
    words();
    let all = seq![first[0], first[1], second[1], first[2], second[2]];
    let names = seq!["e1"@, "e2"@, "e3"@, "R"@, "R2"@];
    assert(all =~= names.map_values(|v: Seq<char>| var(v)));
    assert(names[0] != names[1] && names[0] != names[2] && names[1] != names[2]);
    assert(names[3] != names[4]);
    assert(are_different_variables(all));
}

} // verus!
