//! What holds of encoded programs as a whole.

use vstd::prelude::*;

use crate::ast::{command_of, CommandView, NCommandView, ScheduleView};
use crate::slotted_encoding::erasure::leaves_fit;
use crate::slotted_encoding::machinery::{
    child_rules, leader_declaration, maintenance, renaming_sort, slotted_ruleset, transitivity_rule,
};
use crate::slotted_encoding::model::{
    all_instrumented, initial_state, instrumented, rewritten_command, saturate_slotted, EncoderView,
    SlottedStateView,
};
use crate::slotted_encoding::program::{
    declares, encoded, handled, maintained, makes_leaf, slot_mask,
};
use crate::slotted_encoding::slots::{named_slots_differ, outer_slots_differ};

verus! {

// ---------------------------------------------------------------------------
// Programs in pieces
// ---------------------------------------------------------------------------
/// Only the first `n` commands matter for what they become.
proof fn encoded_prefix(
    enc: EncoderView,
    prog: Seq<NCommandView>,
    more: Seq<NCommandView>,
    n: nat,
)
    requires
        forall|i: int| 0 <= i < n ==> prog[i] == more[i],
    ensures
        encoded(enc, prog, n) == encoded(enc, more, n),
    decreases n,
{
    if n > 0 {
        encoded_prefix(enc, prog, more, (n - 1) as nat);
    }
}

/// Encoding a program in two pieces, with the same encoder, is encoding it at
/// once.
pub proof fn encoding_composes(enc: EncoderView, a: Seq<NCommandView>, b: Seq<NCommandView>)
    ensures
        encoded(enc, a + b, (a + b).len()).0 == encoded(enc, a, a.len()).0 + encoded(
            encoded(enc, a, a.len()).1,
            b,
            b.len(),
        ).0,
        encoded(enc, a + b, (a + b).len()).1 == encoded(
            encoded(enc, a, a.len()).1,
            b,
            b.len(),
        ).1,
{
    first_pieces_compose(enc, a, b, b.len());
}

/// The same, for the first `n` commands of the second piece.
proof fn first_pieces_compose(
    enc: EncoderView,
    a: Seq<NCommandView>,
    b: Seq<NCommandView>,
    n: nat,
)
    requires
        n <= b.len(),
    ensures
        encoded(enc, a + b, a.len() + n).0 == encoded(enc, a, a.len()).0 + encoded(
            encoded(enc, a, a.len()).1,
            b,
            n,
        ).0,
        encoded(enc, a + b, a.len() + n).1 == encoded(encoded(enc, a, a.len()).1, b, n).1,
    decreases n,
{
    let (front, mid) = encoded(enc, a, a.len());
    if n == 0 {
        encoded_prefix(enc, a, a + b, a.len());
        assert(front + Seq::<CommandView>::empty() =~= front);
    } else {
        let k = (n - 1) as nat;
        first_pieces_compose(enc, a, b, k);
        let (back, before) = encoded(mid, b, k);
        let (cmds, after) = maintained(before, b[n - 1]);
        assert((a + b)[a.len() + n - 1] == b[n - 1]);
        assert((front + back) + cmds =~= front + (back + cmds));
    }
}

// ---------------------------------------------------------------------------
// What the encoder remembers
// ---------------------------------------------------------------------------
/// What always holds of the encoder's memory.
pub open spec fn memory_fits(st: SlottedStateView) -> bool {
    leaves_fit(st) && named_slots_differ(st)
}

/// It holds at the start.
pub proof fn memory_fits_at_the_start()
    ensures
        memory_fits(initial_state()),
{
}

/// Rewriting a command only changes the recorded slots of names.
proof fn rewriting_only_records_names(enc: EncoderView, cmd: CommandView)
    ensures
        rewritten_command(enc, cmd).1.state == (SlottedStateView {
            let_outer_slots: rewritten_command(enc, cmd).1.state.let_outer_slots,
            ..enc.state
        }),
    decreases cmd,
{
    if let CommandView::Fail(_, inner) = cmd {
        rewriting_only_records_names(enc, *inner);
    }
}

/// Rewriting a command keeps the recorded slots of names different.
proof fn rewriting_keeps_memory(enc: EncoderView, cmd: CommandView)
    requires
        memory_fits(enc.state),
    ensures
        memory_fits(rewritten_command(enc, cmd).1.state),
    decreases cmd,
{
    let st = enc.state;
    match cmd {
        CommandView::Action(a) => {
            match a {
                crate::ast::ActionView::Let(_, v, e) => {
                    outer_slots_differ(st, e);
                },
                crate::ast::ActionView::Assign(_, head, args, val) => {
                    outer_slots_differ(st, val);
                },
                _ => {},
            }
        },
        CommandView::Fail(_, inner) => {
            rewriting_keeps_memory(enc, *inner);
        },
        _ => {},
    }
}

/// Whether a command declares a constructor again.
pub open spec fn redeclares(st: SlottedStateView, cmd: NCommandView) -> bool {
    cmd matches NCommandView::Function(decl) && st.rewritten_ctors.contains_key(decl.name)
}

/// Every command keeps what always holds of the encoder's memory, unless it
/// declares a constructor again.
pub proof fn every_command_keeps_memory(enc: EncoderView, cmd: NCommandView)
    requires
        memory_fits(enc.state),
        !redeclares(enc.state, cmd),
    ensures
        memory_fits(handled(enc, cmd).1.state),
{
    let st = enc.state;
    let after = handled(enc, cmd).1.state;
    match cmd {
        NCommandView::Sort { span, name, presort_and_args: None } => {},
        NCommandView::Function(decl) => {
            if decl.subtype is Constructor && st.u_sorts.contains(decl.schema.output) {
                let inputs = decl.schema.input;
                let mask = slot_mask(st.u_sorts, inputs);
                assert forall|c: Seq<char>| #[trigger] after.leaf_ctors.contains(c) implies
                    after.rewritten_ctors.contains_key(c) && after.rewritten_ctors[c]
                    == seq![false] by {
                    if c == decl.name && !st.leaf_ctors.contains(c) {
                        assert(!mask.contains(true) && makes_leaf(inputs));
                        assert(mask.len() == 1);
                        assert(!mask[0]) by {
                            if mask[0] {
                                assert(mask.contains(true));
                            }
                        }
                        assert(mask =~= seq![false]);
                    } else {
                        assert(st.leaf_ctors.contains(c));
                    }
                }
            }
        },
        _ => {
            rewriting_keeps_memory(enc, command_of(cmd));
        },
    }
}

/// The encoder never forgets a sort with slots, a rewritten constructor or that
/// the sort of renamings is declared.
pub proof fn memory_grows(enc: EncoderView, cmd: NCommandView)
    ensures
        enc.state.u_sorts.subset_of(handled(enc, cmd).1.state.u_sorts),
        enc.state.rewritten_ctors.dom().subset_of(handled(enc, cmd).1.state.rewritten_ctors.dom()),
        enc.state.leaf_ctors.subset_of(handled(enc, cmd).1.state.leaf_ctors),
        enc.state.renaming_sort_emitted ==> handled(enc, cmd).1.state.renaming_sort_emitted,
{
    match cmd {
        NCommandView::Sort { span, name, presort_and_args: None } => {},
        NCommandView::Function(decl) => {},
        _ => {
            rewriting_only_records_names(enc, command_of(cmd));
        },
    }
}

// ---------------------------------------------------------------------------
// The preamble and the maintenance
// ---------------------------------------------------------------------------
/// How often `c` is among the first `n` commands.
pub open spec fn times(cmds: Seq<CommandView>, c: CommandView, n: nat) -> nat
    decreases n,
{
    if n == 0 {
        0
    } else {
        times(cmds, c, (n - 1) as nat) + if cmds[n - 1] == c {
            1nat
        } else {
            0nat
        }
    }
}

/// Only the first `n` commands are counted.
proof fn times_prefix(cmds: Seq<CommandView>, more: Seq<CommandView>, c: CommandView, n: nat)
    requires
        forall|i: int| 0 <= i < n ==> cmds[i] == more[i],
    ensures
        times(cmds, c, n) == times(more, c, n),
    decreases n,
{
    if n > 0 {
        times_prefix(cmds, more, c, (n - 1) as nat);
    }
}

/// Counts add up.
proof fn times_add(a: Seq<CommandView>, b: Seq<CommandView>, c: CommandView, n: nat)
    requires
        n <= b.len(),
    ensures
        times(a + b, c, a.len() + n) == times(a, c, a.len()) + times(b, c, n),
    decreases n,
{
    if n == 0 {
        times_prefix(a, a + b, c, a.len());
    } else {
        times_add(a, b, c, (n - 1) as nat);
        assert((a + b)[a.len() + n - 1] == b[n - 1]);
    }
}

/// What is not there is counted zero times.
proof fn times_of_absent(cmds: Seq<CommandView>, c: CommandView, n: nat)
    requires
        forall|i: int| 0 <= i < n ==> (#[trigger] cmds[i]) != c,
    ensures
        times(cmds, c, n) == 0,
    decreases n,
{
    if n > 0 {
        times_of_absent(cmds, c, (n - 1) as nat);
    }
}

/// Whether a command is one of the two that every program with slots gets once:
/// the declaration of `Renaming` or that of the `slotted` ruleset.
pub open spec fn is_program_preamble(c: CommandView) -> bool {
    c == renaming_sort() || c == slotted_ruleset()
}

/// Rewriting a command that is not part of the preamble does not make it that.
proof fn rewriting_makes_no_preamble(enc: EncoderView, cmd: CommandView, c: CommandView)
    requires
        is_program_preamble(c),
        cmd != c,
    ensures
        rewritten_command(enc, cmd).0 != c,
{
}

/// The rules for children are rules.
proof fn child_rules_are_rules(name: Seq<char>, output: Seq<char>, mask: Seq<bool>, n: nat)
    ensures
        forall|i: int|
            0 <= i < child_rules(name, output, mask, n).len() ==> (#[trigger] child_rules(
                name,
                output,
                mask,
                n,
            )[i]) is Rule,
    decreases n,
{
    if n > 0 {
        child_rules_are_rules(name, output, mask, (n - 1) as nat);
    }
}

/// Whether a command is the first to declare a sort with slots.
pub open spec fn starts_slots(enc: EncoderView, cmd: NCommandView) -> bool {
    !enc.state.renaming_sort_emitted && (cmd matches NCommandView::Sort {
        presort_and_args: None,
        ..
    })
}

/// A command brings each declaration of the preamble once when it is the first
/// to declare a sort with slots, and not at all otherwise.
pub proof fn preamble_comes_with_the_first_sort(
    enc: EncoderView,
    cmd: NCommandView,
    c: CommandView,
)
    requires
        is_program_preamble(c),
        command_of(cmd) != c,
    ensures
        times(maintained(enc, cmd).0, c, maintained(enc, cmd).0.len()) == if starts_slots(
            enc,
            cmd,
        ) {
            1nat
        } else {
            0nat
        },
{
    let st = enc.state;
    let (cmds, after) = handled(enc, cmd);
    let all = maintained(enc, cmd).0;
    match cmd {
        NCommandView::Sort { span, name, presort_and_args: None } => {
            let own = seq![command_of(cmd)];
            let per_sort = seq![leader_declaration(name), transitivity_rule(name)];
            times_of_absent(own, c, 1);
            times_of_absent(per_sort, c, 2);
            if st.renaming_sort_emitted {
                assert(cmds =~= own + per_sort);
                times_add(own, per_sort, c, 2);
            } else {
                let once = seq![renaming_sort(), slotted_ruleset()];
                assert(times(once, c, 0) == 0);
                assert(once[0] != once[1]);
                assert(times(once, c, 1) == if c == once[0] {
                    1nat
                } else {
                    0nat
                });
                assert(times(once, c, 2) == 1);
                assert(cmds =~= (own + once) + per_sort);
                times_add(own, once, c, 2);
                times_add(own + once, per_sort, c, 2);
            }
            assert(all == cmds);
        },
        NCommandView::Function(decl) => {
            let mask = slot_mask(st.u_sorts, decl.schema.input);
            child_rules_are_rules(decl.name, decl.schema.output, mask, mask.len());
            assert forall|i: int| 0 <= i < all.len() implies (#[trigger] all[i]) != c by {
                if decl.subtype is Constructor && st.u_sorts.contains(decl.schema.output)
                    && mask.contains(true) {
                    if i >= 3 {
                        assert(all[i] == child_rules(
                            decl.name,
                            decl.schema.output,
                            mask,
                            mask.len(),
                        )[i - 3]);
                    }
                }
            }
            times_of_absent(all, c, all.len());
        },
        _ => {
            rewriting_makes_no_preamble(enc, command_of(cmd), c);
            times_of_absent(all, c, all.len());
        },
    }
}

/// However many sorts with slots a program declares, and in however many pieces
/// it is encoded, `Renaming` and the `slotted` ruleset are declared once with the
/// first of them, and not at all if there was one before. The user's program is
/// taken not to declare them itself.
pub proof fn preamble_is_declared_once(enc: EncoderView, prog: Seq<NCommandView>, n: nat)
    requires
        n <= prog.len(),
        forall|i: int|
            0 <= i < prog.len() ==> !is_program_preamble(command_of(#[trigger] prog[i])),
    ensures
        enc.state.renaming_sort_emitted ==> encoded(enc, prog, n).1.state.renaming_sort_emitted,
        ({
            let expected = if !enc.state.renaming_sort_emitted && encoded(
                enc,
                prog,
                n,
            ).1.state.renaming_sort_emitted {
                1nat
            } else {
                0nat
            };
            let out = encoded(enc, prog, n).0;
            &&& times(out, renaming_sort(), out.len()) == expected
            &&& times(out, slotted_ruleset(), out.len()) == expected
        }),
    decreases n,
{
    if n > 0 {
        let k = (n - 1) as nat;
        let cmd = prog[n - 1];
        preamble_is_declared_once(enc, prog, k);
        let (front, before) = encoded(enc, prog, k);
        let (cmds, after) = maintained(before, cmd);
        assert(!is_program_preamble(command_of(prog[k as int])));
        memory_grows(before, cmd);
        emitted_by_sorts_only(before, cmd);
        preamble_comes_with_the_first_sort(before, cmd, renaming_sort());
        preamble_comes_with_the_first_sort(before, cmd, slotted_ruleset());
        times_add(front, cmds, renaming_sort(), cmds.len());
        times_add(front, cmds, slotted_ruleset(), cmds.len());
    }
}

/// Encoded in two pieces with the same encoder, a program gets `Renaming` and
/// the `slotted` ruleset at most once overall.
pub proof fn preamble_is_declared_once_in_pieces(
    enc: EncoderView,
    a: Seq<NCommandView>,
    b: Seq<NCommandView>,
)
    requires
        forall|i: int| 0 <= i < a.len() ==> !is_program_preamble(command_of(#[trigger] a[i])),
        forall|i: int| 0 <= i < b.len() ==> !is_program_preamble(command_of(#[trigger] b[i])),
    ensures
        ({
            let (front, mid) = encoded(enc, a, a.len());
            let out = front + encoded(mid, b, b.len()).0;
            &&& times(out, renaming_sort(), out.len()) <= 1
            &&& times(out, slotted_ruleset(), out.len()) <= 1
        }),
{
    let both = a + b;
    assert forall|i: int| 0 <= i < both.len() implies !is_program_preamble(
        command_of(#[trigger] both[i]),
    ) by {
        if i < a.len() {
            assert(both[i] == a[i]);
        } else {
            assert(both[i] == b[i - a.len()]);
        }
    }
    encoding_composes(enc, a, b);
    preamble_is_declared_once(enc, both, both.len());
}

/// Only the declaration of a sort with slots declares `Renaming`.
proof fn emitted_by_sorts_only(enc: EncoderView, cmd: NCommandView)
    ensures
        starts_slots(enc, cmd) ==> handled(enc, cmd).1.state.renaming_sort_emitted,
        !starts_slots(enc, cmd) ==> handled(enc, cmd).1.state.renaming_sort_emitted
            == enc.state.renaming_sort_emitted,
{
    match cmd {
        NCommandView::Sort { span, name, presort_and_args: None } => {},
        NCommandView::Function(decl) => {},
        _ => {
            rewriting_only_records_names(enc, command_of(cmd));
        },
    }
}

/// Once a sort with slots is declared, every command that may bring new data is
/// followed by the saturation of the slotted rules; declarations are not.
pub proof fn maintenance_follows_data(enc: EncoderView, cmd: NCommandView)
    requires
        enc.state.renaming_sort_emitted,
    ensures
        !declares(cmd) ==> maintained(enc, cmd).0 == handled(enc, cmd).0.push(maintenance()),
        declares(cmd) ==> maintained(enc, cmd).0 == handled(enc, cmd).0,
{
    memory_grows(enc, cmd);
}

/// As long as no sort with slots is declared, no command is followed by the
/// saturation of the slotted rules.
pub proof fn no_maintenance_without_slots(enc: EncoderView, cmd: NCommandView)
    requires
        !enc.state.renaming_sort_emitted,
        !starts_slots(enc, cmd),
    ensures
        maintained(enc, cmd).0 == handled(enc, cmd).0,
{
    emitted_by_sorts_only(enc, cmd);
}

// ---------------------------------------------------------------------------
// Schedules
// ---------------------------------------------------------------------------
/// Whether a schedule is the saturation of the slotted rules.
pub open spec fn saturates_slotted(s: ScheduleView) -> bool {
    s matches ScheduleView::Saturate(_, inner) && (*inner matches ScheduleView::Run(_, config)
        && config.ruleset == "slotted"@ && config.until is None)
}

/// Whether a schedule is a run step with the saturation of the slotted rules behind
/// it.
pub open spec fn is_saturated_run(s: ScheduleView) -> bool {
    s matches ScheduleView::Sequence(_, items) && items.len() == 2 && items[0] is Run
        && saturates_slotted(items[1])
}

/// How many run steps a schedule has, at any depth.
pub open spec fn run_steps(s: ScheduleView) -> nat
    decreases s, 0nat,
{
    match s {
        ScheduleView::Run(_, _) => 1,
        ScheduleView::Saturate(_, inner) => run_steps(*inner),
        ScheduleView::Repeat(_, _, inner) => run_steps(*inner),
        ScheduleView::Sequence(_, items) => first_run_steps(items, items.len()),
    }
}

/// How many run steps the first `n` schedules have.
pub open spec fn first_run_steps(items: Seq<ScheduleView>, n: nat) -> nat
    decreases items, n,
{
    if n == 0 || n > items.len() {
        0
    } else {
        first_run_steps(items, (n - 1) as nat) + run_steps(items[n - 1])
    }
}

/// Whether every run step of a schedule, at any depth, has the saturation of the
/// slotted rules directly behind it.
pub open spec fn every_run_is_saturated(s: ScheduleView) -> bool
    decreases s, 0nat,
{
    match s {
        ScheduleView::Run(_, _) => false,
        ScheduleView::Saturate(_, inner) => every_run_is_saturated(*inner),
        ScheduleView::Repeat(_, _, inner) => every_run_is_saturated(*inner),
        ScheduleView::Sequence(_, items) => is_saturated_run(s) || first_are_saturated(
            items,
            items.len(),
        ),
    }
}

/// Whether that holds of the first `n` schedules.
pub open spec fn first_are_saturated(items: Seq<ScheduleView>, n: nat) -> bool
    decreases items, n,
{
    if n == 0 || n > items.len() {
        true
    } else {
        first_are_saturated(items, (n - 1) as nat) && every_run_is_saturated(items[n - 1])
    }
}

/// In an instrumented schedule every run step of the user's schedule, wherever it
/// stands, is followed by the saturation of the slotted rules, and one such
/// saturation is added for each.
pub proof fn every_run_step_gets_its_saturation(s: ScheduleView)
    ensures
        every_run_is_saturated(instrumented(s)),
        run_steps(instrumented(s)) == 2 * run_steps(s),
    decreases s, 0nat,
{
    match s {
        ScheduleView::Run(span, config) => {
            let items = instrumented(s)->Sequence_1;
            assert(items =~= seq![s, saturate_slotted(span)]);
            assert(first_run_steps(items, 0) == 0);
            assert(run_steps(items[0]) == 1);
            assert(first_run_steps(items, 1) == first_run_steps(items, 0) + run_steps(items[0]));
            assert(run_steps(items[1]) == 1) by {
                assert(run_steps(*items[1]->Saturate_1) == 1);
            }
            assert(first_run_steps(items, 2) == 2);
        },
        ScheduleView::Saturate(_, inner) => {
            every_run_step_gets_its_saturation(*inner);
        },
        ScheduleView::Repeat(_, _, inner) => {
            every_run_step_gets_its_saturation(*inner);
        },
        ScheduleView::Sequence(_, items) => {
            first_runs_get_their_saturation(items, items.len());
        },
    }
}

/// The same, for the first `n` schedules of a list.
proof fn first_runs_get_their_saturation(items: Seq<ScheduleView>, n: nat)
    requires
        n <= items.len(),
    ensures
        first_are_saturated(all_instrumented(items), n),
        first_run_steps(all_instrumented(items), n) == 2 * first_run_steps(items, n),
    decreases items, n,
{
    if n > 0 {
        first_runs_get_their_saturation(items, (n - 1) as nat);
        every_run_step_gets_its_saturation(items[n - 1]);
    }
}

/// A schedule without the saturation behind its run steps.
pub open spec fn plain_schedule(s: ScheduleView) -> ScheduleView
    decreases s,
{
    match s {
        ScheduleView::Run(span, config) => s,
        ScheduleView::Saturate(span, inner) => ScheduleView::Saturate(
            span,
            Box::new(plain_schedule(*inner)),
        ),
        ScheduleView::Repeat(span, n, inner) => ScheduleView::Repeat(
            span,
            n,
            Box::new(plain_schedule(*inner)),
        ),
        ScheduleView::Sequence(span, items) => if is_saturated_run(s) {
            items[0]
        } else {
            ScheduleView::Sequence(
                span,
                Seq::new(
                    items.len(),
                    |i: int|
                        if 0 <= i < items.len() {
                            plain_schedule(items[i])
                        } else {
                            arbitrary()
                        },
                ),
            )
        },
    }
}

/// Instrumenting a schedule only adds the saturation behind its run steps.
pub proof fn instrumenting_only_adds_saturation(s: ScheduleView)
    ensures
        instrumented(s) !is Run,
        plain_schedule(instrumented(s)) == s,
    decreases s,
{
    match s {
        ScheduleView::Run(span, config) => {},
        ScheduleView::Saturate(span, inner) => {
            instrumenting_only_adds_saturation(*inner);
        },
        ScheduleView::Repeat(span, n, inner) => {
            instrumenting_only_adds_saturation(*inner);
        },
        ScheduleView::Sequence(span, items) => {
            let all = all_instrumented(items);
            assert forall|i: int| 0 <= i < items.len() implies (#[trigger] all[i]) !is Run
                && plain_schedule(all[i]) == items[i] by {
                instrumenting_only_adds_saturation(items[i]);
            }
            let back = plain_schedule(instrumented(s));
            assert(instrumented(s) == ScheduleView::Sequence(span, all));
            if all.len() == 2 {
                assert(all[0] !is Run);
            }
            assert(back->Sequence_1 =~= items);
        },
    }
}

} // verus!
