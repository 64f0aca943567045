//! What the slotted encoding makes of declarations and of whole programs.

use vstd::prelude::*;

use crate::ast::{command_of, CommandView, NCommandView};
use crate::slotted_encoding::machinery::{
    compound_machinery, leader_declaration, leaf_pair_rule, maintenance, renaming_sort,
    slotted_ruleset, transitivity_rule,
};
use crate::slotted_encoding::model::{
    rewritten_command, rewritten_command_count_grows, EncoderView, SlottedStateView,
};

verus! {

/// Which argument sorts carry slots.
pub open spec fn slot_mask(u_sorts: Set<Seq<char>>, inputs: Seq<Seq<char>>) -> Seq<bool> {
    inputs.map_values(|t: Seq<char>| u_sorts.contains(t))
}

/// Whether a constructor makes a leaf out of one slot number.
pub open spec fn makes_leaf(inputs: Seq<Seq<char>>) -> bool {
    inputs.len() == 1 && inputs[0] == "i64"@
}

/// What is added behind the declaration of a sort with slots.
pub open spec fn sort_preamble(st: SlottedStateView, sort: Seq<char>) -> Seq<CommandView> {
    let once = if st.renaming_sort_emitted {
        Seq::empty()
    } else {
        seq![renaming_sort(), slotted_ruleset()]
    };
    once + seq![leader_declaration(sort), transitivity_rule(sort)]
}

/// What a command becomes, and the encoder after it.
pub open spec fn handled(enc: EncoderView, cmd: NCommandView) -> (Seq<CommandView>, EncoderView) {
    let st = enc.state;
    match cmd {
        NCommandView::Sort { span, name, presort_and_args: None } => (
            seq![command_of(cmd)] + sort_preamble(st, name),
            EncoderView {
                state: SlottedStateView {
                    u_sorts: st.u_sorts.insert(name),
                    renaming_sort_emitted: true,
                    ..st
                },
                ..enc
            },
        ),
        NCommandView::Function(decl) => if decl.subtype is Constructor && st.u_sorts.contains(
            decl.schema.output,
        ) {
            let inputs = decl.schema.input;
            let mask = slot_mask(st.u_sorts, inputs);
            let declared = SlottedStateView {
                rewritten_ctors: st.rewritten_ctors.insert(decl.name, mask),
                ..st
            };
            if mask.contains(true) {
                (
                    compound_machinery(decl.name, inputs, decl.schema.output, mask),
                    EncoderView { state: declared, ..enc },
                )
            } else if makes_leaf(inputs) {
                (
                    seq![command_of(cmd), leaf_pair_rule(decl.name, decl.schema.output)],
                    EncoderView {
                        state: SlottedStateView {
                            leaf_ctors: st.leaf_ctors.insert(decl.name),
                            ..declared
                        },
                        ..enc
                    },
                )
            } else {
                (seq![command_of(cmd)], EncoderView { state: declared, ..enc })
            }
        } else {
            (seq![command_of(cmd)], enc)
        },
        _ => {
            let (rewritten, after) = rewritten_command(enc, command_of(cmd));
            (seq![rewritten], after)
        },
    }
}

/// Whether a command only declares something, so that it gives the slotted
/// rules nothing new to match.
pub open spec fn declares(cmd: NCommandView) -> bool {
    match cmd {
        NCommandView::Function(_) => true,
        NCommandView::NormRule { .. } => true,
        NCommandView::Sort { .. } => true,
        NCommandView::AddRuleset(..) => true,
        NCommandView::UnstableCombinedRuleset(..) => true,
        _ => false,
    }
}

/// What a command becomes together with the maintenance behind it, and the
/// encoder after it.
pub open spec fn maintained(enc: EncoderView, cmd: NCommandView) -> (
    Seq<CommandView>,
    EncoderView,
) {
    let (cmds, after) = handled(enc, cmd);
    if !declares(cmd) && after.state.renaming_sort_emitted {
        (cmds.push(maintenance()), after)
    } else {
        (cmds, after)
    }
}

/// What the first `n` commands of a program become, and the encoder after
/// them.
pub open spec fn encoded(enc: EncoderView, prog: Seq<NCommandView>, n: nat) -> (
    Seq<CommandView>,
    EncoderView,
)
    decreases n,
{
    if n == 0 {
        (Seq::empty(), enc)
    } else {
        let (front, before) = encoded(enc, prog, (n - 1) as nat);
        let (cmds, after) = maintained(before, prog[n - 1]);
        (front + cmds, after)
    }
}

/// A command never turns the running number of fresh names back.
pub proof fn handled_count_grows(enc: EncoderView, cmd: NCommandView)
    ensures
        handled(enc, cmd).1.count >= enc.count,
{
    rewritten_command_count_grows(enc, command_of(cmd));
}

/// More commands never turn the running number of fresh names back.
pub proof fn encoded_count_grows(enc: EncoderView, prog: Seq<NCommandView>, m: nat, n: nat)
    requires
        m <= n,
    ensures
        enc.count <= encoded(enc, prog, m).1.count <= encoded(enc, prog, n).1.count,
    decreases n,
{
    if n > 0 {
        let k = (n - 1) as nat;
        if m < n {
            encoded_count_grows(enc, prog, m, k);
        } else {
            encoded_count_grows(enc, prog, k, k);
        }
        handled_count_grows(encoded(enc, prog, k).1, prog[n - 1]);
    }
}

} // verus!
