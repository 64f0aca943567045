//! The outer slots of terms.

use vstd::prelude::*;

use crate::ast::{ExprView, LiteralView, Span};
use crate::slotted_encoding::model::{
    add_slots, expr_with_slots, exprs_with_slots, outer_slots, shorter, SlottedStateView,
};

use crate::sort::numbering::distinct;

verus! {

/// Adding slots keeps those that are there, adds the others once, and nothing
/// else.
proof fn added_slots(slots: Seq<i64>, more: Seq<i64>, n: nat)
    requires
        n <= more.len(),
    ensures
        slots.no_duplicates() ==> add_slots(slots, more, n).no_duplicates(),
        forall|s: i64| #[trigger]
            add_slots(slots, more, n).contains(s) <==> slots.contains(s) || more.take(
                n as int,
            ).contains(s),
    decreases n,
{
    if n == 0 {
        assert(more.take(0) =~= Seq::empty());
    } else {
        let k = (n - 1) as nat;
        added_slots(slots, more, k);
        let front = add_slots(slots, more, k);
        let x = more[n - 1];
        assert(more.take(n as int) =~= more.take(k as int).push(x));
        assert forall|s: i64| #[trigger] add_slots(slots, more, n).contains(s) <==> slots.contains(
            s,
        ) || more.take(n as int).contains(s) by {
            assert(front.contains(s) <==> slots.contains(s) || more.take(k as int).contains(s));
            assert(more.take(n as int).contains(s) == (more.take(k as int).contains(s) || s == x))
                by {
                if more.take(k as int).contains(s) {
                    let i = more.take(k as int).index_of(s);
                    assert(more.take(n as int)[i] == s);
                }
                assert(more.take(n as int)[k as int] == x);
            }
            if !front.contains(x) {
                assert(front.push(x)[front.len() as int] == x);
                if front.contains(s) {
                    let i = front.index_of(s);
                    assert(front.push(x)[i] == s);
                }
            }
        }
    }
}

/// Whether one of the first `n` children that carry slots has the slot `s`.
pub open spec fn child_has_slot(
    results: Seq<(ExprView, Seq<i64>)>,
    mask: Seq<bool>,
    n: nat,
    s: i64,
) -> bool {
    exists|i: int| 0 <= i < n && mask[i] && (#[trigger] results[i]).1.contains(s)
}

/// The outer slots of a compound are the slots of its children that carry
/// slots, each once.
pub proof fn outer_slots_are_the_childrens(
    results: Seq<(ExprView, Seq<i64>)>,
    mask: Seq<bool>,
    n: nat,
)
    ensures
        outer_slots(results, mask, n).no_duplicates(),
        forall|s: i64| #[trigger]
            outer_slots(results, mask, n).contains(s) <==> child_has_slot(results, mask, n, s),
    decreases n,
{
    if n > 0 {
        let k = (n - 1) as nat;
        outer_slots_are_the_childrens(results, mask, k);
        let front = outer_slots(results, mask, k);
        let last = results[n - 1].1;
        added_slots(front, last, last.len());
        assert(last.take(last.len() as int) =~= last);
        assert forall|s: i64| #[trigger] outer_slots(results, mask, n).contains(s)
            <==> child_has_slot(results, mask, n, s) by {
            assert(front.contains(s) <==> child_has_slot(results, mask, k, s));
            if child_has_slot(results, mask, k, s) {
                let i = choose|i: int|
                    0 <= i < k && mask[i] && (#[trigger] results[i]).1.contains(s);
                assert(results[i].1.contains(s));
            }
            if mask[n - 1] && last.contains(s) {
                assert(results[n - 1].1.contains(s));
            }
        }
    }
}

/// The slots of the first `n` children that carry slots, one child after the other.
pub open spec fn slots_met(
    results: Seq<(ExprView, Seq<i64>)>,
    mask: Seq<bool>,
    n: nat,
) -> Seq<i64>
    decreases n,
{
    if n == 0 {
        Seq::empty()
    } else {
        slots_met(results, mask, (n - 1) as nat) + if mask[n - 1] {
            results[n - 1].1
        } else {
            Seq::empty()
        }
    }
}

/// Adding slots goes on with the different slots of a longer list.
proof fn added_slots_are_distinct(met: Seq<i64>, more: Seq<i64>, n: nat)
    requires
        n <= more.len(),
    ensures
        add_slots(distinct(met), more, n) == distinct(met + more.take(n as int)),
    decreases n,
{
    if n == 0 {
        assert(met + more.take(0) =~= met);
    } else {
        added_slots_are_distinct(met, more, (n - 1) as nat);
        let all = met + more.take(n as int);
        assert(all.drop_last() =~= met + more.take(n - 1));
        assert(all.last() == more[n - 1]);
    }
}

/// The outer slots of a compound come in the order in which they are first met,
/// from child to child.
pub proof fn outer_slots_come_as_met(
    results: Seq<(ExprView, Seq<i64>)>,
    mask: Seq<bool>,
    n: nat,
)
    ensures
        outer_slots(results, mask, n) == distinct(slots_met(results, mask, n)),
    decreases n,
{
    if n == 0 {
        assert(slots_met(results, mask, 0) =~= Seq::empty());
    } else {
        let met = slots_met(results, mask, (n - 1) as nat);
        outer_slots_come_as_met(results, mask, (n - 1) as nat);
        if mask[n - 1] {
            let more = results[n - 1].1;
            added_slots_are_distinct(met, more, more.len());
            assert(more.take(more.len() as int) =~= more);
        } else {
            assert(slots_met(results, mask, n) =~= met);
        }
    }
}

/// A leaf over an integer has that integer as its only slot, and stays.
pub proof fn leaves_have_the_slot_of_their_integer(
    st: SlottedStateView,
    span: Span,
    head: Seq<char>,
    args: Seq<ExprView>,
    n: i64,
)
    requires
        st.leaf_ctors.contains(head),
        args.len() > 0,
        args[0] matches ExprView::Lit(_, LiteralView::Int(m)) && m == n,
    ensures
        expr_with_slots(st, ExprView::Call(span, head, args)) == (
            ExprView::Call(span, head, args),
            seq![n],
        ),
{
}

/// Whether the recorded slots of every name are different.
pub open spec fn named_slots_differ(st: SlottedStateView) -> bool {
    forall|name: Seq<char>| #[trigger]
        st.let_outer_slots.contains_key(name) ==> st.let_outer_slots[name].no_duplicates()
}

/// The outer slots of a term are different.
pub proof fn outer_slots_differ(st: SlottedStateView, e: ExprView)
    requires
        named_slots_differ(st),
    ensures
        expr_with_slots(st, e).1.no_duplicates(),
{
    if let ExprView::Call(span, head, args) = e {
        if st.rewritten_ctors.contains_key(head) {
            let mask = st.rewritten_ctors[head];
            let results = exprs_with_slots(st, args);
            outer_slots_are_the_childrens(results, mask, shorter(results.len(), mask.len()));
        }
    }
}

} // verus!
