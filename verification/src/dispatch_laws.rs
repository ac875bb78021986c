//! The dispatcher's stated behaviours, proved once and for all over the
//! abstract model that the executable operations are verified to implement.

use vstd::prelude::*;

use crate::dispatch_spec::{
    lemma_reconcile_live, lemma_swap_remove_id, spec_add_handler, spec_dispatch_result,
    spec_remove_handler, DispatcherView,
};
use crate::event_handler::EventHandlerId;

verus! {

/// The state after a run of `add_handler` calls, one per identity, in order.
pub open spec fn spec_register_all(v: DispatcherView, ids: Seq<EventHandlerId>) -> DispatcherView
    decreases ids.len(),
{
    if ids.len() == 0 {
        v
    } else {
        spec_register_all(spec_add_handler(v, ids[0]), ids.drop_first())
    }
}

/// With the primary lock free, a run of registrations appends exactly those
/// identities to the live list, in registration order, and touches nothing
/// else.
proof fn lemma_register_all_unlocked(v: DispatcherView, ids: Seq<EventHandlerId>)
    requires
        !v.locked,
    ensures
        ({
            let r = spec_register_all(v, ids);
            &&& r.live == v.live + ids
            &&& r.pending_add == v.pending_add
            &&& r.pending_remove == v.pending_remove
            &&& r.locked == v.locked
            &&& r.trace == v.trace
        }),
    decreases ids.len(),
{
    if ids.len() == 0 {
        assert(v.live + ids =~= v.live);
    } else {
        let v1 = spec_add_handler(v, ids[0]);
        lemma_register_all_unlocked(v1, ids.drop_first());
        assert(v.live.push(ids[0]) + ids.drop_first() =~= v.live + ids);
    }
}

/// Uncontended delivery: registrations with distinct identities on a fresh
/// dispatcher leave the live list exactly in registration order; one
/// uncontended dispatch then invokes each of those handlers exactly once,
/// in that order — its trace extension is exactly the live list — and,
/// when no callback defers a request, the live list is unchanged by it.
pub proof fn lemma_uncontended_delivery(ids: Seq<EventHandlerId>)
    requires
        ids.no_duplicates(),
    ensures
        ({
            let v = spec_register_all(DispatcherView::empty(), ids);
            let after = spec_dispatch_result(v, Seq::empty(), Seq::empty());
            &&& v.live == ids
            &&& !v.locked
            &&& v.wf()
            &&& after.trace == v.trace + ids
            &&& after.live == ids
        }),
{
    lemma_register_all_unlocked(DispatcherView::empty(), ids);
    let v = spec_register_all(DispatcherView::empty(), ids);
    assert(v.live =~= ids);
    let after = spec_dispatch_result(v, Seq::empty(), Seq::empty());
    assert(after.live =~= ids);
}

/// Idempotent unregister: removing an identity that is not live is a no-op,
/// removing the same identity twice equals removing it once, and in every
/// case each other identity keeps its membership in the live list.
pub proof fn lemma_idempotent_unregister(v: DispatcherView, id: EventHandlerId)
    requires
        v.wf(),
        !v.locked,
    ensures
        !v.live.contains(id) ==> spec_remove_handler(v, id) == v,
        spec_remove_handler(spec_remove_handler(v, id), id) == spec_remove_handler(v, id),
        spec_remove_handler(v, id).wf(),
        forall|x: EventHandlerId|
            x != id ==> (#[trigger] spec_remove_handler(v, id).live.contains(x)
                <==> v.live.contains(x)),
{
    lemma_swap_remove_id(v.live, id);
    if !v.live.contains(id) {
        assert(spec_remove_handler(v, id) =~= v);
    }
    let v1 = spec_remove_handler(v, id);
    lemma_swap_remove_id(v1.live, id);
    assert(spec_remove_handler(v1, id) =~= v1);
}

/// Reentrant add during dispatch: an identity registered from inside a
/// callback is deferred, so it is not among the handlers the running
/// dispatch invokes — those are exactly the live list at acquisition,
/// which the trace extension records — but it is live after
/// reconciliation (no deferred removal names it here), so the next
/// dispatch invokes it.
pub proof fn lemma_reentrant_add(
    v: DispatcherView,
    rems: Seq<EventHandlerId>,
    adds: Seq<EventHandlerId>,
    x: EventHandlerId,
)
    requires
        v.wf(),
        !v.locked,
        adds.no_duplicates(),
        forall|y: EventHandlerId| #[trigger] adds.contains(y) ==> !v.live.contains(y),
        adds.contains(x),
        !rems.contains(x),
    ensures
        ({
            let after = spec_dispatch_result(v, rems, adds);
            let next = spec_dispatch_result(after, Seq::empty(), Seq::empty());
            &&& after.trace == v.trace + v.live
            &&& !v.live.contains(x)
            &&& after.live.contains(x)
            &&& next.trace == after.trace + after.live
            &&& next.trace.contains(x)
        }),
{
    lemma_reconcile_live(v.live, rems, adds);
    let after = spec_dispatch_result(v, rems, adds);
    let next = spec_dispatch_result(after, Seq::empty(), Seq::empty());
    assert(crate::dispatch_spec::reconcile_live(v.live, rems, adds).contains(x));
    assert(after.live.contains(x));
    let k = choose|k: int| 0 <= k < after.live.len() && after.live[k] == x;
    assert(next.trace[after.trace.len() + k] == x);
}

/// Reentrant remove during dispatch: a live handler whose removal is
/// requested from inside a callback still completes the running dispatch —
/// the trace extension is the whole live list at acquisition, its own
/// invocation included — and its identity is absent from the live list
/// afterwards, hence from every subsequent dispatch.
pub proof fn lemma_reentrant_remove(
    v: DispatcherView,
    rems: Seq<EventHandlerId>,
    adds: Seq<EventHandlerId>,
    x: EventHandlerId,
)
    requires
        v.wf(),
        !v.locked,
        adds.no_duplicates(),
        forall|y: EventHandlerId| #[trigger] adds.contains(y) ==> !v.live.contains(y),
        v.live.contains(x),
        rems.contains(x),
    ensures
        ({
            let after = spec_dispatch_result(v, rems, adds);
            &&& after.trace == v.trace + v.live
            &&& after.trace.contains(x)
            &&& !after.live.contains(x)
        }),
{
    lemma_reconcile_live(v.live, rems, adds);
    let after = spec_dispatch_result(v, rems, adds);
    let k = choose|k: int| 0 <= k < v.live.len() && v.live[k] == x;
    assert(after.trace[v.trace.len() + k] == x);
}

/// Add-then-remove in one cycle: an identity both deferred for addition and
/// deferred for removal within the same dispatch is absent once that
/// dispatch reconciles.
pub proof fn lemma_add_then_remove_same_cycle(
    v: DispatcherView,
    rems: Seq<EventHandlerId>,
    adds: Seq<EventHandlerId>,
    x: EventHandlerId,
)
    requires
        v.wf(),
        !v.locked,
        adds.no_duplicates(),
        forall|y: EventHandlerId| #[trigger] adds.contains(y) ==> !v.live.contains(y),
        adds.contains(x),
        rems.contains(x),
    ensures
        !spec_dispatch_result(v, rems, adds).live.contains(x),
{
    lemma_reconcile_live(v.live, rems, adds);
}

} // verus!
