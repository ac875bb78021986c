//! The mathematical model of the dispatcher: an abstract state made of the
//! live handler list, the two deferral queues, the lock flag and the
//! invocation trace, together with the transition functions that the
//! executable operations are proved to implement.

use vstd::prelude::*;

use crate::event_handler::EventHandlerId;

verus! {

/// Abstract state of one dispatcher.
///
/// `live` holds the identities of the handlers eligible for the next
/// dispatch, in list order. `pending_add` and `pending_remove` hold the
/// registrations and removals deferred while a dispatch holds the primary
/// lock. `locked` says whether that lock is held. `trace` records, oldest
/// first, the identity of every handler invocation the dispatcher has ever
/// performed: each dispatch extends it by the live list it iterated.
#[verifier::ext_equal]
pub ghost struct DispatcherView {
    pub live: Seq<EventHandlerId>,
    pub pending_add: Seq<EventHandlerId>,
    pub pending_remove: Seq<EventHandlerId>,
    pub locked: bool,
    pub trace: Seq<EventHandlerId>,
}

impl DispatcherView {
    /// The state of a freshly constructed dispatcher.
    pub open spec fn empty() -> DispatcherView {
        DispatcherView {
            live: Seq::empty(),
            pending_add: Seq::empty(),
            pending_remove: Seq::empty(),
            locked: false,
            trace: Seq::empty(),
        }
    }

    /// Well-formedness: handler identities are unique among the currently
    /// registered handlers (live list and pending-add queue together), and
    /// the deferral queues are empty whenever the primary lock is free —
    /// deferred requests exist only while a dispatch is running.
    pub open spec fn wf(self) -> bool {
        &&& self.live.no_duplicates()
        &&& self.pending_add.no_duplicates()
        &&& (forall|id: EventHandlerId|
            #[trigger] self.pending_add.contains(id) ==> !self.live.contains(id))
        &&& (!self.locked ==> self.pending_add.len() == 0 && self.pending_remove.len() == 0)
    }
}

/// The state after `add_handler(id)`: appended to the live list when the
/// primary lock is free, deferred to the pending-add queue when it is held.
pub open spec fn spec_add_handler(v: DispatcherView, id: EventHandlerId) -> DispatcherView {
    if !v.locked {
        DispatcherView { live: v.live.push(id), ..v }
    } else {
        DispatcherView { pending_add: v.pending_add.push(id), ..v }
    }
}

/// The state after `remove_handler(id)`: a swap-removal from the live list
/// when the primary lock is free (a no-op if the identity is absent),
/// deferred to the pending-remove queue when it is held.
pub open spec fn spec_remove_handler(v: DispatcherView, id: EventHandlerId) -> DispatcherView {
    if !v.locked {
        DispatcherView { live: swap_remove_id(v.live, id), ..v }
    } else {
        DispatcherView { pending_remove: v.pending_remove.push(id), ..v }
    }
}

/// Swap-removal of the first occurrence of `id`: the last element moves into
/// the vacated slot, so list order is not preserved. Identity when `id` is
/// absent.
pub open spec fn swap_remove_id(s: Seq<EventHandlerId>, id: EventHandlerId) -> Seq<
    EventHandlerId,
> {
    match s.index_of_first(id) {
        Some(i) => s.update(i, s.last()).drop_last(),
        None => s,
    }
}

/// Order-preserving removal of the first occurrence of `id`, as performed on
/// the pending-add queue when a deferred removal cancels a deferred
/// addition. Identity when `id` is absent.
pub open spec fn cancel_first_id(s: Seq<EventHandlerId>, id: EventHandlerId) -> Seq<
    EventHandlerId,
> {
    match s.index_of_first(id) {
        Some(i) => s.remove(i),
        None => s,
    }
}

/// One deferred removal applied during reconciliation: it swap-removes from
/// the live list if the identity is there, otherwise it cancels a matching
/// deferred addition, otherwise it is a no-op.
pub open spec fn apply_removal(
    live: Seq<EventHandlerId>,
    adds: Seq<EventHandlerId>,
    id: EventHandlerId,
) -> (Seq<EventHandlerId>, Seq<EventHandlerId>) {
    if live.contains(id) {
        (swap_remove_id(live, id), adds)
    } else {
        (live, cancel_first_id(adds, id))
    }
}

/// The live list after reconciliation: every deferred removal is applied in
/// queue order, then the surviving deferred additions are appended in queue
/// order.
pub open spec fn reconcile_live(
    live: Seq<EventHandlerId>,
    rems: Seq<EventHandlerId>,
    adds: Seq<EventHandlerId>,
) -> Seq<EventHandlerId>
    decreases rems.len(),
{
    if rems.len() == 0 {
        live + adds
    } else {
        let step = apply_removal(live, adds, rems[0]);
        reconcile_live(step.0, rems.drop_first(), step.1)
    }
}

/// The state after an uncontended `dispatch` during which the callbacks
/// deferred the additions `adds` and the removals `rems` (in those orders):
/// every handler live at acquisition was invoked once, in list order — the
/// trace grows by exactly the old live list — and the live list is
/// reconciled before the lock is released, leaving both queues empty.
pub open spec fn spec_dispatch_result(
    v: DispatcherView,
    rems: Seq<EventHandlerId>,
    adds: Seq<EventHandlerId>,
) -> DispatcherView {
    DispatcherView {
        live: reconcile_live(v.live, rems, adds),
        pending_add: Seq::empty(),
        pending_remove: Seq::empty(),
        locked: false,
        trace: v.trace + v.live,
    }
}

/// The preconditions under which reconciliation keeps handler identities
/// unique: the live list and the deferred additions are duplicate-free and
/// disjoint.
pub open spec fn reconcile_inputs_wf(
    live: Seq<EventHandlerId>,
    adds: Seq<EventHandlerId>,
) -> bool {
    &&& live.no_duplicates()
    &&& adds.no_duplicates()
    &&& (forall|id: EventHandlerId| #[trigger] adds.contains(id) ==> !live.contains(id))
}

/// Swap-removal on a duplicate-free list: the identity disappears, every
/// other identity is kept, and the result is again duplicate-free.
pub proof fn lemma_swap_remove_id(s: Seq<EventHandlerId>, id: EventHandlerId)
    requires
        s.no_duplicates(),
    ensures
        swap_remove_id(s, id).no_duplicates(),
        !swap_remove_id(s, id).contains(id),
        forall|x: EventHandlerId|
            x != id ==> (#[trigger] swap_remove_id(s, id).contains(x) <==> s.contains(x)),
        s.contains(id) ==> swap_remove_id(s, id).len() == s.len() - 1,
        !s.contains(id) ==> swap_remove_id(s, id) == s,
{
    s.index_of_first_ensures(id);
    match s.index_of_first(id) {
        Some(i) => {
            let r = s.update(i, s.last()).drop_last();
            let n = s.len() as int;
            assert forall|x: EventHandlerId| x != id && s.contains(x) implies r.contains(x) by {
                let k = choose|k: int| 0 <= k < n && s[k] == x;
                if k < n - 1 {
                    assert(r[k] == x);
                } else {
                    assert(i < n - 1);
                    assert(r[i] == x);
                }
                assert(r.contains(x));
            }
            assert forall|j: int| 0 <= j < n - 1 implies r[j] != id && s.contains(r[j]) by {
                if j == i {
                    assert(r[j] == s[n - 1]);
                    assert(s[n - 1] != id) by {
                        if s[n - 1] == id {
                            assert(i == n - 1);
                        }
                    }
                } else {
                    assert(r[j] == s[j]);
                }
            }
            assert(!r.contains(id));
            assert forall|x: EventHandlerId| x != id && r.contains(x) implies s.contains(x) by {
                let k = choose|k: int| 0 <= k < r.len() && r[k] == x;
                assert(s.contains(r[k]));
            }
            assert forall|j1: int, j2: int|
                0 <= j1 < n - 1 && 0 <= j2 < n - 1 && j1 != j2 implies r[j1] != r[j2] by {
                if j1 == i {
                    assert(r[j1] == s[n - 1] && r[j2] == s[j2]);
                } else if j2 == i {
                    assert(r[j1] == s[j1] && r[j2] == s[n - 1]);
                } else {
                    assert(r[j1] == s[j1] && r[j2] == s[j2]);
                }
            }
            assert(r.no_duplicates());
        },
        None => {
            assert(!s.contains(id));
        },
    }
}

/// Order-preserving removal on a duplicate-free list: the identity
/// disappears, every other identity is kept, and the result is again
/// duplicate-free.
pub proof fn lemma_cancel_first_id(s: Seq<EventHandlerId>, id: EventHandlerId)
    requires
        s.no_duplicates(),
    ensures
        cancel_first_id(s, id).no_duplicates(),
        !cancel_first_id(s, id).contains(id),
        forall|x: EventHandlerId|
            x != id ==> (#[trigger] cancel_first_id(s, id).contains(x) <==> s.contains(x)),
        !s.contains(id) ==> cancel_first_id(s, id) == s,
{
    s.index_of_first_ensures(id);
    match s.index_of_first(id) {
        Some(i) => {
            let r = s.remove(i);
            let n = s.len() as int;
            assert forall|j: int| 0 <= j < n - 1 implies r[j] == (if j < i {
                s[j]
            } else {
                s[j + 1]
            }) by {}
            assert forall|x: EventHandlerId| x != id && s.contains(x) implies r.contains(x) by {
                let k = choose|k: int| 0 <= k < n && s[k] == x;
                if k < i {
                    assert(r[k] == x);
                } else {
                    assert(k > i);
                    assert(r[k - 1] == x);
                }
                assert(r.contains(x));
            }
            assert forall|j: int| 0 <= j < n - 1 implies r[j] != id && s.contains(r[j]) by {}
            assert(!r.contains(id));
            assert forall|x: EventHandlerId| x != id && r.contains(x) implies s.contains(x) by {
                let k = choose|k: int| 0 <= k < r.len() && r[k] == x;
                assert(s.contains(r[k]));
            }
            assert(r.no_duplicates());
        },
        None => {
            assert(!s.contains(id));
        },
    }
}

/// A position that holds `id`, with no earlier position holding it, is the
/// position `index_of_first` designates.
pub proof fn lemma_first_index_matches(s: Seq<EventHandlerId>, id: EventHandlerId, i: int)
    requires
        0 <= i < s.len(),
        s[i] == id,
        forall|j: int| 0 <= j < i ==> s[j] != id,
    ensures
        s.index_of_first(id) == Some(i),
{
    s.index_of_first_ensures(id);
    assert(s.contains(id));
    match s.index_of_first(id) {
        Some(k) => {
            if k < i {
                assert(s[k] != id);
            } else if k > i {
                assert(s[i] != id);
            }
        },
        None => {
            assert(s[i] != id);
        },
    }
}

/// When no position holds `id`, `index_of_first` finds none and the sequence
/// does not contain it.
pub proof fn lemma_no_first_index(s: Seq<EventHandlerId>, id: EventHandlerId)
    requires
        forall|j: int| 0 <= j < s.len() ==> s[j] != id,
    ensures
        s.index_of_first(id) == None::<int>,
        !s.contains(id),
{
    s.index_of_first_ensures(id);
    assert(!s.contains(id));
    match s.index_of_first(id) {
        Some(k) => {
            assert(s[k] == id);
        },
        None => {},
    }
}

/// Reconciliation keeps handler identities unique, and an identity is live
/// afterwards exactly when it was live at lock acquisition or was a deferred
/// addition, and no deferred removal named it.
pub proof fn lemma_reconcile_live(
    live: Seq<EventHandlerId>,
    rems: Seq<EventHandlerId>,
    adds: Seq<EventHandlerId>,
)
    requires
        reconcile_inputs_wf(live, adds),
    ensures
        reconcile_live(live, rems, adds).no_duplicates(),
        forall|x: EventHandlerId| #[trigger]
            reconcile_live(live, rems, adds).contains(x) <==> ((live.contains(x)
                || adds.contains(x)) && !rems.contains(x)),
    decreases rems.len(),
{
    if rems.len() == 0 {
        let r = live + adds;
        assert forall|x: EventHandlerId| #[trigger]
            r.contains(x) <==> (live.contains(x) || adds.contains(x)) by {
            if live.contains(x) {
                let k = choose|k: int| 0 <= k < live.len() && live[k] == x;
                assert(r[k] == x);
                assert(r.contains(x));
            }
            if adds.contains(x) {
                let k = choose|k: int| 0 <= k < adds.len() && adds[k] == x;
                assert(r[live.len() + k] == x);
                assert(r.contains(x));
            }
            if r.contains(x) {
                let k = choose|k: int| 0 <= k < r.len() && r[k] == x;
                if k < live.len() {
                    assert(live[k] == x);
                } else {
                    assert(adds[k - live.len()] == x);
                }
            }
        }
        assert forall|j1: int, j2: int|
            0 <= j1 < r.len() && 0 <= j2 < r.len() && j1 != j2 implies r[j1] != r[j2] by {
            if j1 < live.len() && j2 >= live.len() {
                assert(live.contains(r[j1]) && adds.contains(r[j2]));
            } else if j2 < live.len() && j1 >= live.len() {
                assert(live.contains(r[j2]) && adds.contains(r[j1]));
            }
        }
        assert(r.no_duplicates());
    } else {
        let rid = rems[0];
        lemma_swap_remove_id(live, rid);
        lemma_cancel_first_id(adds, rid);
        let step = apply_removal(live, adds, rid);
        assert forall|id: EventHandlerId| #[trigger]
            step.1.contains(id) implies !step.0.contains(id) by {
            assert(adds.contains(id) || step.1 == adds);
        }
        assert(reconcile_inputs_wf(step.0, step.1));
        lemma_reconcile_live(step.0, rems.drop_first(), step.1);
        assert forall|x: EventHandlerId| #[trigger]
            reconcile_live(live, rems, adds).contains(x) <==> ((live.contains(x)
                || adds.contains(x)) && !rems.contains(x)) by {
            assert(reconcile_live(live, rems, adds) == reconcile_live(
                step.0,
                rems.drop_first(),
                step.1,
            ));
            assert(rems.contains(x) <==> (x == rid || rems.drop_first().contains(x))) by {
                if rems.contains(x) {
                    let k = choose|k: int| 0 <= k < rems.len() && rems[k] == x;
                    if k > 0 {
                        assert(rems.drop_first()[k - 1] == x);
                    }
                }
                if rems.drop_first().contains(x) {
                    let k = choose|k: int|
                        0 <= k < rems.drop_first().len() && rems.drop_first()[k] == x;
                    assert(rems[k + 1] == x);
                }
            }
        }
    }
}

} // verus!
