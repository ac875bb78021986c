//! The dispatcher: a live handler list guarded by a non-blocking primary
//! lock, and two deferral queues for the registrations and removals
//! requested while that lock is held. Mutations requested while the list is
//! held are never lost and never block the holder: they are delayed to the
//! reconciliation step that ends the holding dispatch.

use vstd::prelude::*;

use core::marker::PhantomData;

use crate::dispatch_spec::{
    cancel_first_id, lemma_first_index_matches, lemma_no_first_index, lemma_reconcile_live,
    reconcile_live, spec_add_handler, spec_dispatch_result, spec_remove_handler, swap_remove_id,
    DispatcherView,
};
use crate::event_handler::{ids_of, EventHandler, EventHandlerId};

verus! {

/// A dispatcher for one event payload type `T`, fanning each dispatched
/// event out to every registered handler, whose callbacks are values of `C`.
///
/// The `locked` flag models exclusive acquisition of the live list: it is
/// held for the whole of one `dispatch` and makes every operation requested
/// from inside a callback take the deferred path, which is what prevents
/// self-deadlock in the reentrant case.
pub struct EventDispatcher<T, C> {
    live: Vec<EventHandler<C>>,
    pending_add: Vec<EventHandler<C>>,
    pending_remove: Vec<EventHandlerId>,
    locked: bool,
    /// While the primary lock is held the live handlers are being iterated
    /// outside the struct; this snapshot of their identities is what the
    /// abstract live list means during that window.
    running_ids: Vec<EventHandlerId>,
    /// The identity of every handler invocation ever performed, oldest
    /// first.
    trace: Ghost<Seq<EventHandlerId>>,
    event_type: PhantomData<T>,
}

impl<T, C> View for EventDispatcher<T, C> {
    type V = DispatcherView;

    closed spec fn view(&self) -> DispatcherView {
        DispatcherView {
            live: if self.locked {
                self.running_ids@
            } else {
                ids_of(self.live@)
            },
            pending_add: ids_of(self.pending_add@),
            pending_remove: self.pending_remove@,
            locked: self.locked,
            trace: self.trace@,
        }
    }
}

impl<T, C> EventDispatcher<T, C> {
    /// Well-formedness of the abstract state; constructors establish it and
    /// every operation preserves it.
    pub open spec fn wf(&self) -> bool {
        self@.wf()
    }

    /// Constructs a dispatcher with no handlers, no deferred requests and
    /// the primary lock free.
    pub fn new() -> (r: Self)
        ensures
            r.wf(),
            r@ == DispatcherView::empty(),
    {
        let d = EventDispatcher {
            live: Vec::new(),
            pending_add: Vec::new(),
            pending_remove: Vec::new(),
            locked: false,
            running_ids: Vec::new(),
            trace: Ghost(Seq::empty()),
            event_type: PhantomData,
        };
        proof {
            assert(d@ =~= DispatcherView::empty());
        }
        d
    }

    /// Registers a handler. When the primary lock is free the handler is
    /// appended to the live list and receives the next dispatched event;
    /// when the lock is held (a dispatch is running) the handler is deferred
    /// to the pending-add queue and becomes live at reconciliation. The
    /// caller cannot observe which path was taken, and must keep handler
    /// identities unique among the currently registered ones.
    pub fn add_handler(&mut self, handler: EventHandler<C>)
        requires
            old(self).wf(),
            !old(self)@.live.contains(handler.id),
            !old(self)@.pending_add.contains(handler.id),
        ensures
            final(self).wf(),
            final(self)@ == spec_add_handler(old(self)@, handler.id),
    {
        let ghost id = handler.id;
        if !self.locked {
            self.live.push(handler);
            proof {
                assert(ids_of(self.live@) =~= ids_of(old(self).live@).push(id));
                assert(self@ =~= spec_add_handler(old(self)@, id));
            }
        } else {
            self.pending_add.push(handler);
            proof {
                assert(ids_of(self.pending_add@) =~= ids_of(old(self).pending_add@).push(id));
                assert(self@ =~= spec_add_handler(old(self)@, id));
            }
        }
        proof {
            lemma_push_keeps_no_duplicates(old(self)@, self@, id);
        }
    }

    /// Whether a handler with the given identity is currently registered:
    /// live, or deferred in the pending-add queue. Exactly the identities
    /// for which `add_handler` may not be called again.
    pub fn has_handler(&self, id: EventHandlerId) -> (r: bool)
        ensures
            r == (self@.live.contains(id) || self@.pending_add.contains(id)),
    {
        let in_live = if self.locked {
            contains_id(&self.running_ids, id)
        } else {
            let found = find_handler_index(&self.live, id);
            proof {
                match found {
                    Some(i) => {
                        assert(ids_of(self.live@)[i as int] == id);
                        assert(ids_of(self.live@).contains(id));
                    },
                    None => {
                        assert forall|j: int|
                            0 <= j < ids_of(self.live@).len() implies ids_of(self.live@)[j]
                            != id by {
                            assert(self.live@[j].id != id);
                        }
                    },
                }
            }
            found.is_some()
        };
        let in_pending = {
            let found = find_handler_index(&self.pending_add, id);
            proof {
                match found {
                    Some(i) => {
                        assert(ids_of(self.pending_add@)[i as int] == id);
                        assert(ids_of(self.pending_add@).contains(id));
                    },
                    None => {
                        assert forall|j: int|
                            0 <= j < ids_of(self.pending_add@).len() implies ids_of(
                                self.pending_add@,
                            )[j] != id by {
                            assert(self.pending_add@[j].id != id);
                        }
                    },
                }
            }
            found.is_some()
        };
        in_live || in_pending
    }

    /// Unregisters the handler with the given identity. When the primary
    /// lock is free the first matching handler is swap-removed from the live
    /// list (a silent no-op when none matches: removing an absent identity
    /// is not an error); when the lock is held the identity is deferred to
    /// the pending-remove queue.
    pub fn remove_handler(&mut self, handler_id: EventHandlerId)
        requires
            old(self).wf(),
        ensures
            final(self).wf(),
            final(self)@ == spec_remove_handler(old(self)@, handler_id),
    {
        if !self.locked {
            let _ = remove_handler_by_id(&mut self.live, handler_id);
            proof {
                assert(self@ =~= spec_remove_handler(old(self)@, handler_id));
                crate::dispatch_spec::lemma_swap_remove_id(old(self)@.live, handler_id);
            }
        } else {
            self.pending_remove.push(handler_id);
            proof {
                assert(self@ =~= spec_remove_handler(old(self)@, handler_id));
            }
        }
    }
}

/// The callback interface: the dispatcher invokes `call` once per live
/// handler for each event it delivers, with exclusive access to the
/// callback's own state and a reference back to the invoking dispatcher.
///
/// A callback may reenter that dispatcher through `add_handler`,
/// `remove_handler` or `dispatch`; because the invoking dispatch holds the
/// primary lock, every such reentry takes the deferred or dropped path, and
/// the contract records exactly that: the live list, the lock and the
/// invocation trace are untouched, and the deferral queues only grow.
pub trait EventCallback<T>: Sized {
    fn call(&mut self, event: &T, dispatcher: &mut EventDispatcher<T, Self>)
        requires
            old(dispatcher)@.locked,
            old(dispatcher)@.wf(),
        ensures
            final(dispatcher)@.wf(),
            final(dispatcher)@.locked,
            final(dispatcher)@.live == old(dispatcher)@.live,
            final(dispatcher)@.trace == old(dispatcher)@.trace,
            old(dispatcher)@.pending_add.is_prefix_of(final(dispatcher)@.pending_add),
            old(dispatcher)@.pending_remove.is_prefix_of(final(dispatcher)@.pending_remove),
    ;
}

impl<T, C: EventCallback<T>> EventDispatcher<T, C> {
    /// Delivers one event. When the primary lock is already held (another
    /// dispatch is running, or a callback reenters) the call returns at
    /// once and the event is dropped for every handler — best-effort
    /// delivery, chosen so a producer never blocks or deadlocks. Otherwise
    /// every handler live at acquisition is invoked exactly once with the
    /// event, in list order; afterwards the removals and additions the
    /// callbacks deferred are reconciled into the live list, and only then
    /// is the lock released, so no caller observes a half-reconciled list.
    pub fn dispatch(&mut self, event: &T)
        requires
            old(self).wf(),
        ensures
            final(self).wf(),
            old(self)@.locked ==> final(self)@ == old(self)@,
            !old(self)@.locked ==> (exists|rems: Seq<EventHandlerId>, adds: Seq<EventHandlerId>|
                {
                    &&& final(self)@ == #[trigger] spec_dispatch_result(old(self)@, rems, adds)
                    &&& adds.no_duplicates()
                    &&& (forall|x: EventHandlerId| #[trigger]
                        adds.contains(x) ==> !old(self)@.live.contains(x))
                }),
    {
        if self.locked {
            return;
        }
        // Snapshot the live identities: while the lock is held they are
        // what the abstract live list means.
        let mut snap: Vec<EventHandlerId> = Vec::new();
        let mut i: usize = 0;
        while i < self.live.len()
            invariant
                i <= self.live.len(),
                self == old(self),
                snap@ == ids_of(self.live@).take(i as int),
            decreases self.live@.len() - i,
        {
            let hid = self.live[i].id;
            snap.push(hid);
            proof {
                assert(snap@ =~= ids_of(self.live@).take(i as int + 1));
            }
            i = i + 1;
        }
        let ghost v0 = old(self)@;
        proof {
            assert(snap@ =~= ids_of(self.live@));
        }
        self.running_ids = snap;
        self.locked = true;
        let ghost snapshot = v0.live;
        let mut todo: Vec<EventHandler<C>> = Vec::new();
        core::mem::swap(&mut todo, &mut self.live);
        let mut done: Vec<EventHandler<C>> = Vec::new();
        proof {
            assert(snapshot =~= ids_of(done@) + ids_of(todo@));
            assert(self@.trace =~= v0.trace + ids_of(done@));
            assert(self@.wf());
        }
        while todo.len() > 0
            invariant
                self@.locked,
                self@.wf(),
                self@.live == snapshot,
                snapshot == ids_of(done@) + ids_of(todo@),
                self@.trace == v0.trace + ids_of(done@),
            decreases todo@.len(),
        {
            let ghost todo_b = todo@;
            let ghost done_b = done@;
            let handler = todo.remove(0);
            let EventHandler { id: hid, callback: mut cb } = handler;
            proof {
                assert(todo@ =~= todo_b.drop_first());
                assert(ids_of(todo@) =~= ids_of(todo_b).drop_first());
                assert(hid == ids_of(todo_b)[0]);
            }
            cb.call(event, self);
            self.trace = Ghost(self.trace@.push(hid));
            done.push(EventHandler { id: hid, callback: cb });
            proof {
                assert(ids_of(done@) =~= ids_of(done_b).push(hid));
                assert(ids_of(done_b) + ids_of(todo_b) =~= ids_of(done@) + ids_of(todo@));
                assert((v0.trace + ids_of(done_b)).push(hid) =~= v0.trace + ids_of(done@));
            }
        }
        proof {
            assert(ids_of(done@) =~= snapshot);
        }
        let ghost remsw = self.pending_remove@;
        let ghost addsw = ids_of(self.pending_add@);
        proof {
            assert(addsw.no_duplicates());
            assert(snapshot.no_duplicates());
            assert(forall|x: EventHandlerId| #[trigger]
                addsw.contains(x) ==> !snapshot.contains(x));
            lemma_reconcile_live(snapshot, remsw, addsw);
        }
        reconcile(&mut done, &mut self.pending_add, &mut self.pending_remove);
        self.live = done;
        self.locked = false;
        self.running_ids = Vec::new();
        proof {
            assert(self@ =~= spec_dispatch_result(v0, remsw, addsw));
            assert(self@.wf());
            assert(spec_dispatch_result(old(self)@, remsw, addsw) == self@);
        }
    }
}

/// Applies every deferred removal, in queue order, to the live list by
/// swap-removal — where the removed identity was never live it cancels a
/// matching deferred addition instead — then appends the surviving deferred
/// additions in queue order. Both queues are left empty. This is the
/// reconciliation step a dispatch performs before releasing the primary
/// lock; it is equally the reconciliation for any deployment that keeps the
/// three lists under its own locks.
pub fn reconcile<C>(
    live: &mut Vec<EventHandler<C>>,
    pending_add: &mut Vec<EventHandler<C>>,
    pending_remove: &mut Vec<EventHandlerId>,
)
    ensures
        ids_of(final(live)@) == reconcile_live(
            ids_of(old(live)@),
            old(pending_remove)@,
            ids_of(old(pending_add)@),
        ),
        final(pending_add)@.len() == 0,
        final(pending_remove)@.len() == 0,
{
    let ghost target = reconcile_live(
        ids_of(old(live)@),
        old(pending_remove)@,
        ids_of(old(pending_add)@),
    );
    while pending_remove.len() > 0
        invariant
            reconcile_live(ids_of(live@), pending_remove@, ids_of(pending_add@)) == target,
        decreases pending_remove@.len(),
    {
        let ghost live_b = ids_of(live@);
        let ghost rems_b = pending_remove@;
        let ghost adds_b = ids_of(pending_add@);
        let rid = pending_remove.remove(0);
        proof {
            assert(rid == rems_b[0]);
            assert(pending_remove@ =~= rems_b.drop_first());
        }
        let removed = remove_handler_by_id(live, rid);
        if !removed {
            cancel_pending_add(pending_add, rid);
        }
        proof {
            if !removed {
                live_b.index_of_first_ensures(rid);
                match live_b.index_of_first(rid) {
                    Some(k) => {
                        assert(live_b.contains(rid));
                    },
                    None => {},
                }
                assert(ids_of(live@) == live_b);
            }
            assert(reconcile_live(ids_of(live@), pending_remove@, ids_of(pending_add@))
                == target);
        }
    }
    let ghost live_f = ids_of(live@);
    let ghost adds_f = ids_of(pending_add@);
    live.append(pending_add);
    proof {
        assert(ids_of(live@) =~= live_f + adds_f);
    }
}

/// Whether the identity occurs in a list of identities.
fn contains_id(ids: &Vec<EventHandlerId>, id: EventHandlerId) -> (r: bool)
    ensures
        r == ids@.contains(id),
{
    let mut i: usize = 0;
    while i < ids.len()
        invariant
            i <= ids@.len(),
            forall|j: int| 0 <= j < i ==> ids@[j] != id,
        decreases ids@.len() - i,
    {
        if ids[i] == id {
            return true;
        }
        i = i + 1;
    }
    false
}

/// The index of the first handler whose identity matches, if any.
fn find_handler_index<C>(handlers: &Vec<EventHandler<C>>, id: EventHandlerId) -> (r: Option<
    usize,
>)
    ensures
        match r {
            Some(i) => i < handlers@.len() && handlers@[i as int].id == id && (forall|j: int|
                0 <= j < i ==> handlers@[j].id != id),
            None => forall|j: int| 0 <= j < handlers@.len() ==> handlers@[j].id != id,
        },
{
    let mut i: usize = 0;
    while i < handlers.len()
        invariant
            i <= handlers@.len(),
            forall|j: int| 0 <= j < i ==> handlers@[j].id != id,
        decreases handlers@.len() - i,
    {
        if handlers[i].id == id {
            return Some(i);
        }
        i = i + 1;
    }
    None
}

/// Removes the handler with the given identity from a handler list by
/// swap-removal — the last handler moves into the vacated slot, so list
/// order is not preserved — and reports whether one matched; a no-op when
/// none does.
pub fn remove_handler_by_id<C>(handlers: &mut Vec<EventHandler<C>>, id: EventHandlerId) -> (removed:
    bool)
    ensures
        removed == ids_of(old(handlers)@).contains(id),
        ids_of(final(handlers)@) == swap_remove_id(ids_of(old(handlers)@), id),
{
    let ghost ids = ids_of(handlers@);
    match find_handler_index(handlers, id) {
        Some(i) => {
            proof {
                assert(ids[i as int] == id);
                assert(ids.contains(id));
                lemma_first_index_matches(ids, id, i as int);
            }
            let _ = handlers.swap_remove(i);
            proof {
                assert(ids_of(handlers@) =~= ids.update(i as int, ids.last()).drop_last());
            }
            true
        },
        None => {
            proof {
                assert(forall|j: int| 0 <= j < ids.len() ==> ids[j] != id);
                lemma_no_first_index(ids, id);
            }
            false
        },
    }
}

/// Cancels the deferred addition of the given identity, if one is queued:
/// removes the first matching handler from the pending-add queue, keeping
/// queue order.
fn cancel_pending_add<C>(pending_add: &mut Vec<EventHandler<C>>, id: EventHandlerId)
    ensures
        ids_of(final(pending_add)@) == cancel_first_id(ids_of(old(pending_add)@), id),
{
    let ghost ids = ids_of(pending_add@);
    match find_handler_index(pending_add, id) {
        Some(i) => {
            proof {
                assert(ids[i as int] == id);
                lemma_first_index_matches(ids, id, i as int);
            }
            let _ = pending_add.remove(i);
            proof {
                assert(ids_of(pending_add@) =~= ids.remove(i as int));
            }
        },
        None => {
            proof {
                assert(forall|j: int| 0 <= j < ids.len() ==> ids[j] != id);
                lemma_no_first_index(ids, id);
            }
        },
    }
}

/// A canned callback whose only effect is to unregister its own handler.
/// Invoked during a dispatch it necessarily takes the deferred path, so the
/// handler completes the invocation it is in and is absent from every later
/// dispatch.
pub struct SelfRemovingCallback {
    pub own_id: EventHandlerId,
}

impl<T> EventCallback<T> for SelfRemovingCallback {
    fn call(&mut self, _event: &T, dispatcher: &mut EventDispatcher<T, Self>) {
        let id = self.own_id;
        dispatcher.remove_handler(id);
        proof {
            let pr0 = old(dispatcher)@.pending_remove;
            assert(dispatcher@.pending_remove == pr0.push(id));
            assert(pr0 =~= pr0.push(id).subrange(0, pr0.len() as int));
            let pa0 = old(dispatcher)@.pending_add;
            assert(pa0 =~= dispatcher@.pending_add.subrange(0, pa0.len() as int));
        }
    }
}

/// A fresh identity appended on the side `spec_add_handler` chose keeps the
/// well-formedness of the state.
proof fn lemma_push_keeps_no_duplicates(v0: DispatcherView, v1: DispatcherView, id: EventHandlerId)
    requires
        v0.wf(),
        !v0.live.contains(id),
        !v0.pending_add.contains(id),
        v1 == spec_add_handler(v0, id),
    ensures
        v1.wf(),
{
    if !v0.locked {
        assert forall|j1: int, j2: int|
            0 <= j1 < v1.live.len() && 0 <= j2 < v1.live.len() && j1 != j2 implies v1.live[j1]
            != v1.live[j2] by {
            if j1 < v0.live.len() && j2 < v0.live.len() {
            } else if j1 == v0.live.len() {
                assert(v0.live.contains(v1.live[j2]) && v1.live[j1] == id);
            } else if j2 == v0.live.len() {
                assert(v0.live.contains(v1.live[j1]) && v1.live[j2] == id);
            }
        }
        assert(v1.live.no_duplicates());
    } else {
        assert forall|j1: int, j2: int|
            0 <= j1 < v1.pending_add.len() && 0 <= j2 < v1.pending_add.len() && j1 != j2
            implies v1.pending_add[j1] != v1.pending_add[j2] by {
            if j1 < v0.pending_add.len() && j2 < v0.pending_add.len() {
            } else if j1 == v0.pending_add.len() {
                assert(v0.pending_add.contains(v1.pending_add[j2]) && v1.pending_add[j1] == id);
            } else if j2 == v0.pending_add.len() {
                assert(v0.pending_add.contains(v1.pending_add[j1]) && v1.pending_add[j2] == id);
            }
        }
        assert(v1.pending_add.no_duplicates());
        assert forall|x: EventHandlerId| #[trigger]
            v1.pending_add.contains(x) implies !v1.live.contains(x) by {
            let k = choose|k: int| 0 <= k < v1.pending_add.len() && v1.pending_add[k] == x;
            if k < v0.pending_add.len() {
                assert(v0.pending_add.contains(x));
            }
        }
    }
}

} // verus!
