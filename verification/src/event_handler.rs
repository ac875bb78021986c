//! Handler records: an opaque identity paired with the callback state that is
//! invoked once per dispatched event.

use vstd::prelude::*;

verus! {

/// An opaque, dispatcher-scoped identifier. The caller generates these and
/// must keep them unique among the handlers currently registered with one
/// dispatcher; the dispatcher itself never allocates them and compares them
/// only for equality.
pub type EventHandlerId = u64;

/// A registered handler: a unique identity paired with one callback value.
/// The dispatcher owns the callback exclusively once the handler is
/// registered and never inspects what the callback captures.
pub struct EventHandler<C> {
    pub id: EventHandlerId,
    pub callback: C,
}

impl<C> EventHandler<C> {
    pub fn new(id: EventHandlerId, callback: C) -> (r: Self)
        ensures
            r.id == id,
            r.callback == callback,
    {
        EventHandler { id, callback }
    }
}

/// The identities of a sequence of handlers, in the same order.
pub open spec fn ids_of<C>(handlers: Seq<EventHandler<C>>) -> Seq<EventHandlerId> {
    handlers.map_values(|h: EventHandler<C>| h.id)
}

} // verus!
