//! Behavioural tests for the dispatcher: uncontended delivery, idempotent
//! unregistration, the reentrant add/remove paths, same-cycle cancellation,
//! contention drop, and the combined scenario.

use std::cell::RefCell;
use std::rc::Rc;

use event_dispatcher::event_dispatcher::{EventCallback, EventDispatcher, SelfRemovingCallback};
use event_dispatcher::event_handler::EventHandler;

/// What a scripted callback should request, reentrantly, when next invoked.
struct Script {
    adds: Vec<u64>,
    removes: Vec<u64>,
    redispatch: bool,
}

impl Script {
    fn none() -> Script {
        Script { adds: vec![], removes: vec![], redispatch: false }
    }
}

/// A callback that appends its handler id (and the event it saw) to a shared
/// log, then performs whatever reentrant requests its shared script holds.
struct Scripted {
    id: u64,
    log: Rc<RefCell<Vec<u64>>>,
    events: Rc<RefCell<Vec<u64>>>,
    script: Rc<RefCell<Script>>,
}

impl Scripted {
    fn plain(id: u64, log: &Rc<RefCell<Vec<u64>>>, events: &Rc<RefCell<Vec<u64>>>) -> Scripted {
        Scripted {
            id,
            log: log.clone(),
            events: events.clone(),
            script: Rc::new(RefCell::new(Script::none())),
        }
    }
}

impl EventCallback<u64> for Scripted {
    fn call(&mut self, event: &u64, dispatcher: &mut EventDispatcher<u64, Self>) {
        self.log.borrow_mut().push(self.id);
        self.events.borrow_mut().push(*event);
        let (adds, removes, redispatch) = {
            let s = self.script.borrow();
            (s.adds.clone(), s.removes.clone(), s.redispatch)
        };
        for r in &removes {
            dispatcher.remove_handler(*r);
        }
        for a in &adds {
            dispatcher.add_handler(EventHandler::new(
                *a,
                Scripted::plain(*a, &self.log, &self.events),
            ));
        }
        if redispatch {
            dispatcher.dispatch(event);
        }
    }
}

struct Harness {
    dispatcher: EventDispatcher<u64, Scripted>,
    log: Rc<RefCell<Vec<u64>>>,
    events: Rc<RefCell<Vec<u64>>>,
}

impl Harness {
    fn new() -> Harness {
        Harness {
            dispatcher: EventDispatcher::new(),
            log: Rc::new(RefCell::new(Vec::new())),
            events: Rc::new(RefCell::new(Vec::new())),
        }
    }

    /// Registers a plain logging handler and hands back its script handle.
    fn register(&mut self, id: u64) -> Rc<RefCell<Script>> {
        let cb = Scripted::plain(id, &self.log, &self.events);
        let script = cb.script.clone();
        self.dispatcher.add_handler(EventHandler::new(id, cb));
        script
    }

    fn log_len(&self) -> usize {
        self.log.borrow().len()
    }

    /// The log entries appended since position `from`, in order.
    fn log_since(&self, from: usize) -> Vec<u64> {
        self.log.borrow()[from..].to_vec()
    }

    /// The same entries as an order-insensitive membership set.
    fn members_since(&self, from: usize) -> Vec<u64> {
        let mut v = self.log_since(from);
        v.sort();
        v
    }
}

#[test]
fn test_uncontended_delivery_in_registration_order() {
    let mut h = Harness::new();
    for id in 1..=5u64 {
        h.register(id);
    }
    h.dispatcher.dispatch(&10);
    assert_eq!(*h.log.borrow(), vec![1, 2, 3, 4, 5]);
    assert_eq!(*h.events.borrow(), vec![10, 10, 10, 10, 10]);
}

#[test]
fn test_dispatch_with_no_handlers_is_a_noop() {
    let mut h = Harness::new();
    h.dispatcher.dispatch(&10);
    assert_eq!(h.log_len(), 0);
}

#[test]
fn test_unregister_is_idempotent() {
    let mut h = Harness::new();
    h.register(1);
    h.register(2);
    h.dispatcher.remove_handler(9);
    h.dispatcher.remove_handler(1);
    h.dispatcher.remove_handler(1);
    h.dispatcher.dispatch(&5);
    assert_eq!(*h.log.borrow(), vec![2]);
}

#[test]
fn test_uncontended_remove_keeps_membership() {
    let mut h = Harness::new();
    h.register(1);
    h.register(2);
    h.register(3);
    h.dispatcher.remove_handler(1);
    h.dispatcher.dispatch(&5);
    assert_eq!(h.members_since(0), vec![2, 3]);
}

#[test]
fn test_reentrant_add_is_deferred_to_next_dispatch() {
    let mut h = Harness::new();
    let script1 = h.register(1);
    h.register(2);
    script1.borrow_mut().adds = vec![4];
    h.dispatcher.dispatch(&100);
    // The handler registered during the dispatch was not invoked by it.
    assert_eq!(*h.log.borrow(), vec![1, 2]);
    *script1.borrow_mut() = Script::none();
    let mark = h.log_len();
    h.dispatcher.dispatch(&101);
    // On the next dispatch it is live.
    assert_eq!(h.members_since(mark), vec![1, 2, 4]);
}

#[test]
fn test_reentrant_remove_completes_own_invocation() {
    let mut h = Harness::new();
    h.register(1);
    let script2 = h.register(2);
    h.register(3);
    script2.borrow_mut().removes = vec![2];
    h.dispatcher.dispatch(&7);
    // The self-removing handler still saw this event...
    assert_eq!(*h.log.borrow(), vec![1, 2, 3]);
    let mark = h.log_len();
    h.dispatcher.dispatch(&8);
    // ...and is absent from all subsequent dispatches.
    assert_eq!(h.members_since(mark), vec![1, 3]);
}

#[test]
fn test_add_then_remove_same_cycle_is_absent() {
    let mut h = Harness::new();
    let script1 = h.register(1);
    let script2 = h.register(2);
    script1.borrow_mut().adds = vec![7];
    script2.borrow_mut().removes = vec![7];
    h.dispatcher.dispatch(&1);
    assert_eq!(*h.log.borrow(), vec![1, 2]);
    *script1.borrow_mut() = Script::none();
    *script2.borrow_mut() = Script::none();
    let mark = h.log_len();
    h.dispatcher.dispatch(&2);
    // The identity added and removed within one cycle never became live.
    assert_eq!(h.members_since(mark), vec![1, 2]);
}

#[test]
fn test_contended_dispatch_is_dropped() {
    let mut h = Harness::new();
    let script1 = h.register(1);
    h.register(2);
    script1.borrow_mut().redispatch = true;
    h.dispatcher.dispatch(&9);
    // The reentrant dispatch found the lock held and invoked nobody.
    assert_eq!(*h.log.borrow(), vec![1, 2]);
    assert_eq!(*h.events.borrow(), vec![9, 9]);
}

/// A callback for a string-typed dispatcher, recording what it saw.
struct Recorder {
    id: u64,
    seen: Rc<RefCell<Vec<String>>>,
}

impl EventCallback<String> for Recorder {
    fn call(&mut self, event: &String, _dispatcher: &mut EventDispatcher<String, Self>) {
        self.seen.borrow_mut().push(format!("{}:{}", self.id, event));
    }
}

#[test]
fn test_generic_event_payloads() {
    let seen = Rc::new(RefCell::new(Vec::new()));
    let mut d: EventDispatcher<String, Recorder> = EventDispatcher::new();
    d.add_handler(EventHandler::new(1, Recorder { id: 1, seen: seen.clone() }));
    d.add_handler(EventHandler::new(2, Recorder { id: 2, seen: seen.clone() }));
    d.dispatch(&String::from("tick"));
    assert_eq!(*seen.borrow(), vec!["1:tick".to_string(), "2:tick".to_string()]);
}

#[test]
fn test_has_handler_tracks_registration() {
    let mut h = Harness::new();
    assert!(!h.dispatcher.has_handler(1));
    h.register(1);
    assert!(h.dispatcher.has_handler(1));
    h.dispatcher.remove_handler(1);
    assert!(!h.dispatcher.has_handler(1));
}

#[test]
fn test_self_removing_callback_fires_once() {
    let mut d: EventDispatcher<u64, SelfRemovingCallback> = EventDispatcher::new();
    d.add_handler(EventHandler::new(5, SelfRemovingCallback { own_id: 5 }));
    assert!(d.has_handler(5));
    d.dispatch(&1);
    assert!(!d.has_handler(5));
    d.dispatch(&2);
    assert!(!d.has_handler(5));
}

#[test]
fn test_scenario_register_abc_mutate_during_dispatches() {
    let mut h = Harness::new();
    h.register(1);
    let script_b = h.register(2);
    h.register(3);
    h.dispatcher.dispatch(&42);
    assert_eq!(*h.log.borrow(), vec![1, 2, 3]);
    assert_eq!(*h.events.borrow(), vec![42, 42, 42]);

    // Handler 2 now unregisters 1; its removal is deferred to the end of
    // the dispatch it is requested in.
    script_b.borrow_mut().removes = vec![1];
    let mark = h.log_len();
    h.dispatcher.dispatch(&43);
    assert_eq!(h.members_since(mark), vec![1, 2, 3]);

    // Handler 2 now registers 4: during this dispatch 1 is gone and 4 is
    // not yet live.
    *script_b.borrow_mut() = Script::none();
    script_b.borrow_mut().adds = vec![4];
    let mark = h.log_len();
    h.dispatcher.dispatch(&44);
    assert_eq!(h.members_since(mark), vec![2, 3]);

    // And on the following dispatch 4 is live.
    *script_b.borrow_mut() = Script::none();
    let mark = h.log_len();
    h.dispatcher.dispatch(&45);
    assert_eq!(h.members_since(mark), vec![2, 3, 4]);
}
