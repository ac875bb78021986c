//! An in-process publish/notify primitive: a typed broadcast channel in which
//! independent subscribers register callbacks and receive synchronous
//! notifications whenever a producer emits an event, tolerating subscribers
//! that register or unregister themselves from inside a callback.

pub mod dispatch_laws;
pub mod dispatch_spec;
pub mod event_dispatcher;
pub mod event_handler;
