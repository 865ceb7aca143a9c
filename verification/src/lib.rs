//! Subscription registry manager for a push-notification (EventSub) client.
//!
//! The library keeps an in-memory registry that maps an event-type name to
//! the subscription identifier the remote service assigned to it, and it
//! provides the decision logic of the four operations a client performs
//! against that registry: subscribe one event type, unsubscribe one,
//! subscribe many, unsubscribe many. The surrounding application performs
//! the HTTP calls; the registry updates, the request-body framing and the
//! batch merge rules are stated in contracts and verified here.

pub mod manager;
pub mod registry;
pub mod wire;
