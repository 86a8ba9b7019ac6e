//! Connection lifecycle notices.
use vstd::prelude::*;

verus! {

#[derive(Debug, Clone, Copy, PartialEq, Eq, Structural)]
pub enum Lifecycle {
    Connecting,
    Connected,
    Disconnecting,
    Disconnected,
    Ping,
    Pong,
    Subscription,
    Unsubscription,
    Heartbeat,
    SubscriptionStatus,
    Error,
    Warning,
    Info,
    Debug,
}

} // verus!
