use vstd::prelude::*;

verus! {

/// The keys of a web push subscription.
#[derive(Debug)]
pub struct PushSubscriptionKeys {
    pub p256dh: String,
    pub auth: String,
}

/// A web push subscription.
#[derive(Debug)]
pub struct PushSubscription {
    pub endpoint: String,
    pub expiration_time: Option<u64>,
    pub keys: PushSubscriptionKeys,
}

} // verus!
