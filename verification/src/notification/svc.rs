use vstd::prelude::*;

use crate::notification::model::{PushSubscription, PushSubscriptionKeys};
use crate::server::{BAD_REQUEST, OK_RESPONSE};

verus! {

/// A web push message.
#[derive(Debug)]
pub struct PushMessage {
    pub title: String,
    pub body: String,
}

pub const DEFAULT_ENDPOINT: &'static str = "https://fcm.googleapis.com/fcm/send/czgxp_p8tFg:APA91bHsEh0GH49x3L6_aNQWz1pKmHfgKMCL11Kf6Wsf49tT1jbM64Ltr6_4toku6PQDdA-1O2w8yO2PH6NyVkKwy_S8o7vVUmTwIr-DTtNBp5e0ufDlNbqOXQ9wD2WFsXCM1FiOesue";

pub const DEFAULT_P256DH: &'static str = "BFFGrinjE3VIjgQD3XMX-h4dh8WWCK2ifCWin9ENcwCPff_fEEYFOUTP3aIiUjaaGHYVULoH2UM7qPI0uCU_nR0";

pub const DEFAULT_AUTH: &'static str = "gN0P_D1siTLc1nJnRtBV8Q";

/// The web push endpoint of the service.
pub struct Notification {}

impl Notification {
    /// The subscription that notifications go to when none is registered.
    pub fn default_subscription() -> (r: PushSubscription)
        ensures
            r.endpoint@ == DEFAULT_ENDPOINT@,
            r.expiration_time is None,
            r.keys.p256dh@ == DEFAULT_P256DH@,
            r.keys.auth@ == DEFAULT_AUTH@,
    {
        PushSubscription {
            endpoint: String::from_str(DEFAULT_ENDPOINT),
            expiration_time: None,
            keys: PushSubscriptionKeys {
                p256dh: String::from_str(DEFAULT_P256DH),
                auth: String::from_str(DEFAULT_AUTH),
            },
        }
    }

    /// The `(status, content)` with which a push request is answered: `200`
    /// when the push went out, `400` when the body was missing or did not
    /// parse or the push failed; no content either way.
    pub fn reply(pushed: bool) -> (r: (String, String))
        ensures
            pushed ==> r.0@ == OK_RESPONSE@,
            !pushed ==> r.0@ == BAD_REQUEST@,
            r.1@ == Seq::<char>::empty(),
    {
        if pushed {
            (String::from_str(OK_RESPONSE), String::new())
        } else {
            (String::from_str(BAD_REQUEST), String::new())
        }
    }
}

} // verus!
