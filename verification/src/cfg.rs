use vstd::prelude::*;

verus! {

/// The settings the service runs with.
pub struct Config {
    pub llama_url: &'static str,
    pub tele_url: &'static str,
    pub tele_token: &'static str,
    pub vapid_private_key: &'static str,
}

} // verus!
