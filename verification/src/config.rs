//! The configuration the orchestrator resolves once at startup.

use vstd::prelude::*;

verus! {

/// The credential the notification backend is reached with, and the
/// human-readable recipient name to resolve. Loading them from the local
/// configuration file is the caller's concern.
pub struct Config {
    pub slack_token: String,
    pub user_name: String,
}

impl Config {
    pub fn new(slack_token: String, user_name: String) -> (r: Config)
        ensures
            r.slack_token@ == slack_token@,
            r.user_name@ == user_name@,
    {
        Config { slack_token, user_name }
    }
}

} // verus!
