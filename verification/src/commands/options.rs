//! The options of SET.

use vstd::prelude::*;

verus! {

/// What the tokens after SET's key and value asked for.
#[derive(Debug, Clone, Copy, PartialEq, Eq)]
pub struct SetOptions {
    /// Write only if the key does not exist.
    pub nx: bool,
    /// Write only if the key exists.
    pub xx: bool,
    /// Reply with the old value.
    pub get: bool,
    /// Keep the key's current expiry.
    pub keep_ttl: bool,
    /// The time, in milliseconds, at which the new value expires.
    pub expires_at: Option<u64>,
}

/// No option set.
pub open spec fn no_options() -> SetOptions {
    SetOptions { nx: false, xx: false, get: false, keep_ttl: false, expires_at: None }
}

impl Default for SetOptions {
    fn default() -> (r: SetOptions)
        ensures
            r == no_options(),
    {
        SetOptions { nx: false, xx: false, get: false, keep_ttl: false, expires_at: None }
    }
}

} // verus!
