//! Error texts.

use vstd::prelude::*;

verus! {

/// No enabled upstream is online.
pub const NO_SERVERS_AVAILABLE: &'static str = "No servers available";

} // verus!
