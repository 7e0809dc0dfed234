//! The websocket server: what it is told, what it answers, and what it does in between.
use vstd::prelude::*;

pub mod error_codes;
pub mod launch;
pub mod protocol;
pub mod session;
pub mod setup;

verus! {

} // verus!
