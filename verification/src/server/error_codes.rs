//! The codes of error replies.
use vstd::prelude::*;

verus! {

pub const BAD_REQUEST: u32 = 400;

pub const NOT_FOUND: u32 = 404;

pub const INTERNAL: u32 = 500;

pub const NOT_IMPLEMENTED: u32 = 501;

} // verus!
