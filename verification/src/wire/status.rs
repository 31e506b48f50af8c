//! Reply status codes.
use vstd::prelude::*;

verus! {

/// The request was carried out.
pub const OK: u16 = 0;

/// The caller's badge does not allow the request.
pub const ACCESS: u16 = 1;

/// The request itself is wrong.
pub const INVALID: u16 = 2;

/// The request is allowed, but carrying it out failed.
pub const FAILED: u16 = 3;

} // verus!
