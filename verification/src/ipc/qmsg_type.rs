//! Message types of q IPC: the second byte of a message header.

#![allow(non_upper_case_globals)]

use vstd::prelude::*;

verus! {

/// Used to send a message to q/kdb+ asynchronously.
pub const asynchronous: u8 = 0;

/// Used to send a message to q/kdb+ synchronously.
pub const synchronous: u8 = 1;

/// Used by q/kdb+ to identify a response for a synchronous query.
pub const response: u8 = 2;

} // verus!
