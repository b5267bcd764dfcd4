//! A minimal HTTP demo server, verified.
//!
//! The crate's substance is three mechanisms:
//! - composing route groups, each carrying its own context, into one
//!   dispatch table with last-registration-wins semantics ([`routing`]);
//! - a chunk-by-chunk streaming echo passthrough ([`echo`]);
//! - a one-shot host-identity snapshot with deterministic rendering
//!   ([`host`]).
//!
//! Listening, accepting connections and querying the operating system are
//! I/O glue that an unverified front end performs; it hands this crate
//! plain values and carries out the response plans the crate produces.

pub mod dispatch;
pub mod echo;
pub mod host;
pub mod routes;
pub mod routing;

use vstd::prelude::*;

verus! {

/// The fixed port the demo server listens on, on all interfaces.
pub const DEFAULT_PORT: u16 = 5000;

} // verus!
