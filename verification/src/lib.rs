//! Idempotent newsletter publishing with a durable delivery queue.
//!
//! The library models the persistent state of the service (idempotency
//! records, newsletter issues, the issue delivery queue, and the subscriber
//! roster) as an explicit [`store::Store`] value, and verifies the operations
//! that the correctness of the system hangs on: claiming an idempotency key,
//! committing a unit of work atomically, and draining the delivery queue with
//! skip-locked task claims.

use vstd::prelude::*;

pub mod configuration;
pub mod domain;
pub mod idempotency;
pub mod issue_delivery_worker;
pub mod newsletter;
pub mod publish;
pub mod response;
pub mod store;
pub mod subscriptions;
pub mod transport;

verus! {

} // verus!
