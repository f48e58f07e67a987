//! Publishing people as records on a bus and applying them to a store exactly
//! once: the wire codec, the idempotency ledger, the ingest worker's state
//! machine and the retry rules.
pub mod backoff;
pub mod batch;
pub mod cli;
pub mod codec;
pub mod ledger;
pub mod publisher;
pub mod record;
pub mod worker;
