//! A bounded worker pool: a fixed set of workers takes jobs from one shared
//! queue, publishes one result per job on a shared result channel, and stops
//! when it takes a stop signal. The library holds the protocol's logic and its
//! proofs; running it on threads and channels is left to the caller.

pub mod text;
pub mod worker;
pub mod protocol;
pub mod pool;
pub mod coordinator;
