//! Buffering of consensus-vote packets between intake and execution.
//!
//! A [`vote_storage::VoteStorage`] owns a pool of pending votes, at most one
//! for each vote account. Producers add packets with `insert_batch`. Once per
//! round the consumer calls `process_packets`, which drains the pool, filters
//! each packet against the current bank, hands the packets that go in to a
//! processing step in batches of at most
//! [`candidate_batch::UNPROCESSED_BUFFER_STEP_SIZE`], and puts back what the
//! step did not consume.
//!
//! What each function does is stated in its contract; [`lemmas`] holds what
//! follows for whole insertions and rounds.

pub mod account_locks;
pub mod bank;
pub mod candidate_batch;
pub mod consumer;
pub mod latest_unprocessed_votes;
pub mod lemmas;
pub mod metrics;
pub mod packet;
pub mod pubkey;
pub mod timing;
pub mod transaction;
pub mod vote_source;
pub mod vote_storage;
