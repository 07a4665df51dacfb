//! Counters of time spent and of failures.

use vstd::prelude::*;
use std::sync::atomic::AtomicU64;
use std::sync::atomic::Ordering;

verus! {

/// Time spent and work done during one leader slot.
#[derive(Debug)]
pub struct LeaderSlotMetricsTracker {
    /// The thread that the tracker belongs to.
    pub id: u32,
    /// Microseconds spent turning packets into transactions.
    pub transactions_from_packets_us: u64,
}

impl LeaderSlotMetricsTracker {
    /// A tracker for the thread `id` that has counted nothing yet.
    pub fn new(id: u32) -> (tracker: Self)
        ensures
            tracker.id == id,
            tracker.transactions_from_packets_us == 0,
    {
        LeaderSlotMetricsTracker { id, transactions_from_packets_us: 0 }
    }

    /// Adds `us` microseconds to the time spent turning packets into
    /// transactions; the sum stops at the largest value instead of wrapping.
    pub fn increment_transactions_from_packets_us(&mut self, us: u64)
        ensures
            final(self).id == old(self).id,
            final(self).transactions_from_packets_us == if old(self).transactions_from_packets_us
                + us > u64::MAX {
                u64::MAX
            } else {
                (old(self).transactions_from_packets_us + us) as u64
            },
    {
        self.transactions_from_packets_us = self.transactions_from_packets_us.saturating_add(us);
    }
}

/// Counters shared by the threads of the banking stage. They are only ever
/// added to, and each thread may do so at any time.
#[derive(Debug)]
pub struct BankingStageStats {
    /// Microseconds spent turning packets into transactions.
    pub packet_conversion_elapsed: AtomicU64,
}

impl Default for BankingStageStats {
    /// Counters that start at zero.
    fn default() -> Self {
        BankingStageStats { packet_conversion_elapsed: AtomicU64::new(0) }
    }
}

impl BankingStageStats {

    /// Adds `us` microseconds to the conversion time.
    pub fn add_packet_conversion_elapsed(&self, us: u64) {
        let _ = self.packet_conversion_elapsed.fetch_add(us, Ordering::Relaxed);
    }

    /// The conversion time counted so far.
    pub fn packet_conversion_elapsed(&self) -> u64 {
        self.packet_conversion_elapsed.load(Ordering::Relaxed)
    }
}

/// How many transactions failed for each reason.
#[derive(Clone, Copy, Debug, PartialEq, Eq, Structural)]
pub struct TransactionErrorMetrics {
    pub account_not_found: usize,
    pub insufficient_funds: usize,
    pub account_in_use: usize,
}

/// `count + 1`, or the largest value when `count` already is the largest.
pub open spec fn bump(count: usize) -> usize {
    if count == usize::MAX {
        count
    } else {
        (count + 1) as usize
    }
}

impl Default for TransactionErrorMetrics {
    /// Counters that start at zero.
    fn default() -> (counters: Self)
        ensures
            counters == (TransactionErrorMetrics {
                account_not_found: 0,
                insufficient_funds: 0,
                account_in_use: 0,
            }),
    {
        TransactionErrorMetrics { account_not_found: 0, insufficient_funds: 0, account_in_use: 0 }
    }
}

} // verus!
