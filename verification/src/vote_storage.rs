//! The vote storage: taking votes in, and the rounds that process them.

use vstd::prelude::*;
use std::sync::Arc;
use crate::account_locks::{locks_are_valid, validate_account_locks};
use crate::bank::Bank;
use crate::candidate_batch::{CandidateBatch, UNPROCESSED_BUFFER_STEP_SIZE};
use crate::consumer::{check_fee_payer_unlocked, count_fee_payer_status, fee_payer_status};
use crate::latest_unprocessed_votes::{
    count_dropped,
    drained_packets,
    entries_of_their_packets,
    insert_votes,
    undrained_entries,
    LatestUnprocessedVotes,
    VoteBatchInsertionMetrics,
};
use crate::metrics::{BankingStageStats, LeaderSlotMetricsTracker, TransactionErrorMetrics};
use crate::packet::{
    is_usable_vote,
    share_packet,
    vote_entry,
    ImmutableDeserializedPacket,
    LatestValidatorVotePacket,
};
use crate::timing::{elapsed_since, start_measure, whole_micros};
use crate::transaction::{
    built_transaction,
    can_build,
    transaction_views,
    SanitizedTransaction,
    TransactionView,
};
use crate::vote_source::VoteSource;

verus! {

/// The most votes that one receive call takes in.
pub const MAX_NUM_VOTES_RECEIVE: usize = 10_000;

/// The pending votes of one producer, and the rounds that process them.
#[derive(Debug)]
pub struct VoteStorage {
    latest_unprocessed_votes: LatestUnprocessedVotes,
    vote_source: VoteSource,
}

/// What a [`VoteStorage`] holds.
pub struct VoteStorageView {
    /// The pending votes, in the order of the pool.
    pub votes: Seq<LatestValidatorVotePacket>,
    /// The producer that feeds the storage.
    pub vote_source: VoteSource,
    /// Whether votes in the older formats are turned away.
    pub deprecate_legacy_vote_ixs: bool,
}

impl View for VoteStorage {
    type V = VoteStorageView;

    closed spec fn view(&self) -> VoteStorageView {
        VoteStorageView {
            votes: self.latest_unprocessed_votes@,
            vote_source: self.vote_source,
            deprecate_legacy_vote_ixs: self.latest_unprocessed_votes.deprecates_legacy_vote_ixs(),
        }
    }
}

/// The pool entries that the given packets convert to, in order; a packet that
/// is no usable vote converts to none.
pub open spec fn votes_of(
    packets: Seq<Arc<ImmutableDeserializedPacket>>,
    vote_source: VoteSource,
    deprecate_legacy_vote_ixs: bool,
) -> Seq<LatestValidatorVotePacket>
    decreases packets.len(),
{
    if packets.len() == 0 {
        Seq::empty()
    } else if is_usable_vote(*packets.last(), deprecate_legacy_vote_ixs) {
        votes_of(packets.drop_last(), vote_source, deprecate_legacy_vote_ixs).push(
            vote_entry(packets.last(), vote_source),
        )
    } else {
        votes_of(packets.drop_last(), vote_source, deprecate_legacy_vote_ixs)
    }
}

/// The given packets behind reference counts.
pub open spec fn shared_packets(packets: Seq<ImmutableDeserializedPacket>) -> Seq<
    Arc<ImmutableDeserializedPacket>,
> {
    packets.map_values(|packet: ImmutableDeserializedPacket| Arc::new(packet))
}

/// Whether a packet passes the checks of a round that has not ended: its
/// transaction can be built, may lock its accounts, and has a fee payer that
/// can pay.
pub open spec fn passes_admission(bank: Bank, packet: ImmutableDeserializedPacket) -> bool {
    &&& can_build(packet, bank.vote_only)
    &&& locks_are_valid(packet.account_keys@, bank.transaction_account_lock_limit)
    &&& fee_payer_status(bank, packet.account_keys@[0]) is Ok
}

/// Whether a packet goes into the batch. Once the round has ended every
/// packet does, unchecked.
pub open spec fn should_process_packet(
    bank: Bank,
    packet: ImmutableDeserializedPacket,
    reached_end_of_slot: bool,
) -> bool {
    reached_end_of_slot || passes_admission(bank, packet)
}

/// The transactions after a packet was looked at: a packet that passes the
/// checks adds its transaction at the end.
pub open spec fn transactions_after_packet(
    transactions: Seq<TransactionView>,
    bank: Bank,
    packet: ImmutableDeserializedPacket,
    reached_end_of_slot: bool,
) -> Seq<TransactionView> {
    if !reached_end_of_slot && passes_admission(bank, packet) {
        transactions.push(built_transaction(packet))
    } else {
        transactions
    }
}

/// The error counters after a packet was looked at: they change where the fee
/// payer was checked and could not pay.
pub open spec fn counters_after_packet(
    counters: TransactionErrorMetrics,
    bank: Bank,
    packet: ImmutableDeserializedPacket,
    reached_end_of_slot: bool,
) -> TransactionErrorMetrics {
    if !reached_end_of_slot && can_build(packet, bank.vote_only) && locks_are_valid(
        packet.account_keys@,
        bank.transaction_account_lock_limit,
    ) {
        count_fee_payer_status(counters, fee_payer_status(bank, packet.account_keys@[0]))
    } else {
        counters
    }
}

/// Decides whether `packet` goes into the batch of the current round, and
/// where it does after a check, adds its transaction to `sanitized_transactions`.
///
/// After the end of the slot every packet goes in and nothing else happens.
/// Before it, the packet goes in exactly when its transaction can be built,
/// locks no more accounts than the bank allows and none twice, and has a fee
/// payer that can pay. The time that building took is added to both metrics.
pub fn consume_scan_should_process_packet(
    bank: &Bank,
    banking_stage_stats: &BankingStageStats,
    packet: &ImmutableDeserializedPacket,
    reached_end_of_slot: bool,
    error_counters: &mut TransactionErrorMetrics,
    sanitized_transactions: &mut Vec<SanitizedTransaction>,
    slot_metrics_tracker: &mut LeaderSlotMetricsTracker,
) -> (should_process: bool)
    ensures
        should_process == should_process_packet(*bank, *packet, reached_end_of_slot),
        transaction_views(final(sanitized_transactions)@) == transactions_after_packet(
            transaction_views(old(sanitized_transactions)@),
            *bank,
            *packet,
            reached_end_of_slot,
        ),
        *final(error_counters) == counters_after_packet(
            *old(error_counters),
            *bank,
            *packet,
            reached_end_of_slot,
        ),
        final(sanitized_transactions)@ == if !reached_end_of_slot && should_process {
            old(sanitized_transactions)@.push(final(sanitized_transactions)@.last())
        } else {
            old(sanitized_transactions)@
        },
        reached_end_of_slot ==> should_process && *final(slot_metrics_tracker) == *old(
            slot_metrics_tracker,
        ),
        !reached_end_of_slot && !locks_are_valid(
            packet.account_keys@,
            bank.transaction_account_lock_limit,
        ) ==> !should_process,
        final(slot_metrics_tracker).transactions_from_packets_us >= old(
            slot_metrics_tracker,
        ).transactions_from_packets_us,
{
    // Past the end of the slot the loop only has to run out: take the packet.
    if reached_end_of_slot {
        return true;
    }
    let start = start_measure();
    let maybe_sanitized_transaction = packet.build_sanitized_transaction(bank.vote_only_bank());
    let sanitization_time_us = whole_micros(&elapsed_since(&start));

    slot_metrics_tracker.increment_transactions_from_packets_us(sanitization_time_us);
    banking_stage_stats.add_packet_conversion_elapsed(sanitization_time_us);

    if let Some(sanitized_transaction) = maybe_sanitized_transaction {
        // Check the number of locks and whether there are duplicates
        if !validate_account_locks(
            sanitized_transaction.account_keys(),
            bank.get_transaction_account_lock_limit(),
        ) {
            return false;
        }
        if check_fee_payer_unlocked(bank, &sanitized_transaction, error_counters).is_err() {
            return false;
        }
        let ghost before = sanitized_transactions@;
        sanitized_transactions.push(sanitized_transaction);
        assert(transaction_views(sanitized_transactions@) =~= transaction_views(before).push(
            built_transaction(*packet),
        ));
        true
    } else {
        false
    }
}


/// The packets of a chunk that go into the batch, in order.
pub open spec fn admitted_packets(
    bank: Bank,
    chunk: Seq<Arc<ImmutableDeserializedPacket>>,
    reached_end_of_slot: bool,
) -> Seq<Arc<ImmutableDeserializedPacket>>
    decreases chunk.len(),
{
    if chunk.len() == 0 {
        Seq::empty()
    } else if should_process_packet(bank, *chunk.last(), reached_end_of_slot) {
        admitted_packets(bank, chunk.drop_last(), reached_end_of_slot).push(chunk.last())
    } else {
        admitted_packets(bank, chunk.drop_last(), reached_end_of_slot)
    }
}

/// The transactions after the packets of a chunk were looked at, in order.
pub open spec fn transactions_after_chunk(
    transactions: Seq<TransactionView>,
    bank: Bank,
    chunk: Seq<Arc<ImmutableDeserializedPacket>>,
    reached_end_of_slot: bool,
) -> Seq<TransactionView>
    decreases chunk.len(),
{
    if chunk.len() == 0 {
        transactions
    } else {
        transactions_after_packet(
            transactions_after_chunk(transactions, bank, chunk.drop_last(), reached_end_of_slot),
            bank,
            *chunk.last(),
            reached_end_of_slot,
        )
    }
}

/// The error counters after the packets of a chunk were looked at, in order.
pub open spec fn counters_after_chunk(
    counters: TransactionErrorMetrics,
    bank: Bank,
    chunk: Seq<Arc<ImmutableDeserializedPacket>>,
    reached_end_of_slot: bool,
) -> TransactionErrorMetrics
    decreases chunk.len(),
{
    if chunk.len() == 0 {
        counters
    } else {
        counters_after_packet(
            counters_after_chunk(counters, bank, chunk.drop_last(), reached_end_of_slot),
            bank,
            *chunk.last(),
            reached_end_of_slot,
        )
    }
}

/// How many batches a round makes of `packets` packets.
pub open spec fn num_chunks(packets: nat) -> nat {
    ((packets + UNPROCESSED_BUFFER_STEP_SIZE - 1) / (UNPROCESSED_BUFFER_STEP_SIZE as int)) as nat
}

/// The packets of the `k`-th chunk: the first chunk holds the first packets,
/// and every chunk but the last is full.
pub open spec fn chunk_of(packets: Seq<Arc<ImmutableDeserializedPacket>>, k: int) -> Seq<
    Arc<ImmutableDeserializedPacket>,
> {
    packets.subrange(
        k * UNPROCESSED_BUFFER_STEP_SIZE,
        if (k + 1) * UNPROCESSED_BUFFER_STEP_SIZE <= packets.len() {
            (k + 1) * UNPROCESSED_BUFFER_STEP_SIZE
        } else {
            packets.len() as int
        },
    )
}

/// Every index names a packet of a batch of `batch_len` packets.
pub open spec fn indices_in_range(retryable: Option<Seq<usize>>, batch_len: nat) -> bool {
    match retryable {
        Some(indices) => forall|i: int| 0 <= i < indices.len() ==> indices[i] < batch_len,
        None => true,
    }
}

/// The packets that go back to the pool after the processing step: those that
/// the step named, in the order in which it named them, or the whole batch
/// where it named none.
pub open spec fn retried_packets(
    batch: Seq<Arc<ImmutableDeserializedPacket>>,
    retryable: Option<Seq<usize>>,
) -> Seq<Arc<ImmutableDeserializedPacket>> {
    match retryable {
        Some(indices) => indices.map_values(|i: usize| batch[i as int]),
        None => batch,
    }
}

/// What the processing step left behind after one batch.
pub struct StepOutcome {
    /// The indices of the packets to put back, if the step named any.
    pub retryable: Option<Seq<usize>>,
    /// Whether the slot has ended.
    pub reached_end_of_slot: bool,
    /// The transactions that the step left in the list.
    pub transactions: Seq<TransactionView>,
}

/// Whether the slot had ended when the batch with number `k` was made: what
/// the step said after the batch before it, and not before the first.
#[verifier::opaque]
pub open spec fn ended_before(outcomes: Seq<StepOutcome>, k: int) -> bool {
    if k <= 0 {
        false
    } else {
        outcomes[k - 1].reached_end_of_slot
    }
}

/// The transactions that were in the list when the batch with number `k` was
/// begun: those that the step left after the batch before it, and none
/// before the first.
#[verifier::opaque]
pub open spec fn transactions_before(outcomes: Seq<StepOutcome>, k: int) -> Seq<TransactionView> {
    if k <= 0 {
        Seq::empty()
    } else {
        outcomes[k - 1].transactions
    }
}

/// The batch with number `k` of a round: the packets of the `k`-th chunk that
/// go in.
pub open spec fn batch_of(
    bank: Bank,
    drained: Seq<Arc<ImmutableDeserializedPacket>>,
    outcomes: Seq<StepOutcome>,
    k: int,
) -> Seq<Arc<ImmutableDeserializedPacket>> {
    admitted_packets(bank, chunk_of(drained, k), ended_before(outcomes, k))
}

/// The pending votes of a round after as many batches as there are outcomes.
///
/// The round starts with the votes that the drain left in the pool. After
/// each batch the packets that its outcome puts back are converted and
/// inserted, replacing pending votes of the same vote accounts.
pub open spec fn votes_after(
    undrained: Seq<LatestValidatorVotePacket>,
    bank: Bank,
    vote_source: VoteSource,
    deprecate_legacy_vote_ixs: bool,
    drained: Seq<Arc<ImmutableDeserializedPacket>>,
    outcomes: Seq<StepOutcome>,
) -> Seq<LatestValidatorVotePacket>
    decreases outcomes.len(),
{
    if outcomes.len() == 0 {
        undrained
    } else {
        insert_votes(
            votes_after(
                undrained,
                bank,
                vote_source,
                deprecate_legacy_vote_ixs,
                drained,
                outcomes.drop_last(),
            ),
            votes_of(
                retried_packets(
                    batch_of(bank, drained, outcomes, outcomes.len() - 1),
                    outcomes.last().retryable,
                ),
                vote_source,
                deprecate_legacy_vote_ixs,
            ),
            true,
        )
    }
}

/// One more outcome changes nothing of what went before it.
pub proof fn lemma_outcomes_extended(outcomes: Seq<StepOutcome>, outcome: StepOutcome)
    ensures
        forall|k: int|
            0 <= k <= outcomes.len() ==> #[trigger] ended_before(outcomes.push(outcome), k)
                == ended_before(outcomes, k),
        forall|k: int|
            0 <= k <= outcomes.len() ==> #[trigger] transactions_before(outcomes.push(outcome), k)
                == transactions_before(outcomes, k),
        ended_before(outcomes.push(outcome), outcomes.len() as int + 1) == outcome.reached_end_of_slot,
        transactions_before(outcomes.push(outcome), outcomes.len() as int + 1)
            == outcome.transactions,
{
    reveal(ended_before);
    reveal(transactions_before);
}

/// The indices that a step handed back, as a sequence.
pub open spec fn retryable_view(retryable: Option<Vec<usize>>) -> Option<Seq<usize>> {
    match retryable {
        Some(indices) => Some(indices@),
        None => None,
    }
}

/// Converts packets to pool entries and leaves out those that are no usable
/// votes.
pub fn convert_packets(
    packets: &Vec<Arc<ImmutableDeserializedPacket>>,
    vote_source: VoteSource,
    deprecate_legacy_vote_ixs: bool,
) -> (votes: Vec<LatestValidatorVotePacket>)
    ensures
        votes@ == votes_of(packets@, vote_source, deprecate_legacy_vote_ixs),
        entries_of_their_packets(votes@),
{
    let mut votes: Vec<LatestValidatorVotePacket> = Vec::new();
    let mut i: usize = 0;
    while i < packets.len()
        invariant
            i <= packets.len(),
            votes@ == votes_of(
                packets@.subrange(0, i as int),
                vote_source,
                deprecate_legacy_vote_ixs,
            ),
            entries_of_their_packets(votes@),
        decreases packets.len() - i,
    {
        assert(packets@.subrange(0, i + 1).drop_last() =~= packets@.subrange(0, i as int));
        assert(packets@.subrange(0, i + 1).last() == packets@[i as int]);
        match LatestValidatorVotePacket::new_from_immutable(
            share_packet(&packets[i]),
            vote_source,
            deprecate_legacy_vote_ixs,
        ) {
            Ok(vote) => {
                votes.push(vote);
            },
            Err(_) => {},
        }
        i = i + 1;
    }
    assert(packets@.subrange(0, i as int) =~= packets@);
    votes
}

/// Makes the batch for one chunk: empties `vote_packets`, then looks at the
/// packets `all_vote_packets[start..end]` in order and pushes those that go in.
/// Their transactions are added to `sanitized_transactions` in the same
/// order, so that before the end of the slot the transaction of the packet at
/// index `i` of the batch is the `i`-th that was added.
pub fn scan_chunk(
    bank: &Bank,
    banking_stage_stats: &BankingStageStats,
    all_vote_packets: &Vec<Arc<ImmutableDeserializedPacket>>,
    start: usize,
    end: usize,
    reached_end_of_slot: bool,
    error_counters: &mut TransactionErrorMetrics,
    sanitized_transactions: &mut Vec<SanitizedTransaction>,
    slot_metrics_tracker: &mut LeaderSlotMetricsTracker,
    vote_packets: &mut CandidateBatch,
)
    requires
        start <= end <= all_vote_packets.len(),
        end - start <= UNPROCESSED_BUFFER_STEP_SIZE,
    ensures
        final(vote_packets)@ == admitted_packets(
            *bank,
            all_vote_packets@.subrange(start as int, end as int),
            reached_end_of_slot,
        ),
        transaction_views(final(sanitized_transactions)@) == transactions_after_chunk(
            transaction_views(old(sanitized_transactions)@),
            *bank,
            all_vote_packets@.subrange(start as int, end as int),
            reached_end_of_slot,
        ),
        reached_end_of_slot ==> final(sanitized_transactions)@ == old(sanitized_transactions)@,
        *final(error_counters) == counters_after_chunk(
            *old(error_counters),
            *bank,
            all_vote_packets@.subrange(start as int, end as int),
            reached_end_of_slot,
        ),
        final(slot_metrics_tracker).transactions_from_packets_us >= old(
            slot_metrics_tracker,
        ).transactions_from_packets_us,
{
    vote_packets.clear();
    let mut i: usize = start;
    while i < end
        invariant
            start <= i <= end <= all_vote_packets.len(),
            end - start <= UNPROCESSED_BUFFER_STEP_SIZE,
            vote_packets@.len() <= i - start,
            vote_packets@ == admitted_packets(
                *bank,
                all_vote_packets@.subrange(start as int, i as int),
                reached_end_of_slot,
            ),
            transaction_views(sanitized_transactions@) == transactions_after_chunk(
                transaction_views(old(sanitized_transactions)@),
                *bank,
                all_vote_packets@.subrange(start as int, i as int),
                reached_end_of_slot,
            ),
            reached_end_of_slot ==> sanitized_transactions@ == old(sanitized_transactions)@,
            *error_counters == counters_after_chunk(
                *old(error_counters),
                *bank,
                all_vote_packets@.subrange(start as int, i as int),
                reached_end_of_slot,
            ),
            slot_metrics_tracker.transactions_from_packets_us >= old(
                slot_metrics_tracker,
            ).transactions_from_packets_us,
        decreases end - i,
    {
        assert(all_vote_packets@.subrange(start as int, i + 1).drop_last()
            =~= all_vote_packets@.subrange(start as int, i as int));
        assert(all_vote_packets@.subrange(start as int, i + 1).last() == all_vote_packets@[i as int]);
        if consume_scan_should_process_packet(
            bank,
            banking_stage_stats,
            &all_vote_packets[i],
            reached_end_of_slot,
            error_counters,
            sanitized_transactions,
            slot_metrics_tracker,
        ) {
            vote_packets.push(share_packet(&all_vote_packets[i]));
        }
        i = i + 1;
    }
}

impl VoteStorage {
    /// What holds of every storage: its pool is well formed.
    pub closed spec fn wf(&self) -> bool {
        self.latest_unprocessed_votes.wf()
    }

    /// A storage over the given pool, fed by the given producer.
    pub fn new(latest_unprocessed_votes: LatestUnprocessedVotes, vote_source: VoteSource) -> (storage:
        Self)
        requires
            latest_unprocessed_votes.wf(),
        ensures
            storage.wf(),
            storage@.votes == latest_unprocessed_votes@,
            storage@.vote_source == vote_source,
            storage@.deprecate_legacy_vote_ixs
                == latest_unprocessed_votes.deprecates_legacy_vote_ixs(),
    {
        VoteStorage { latest_unprocessed_votes, vote_source }
    }

    /// Gives the pool back, for another storage to work on.
    pub fn into_latest_unprocessed_votes(self) -> (pool: LatestUnprocessedVotes)
        requires
            self.wf(),
        ensures
            pool.wf(),
            pool@ == self@.votes,
            pool.deprecates_legacy_vote_ixs() == self@.deprecate_legacy_vote_ixs,
    {
        self.latest_unprocessed_votes
    }

    /// Whether no vote is pending.
    pub fn is_empty(&self) -> (empty: bool)
        ensures
            empty == (self@.votes.len() == 0),
    {
        self.latest_unprocessed_votes.is_empty()
    }

    /// The number of pending votes.
    pub fn len(&self) -> (len: usize)
        ensures
            len == self@.votes.len(),
    {
        self.latest_unprocessed_votes.len()
    }

    /// The most votes that one receive call takes in.
    pub fn max_receive_size(&self) -> (size: usize)
        ensures
            size == MAX_NUM_VOTES_RECEIVE,
    {
        MAX_NUM_VOTES_RECEIVE
    }

    /// Takes packets in. Those that are usable votes enter the pool, tagged
    /// with the producer of this storage; a vote for an account that already
    /// has a pending vote is turned away.
    pub fn insert_batch(&mut self, deserialized_packets: Vec<ImmutableDeserializedPacket>) -> (metrics:
        VoteBatchInsertionMetrics)
        requires
            old(self).wf(),
        ensures
            final(self).wf(),
            final(self)@.votes == insert_votes(
                old(self)@.votes,
                votes_of(
                    shared_packets(deserialized_packets@),
                    old(self)@.vote_source,
                    old(self)@.deprecate_legacy_vote_ixs,
                ),
                false,
            ),
            metrics.num_dropped_gossip == count_dropped(
                old(self)@.votes,
                votes_of(
                    shared_packets(deserialized_packets@),
                    old(self)@.vote_source,
                    old(self)@.deprecate_legacy_vote_ixs,
                ),
                false,
                VoteSource::Gossip,
            ),
            metrics.num_dropped_tpu == count_dropped(
                old(self)@.votes,
                votes_of(
                    shared_packets(deserialized_packets@),
                    old(self)@.vote_source,
                    old(self)@.deprecate_legacy_vote_ixs,
                ),
                false,
                VoteSource::Tpu,
            ),
            final(self)@.vote_source == old(self)@.vote_source,
            final(self)@.deprecate_legacy_vote_ixs == old(self)@.deprecate_legacy_vote_ixs,
    {
        let mut rest = deserialized_packets;
        let mut reversed: Vec<Arc<ImmutableDeserializedPacket>> = Vec::new();
        let ghost all = rest@;
        while rest.len() > 0
            invariant
                rest@.len() + reversed@.len() == all.len(),
                rest@ == all.subrange(0, rest@.len() as int),
                forall|j: int|
                    0 <= j < reversed@.len() ==> reversed@[j] == Arc::new(all[all.len() - 1 - j]),
            decreases rest.len(),
        {
            let packet = rest.pop().unwrap();
            reversed.push(Arc::new(packet));
        }
        let mut shared: Vec<Arc<ImmutableDeserializedPacket>> = Vec::new();
        let mut i: usize = reversed.len();
        while i > 0
            invariant
                i <= reversed@.len(),
                reversed@.len() == all.len(),
                shared@.len() == reversed@.len() - i,
                forall|j: int|
                    0 <= j < reversed@.len() ==> reversed@[j] == Arc::new(all[all.len() - 1 - j]),
                forall|j: int| 0 <= j < shared@.len() ==> shared@[j] == Arc::new(all[j]),
            decreases i,
        {
            i = i - 1;
            shared.push(share_packet(&reversed[i]));
        }
        assert(shared@ =~= shared_packets(all));
        let votes = convert_packets(
            &shared,
            self.vote_source,
            self.latest_unprocessed_votes.should_deprecate_legacy_vote_ixs(),
        );
        self.latest_unprocessed_votes.insert_batch(votes, false)
    }

    /// Puts the packets of a batch back into the pool after the processing
    /// step: those at the indices that the step named, or all of them where it
    /// named none. A packet that is put back replaces a pending vote of the
    /// same vote account.
    pub fn reinsert_retryable(
        &mut self,
        vote_packets: &mut CandidateBatch,
        retryable_vote_indices: Option<Vec<usize>>,
        deprecate_legacy_vote_ixs: bool,
    )
        requires
            old(self).wf(),
            indices_in_range(
                retryable_view(retryable_vote_indices),
                old(vote_packets)@.len(),
            ),
        ensures
            final(self).wf(),
            final(self)@.votes == insert_votes(
                old(self)@.votes,
                votes_of(
                    retried_packets(
                        old(vote_packets)@,
                        retryable_view(retryable_vote_indices),
                    ),
                    old(self)@.vote_source,
                    deprecate_legacy_vote_ixs,
                ),
                true,
            ),
            final(self)@.vote_source == old(self)@.vote_source,
            final(self)@.deprecate_legacy_vote_ixs == old(self)@.deprecate_legacy_vote_ixs,
            final(vote_packets)@ == if retryable_vote_indices is Some {
                old(vote_packets)@
            } else {
                Seq::empty()
            },
    {
        let ghost retryable = retryable_view(retryable_vote_indices);
        let ghost batch = vote_packets@;
        let retried = match retryable_vote_indices {
            Some(indices) => {
                let mut retried: Vec<Arc<ImmutableDeserializedPacket>> = Vec::new();
                let mut i: usize = 0;
                assert forall|j: int| 0 <= j < indices@.len() implies indices@[j] < batch.len() by {
                    assert(retryable->Some_0[j] < batch.len());
                }
                while i < indices.len()
                    invariant
                        i <= indices.len(),
                        vote_packets@ == batch,
                        forall|j: int| 0 <= j < indices@.len() ==> indices@[j] < batch.len(),
                        retried@ == indices@.subrange(0, i as int).map_values(
                            |i: usize| batch[i as int],
                        ),
                    decreases indices.len() - i,
                {
                    retried.push(share_packet(vote_packets.get(indices[i])));
                    assert(retried@ =~= indices@.subrange(0, i + 1).map_values(
                        |i: usize| batch[i as int],
                    ));
                    i = i + 1;
                }
                assert(indices@.subrange(0, i as int) =~= indices@);
                retried
            },
            None => vote_packets.drain(),
        };
        let votes = convert_packets(&retried, self.vote_source, deprecate_legacy_vote_ixs);
        let _ = self.latest_unprocessed_votes.insert_batch(votes, true);
    }

    /// Runs one round. Returns whether the end of the slot was reached.
    ///
    /// The votes of all staked vote accounts leave the pool and are split into
    /// chunks of at most [`UNPROCESSED_BUFFER_STEP_SIZE`] packets. For each
    /// chunk in turn the packets that go in form a batch; the processing step
    /// is called with the size of the batch, the end-of-slot flag, the
    /// transactions and the metrics; and the packets that the step names, or
    /// the whole batch where it names none, go back into the pool. After the
    /// step has set the flag the round goes on, and the packets of the chunks
    /// that are left go in unchecked.
    ///
    /// Only a storage for directly submitted votes runs rounds. The step must
    /// name only indices below the size of the batch.
    pub fn process_packets<F>(
        &mut self,
        bank: Arc<Bank>,
        banking_stage_stats: &BankingStageStats,
        slot_metrics_tracker: &mut LeaderSlotMetricsTracker,
        mut processing_function: F,
    ) -> (reached_end_of_slot: bool) where
        F: FnMut(
            usize,
            &mut bool,
            &mut Vec<SanitizedTransaction>,
            &mut LeaderSlotMetricsTracker,
        ) -> Option<Vec<usize>>,

        requires
            old(self).wf(),
            old(self)@.vote_source != VoteSource::Gossip,
            forall|
                count: usize,
                flag: &mut bool,
                transactions: &mut Vec<SanitizedTransaction>,
                tracker: &mut LeaderSlotMetricsTracker,
            |
                count <= UNPROCESSED_BUFFER_STEP_SIZE ==> call_requires(
                    processing_function,
                    (count, flag, transactions, tracker),
                ),
            forall|
                count: usize,
                flag: &mut bool,
                transactions: &mut Vec<SanitizedTransaction>,
                tracker: &mut LeaderSlotMetricsTracker,
                retryable: Option<Vec<usize>>,
            |
                call_ensures(processing_function, (count, flag, transactions, tracker), retryable)
                    ==> indices_in_range(retryable_view(retryable), count as nat),
        ensures
            final(self).wf(),
            final(self)@.vote_source == old(self)@.vote_source,
            final(self)@.deprecate_legacy_vote_ixs == old(self)@.deprecate_legacy_vote_ixs,
            ({
                let undrained = undrained_entries(old(self)@.votes, *bank);
                let drained = drained_packets(old(self)@.votes, *bank);
                exists|outcomes: Seq<StepOutcome>|
                    {
                        &&& outcomes.len() == num_chunks(drained.len())
                        &&& final(self)@.votes == #[trigger] votes_after(
                            undrained,
                            *bank,
                            old(self)@.vote_source,
                            old(self)@.deprecate_legacy_vote_ixs,
                            drained,
                            outcomes,
                        )
                        &&& reached_end_of_slot == ended_before(outcomes, outcomes.len() as int)
                        &&& forall|k: int|
                            #![trigger outcomes[k]]
                            0 <= k < outcomes.len() ==> indices_in_range(
                                outcomes[k].retryable,
                                batch_of(*bank, drained, outcomes, k).len(),
                            ) && exists|
                                count: usize,
                                flag: &mut bool,
                                transactions: &mut Vec<SanitizedTransaction>,
                                tracker: &mut LeaderSlotMetricsTracker,
                                retryable: Option<Vec<usize>>,
                            |
                                {
                                    &&& #[trigger] call_ensures(
                                        processing_function,
                                        (count, flag, transactions, tracker),
                                        retryable,
                                    )
                                    &&& count == batch_of(*bank, drained, outcomes, k).len()
                                    &&& *flag == ended_before(outcomes, k)
                                    &&& transaction_views(transactions@)
                                        == transactions_after_chunk(
                                        transactions_before(outcomes, k),
                                        *bank,
                                        chunk_of(drained, k),
                                        ended_before(outcomes, k),
                                    )
                                    &&& *final(flag) == outcomes[k].reached_end_of_slot
                                    &&& transaction_views(final(transactions)@)
                                        == outcomes[k].transactions
                                    &&& retryable_view(retryable) == outcomes[k].retryable
                                }
                    }
            }),
    {
        // Take the votes of every staked vote account out of the pool.
        let all_vote_packets = self.latest_unprocessed_votes.drain_unprocessed(&bank);
        let deprecate_legacy_vote_ixs =
            self.latest_unprocessed_votes.should_deprecate_legacy_vote_ixs();

        let mut reached_end_of_slot = false;
        let mut sanitized_transactions: Vec<SanitizedTransaction> = Vec::with_capacity(
            UNPROCESSED_BUFFER_STEP_SIZE,
        );
        let mut error_counters = TransactionErrorMetrics::default();
        let mut vote_packets = CandidateBatch::new();

        let ghost undrained = self@.votes;
        let ghost drained = all_vote_packets@;
        let ghost vote_source = self@.vote_source;
        let ghost mut outcomes: Seq<StepOutcome> = Seq::empty();
        let ghost step = processing_function;
        let mut start: usize = 0;
        proof {
            reveal(ended_before);
            reveal(transactions_before);
            assert(transaction_views(sanitized_transactions@) =~= Seq::empty());
        }
        while start < all_vote_packets.len()
            invariant
                self.wf(),
                processing_function == step,
                self@.vote_source == vote_source,
                self@.deprecate_legacy_vote_ixs == deprecate_legacy_vote_ixs,
                drained == all_vote_packets@,
                start <= all_vote_packets.len(),
                start == outcomes.len() * UNPROCESSED_BUFFER_STEP_SIZE || start
                    == all_vote_packets.len(),
                outcomes.len() > 0 ==> (outcomes.len() - 1) * UNPROCESSED_BUFFER_STEP_SIZE
                    < all_vote_packets.len(),
                start == all_vote_packets.len() ==> outcomes.len() * UNPROCESSED_BUFFER_STEP_SIZE
                    >= all_vote_packets.len(),
                self@.votes == votes_after(
                    undrained,
                    *bank,
                    vote_source,
                    deprecate_legacy_vote_ixs,
                    drained,
                    outcomes,
                ),
                reached_end_of_slot == ended_before(outcomes, outcomes.len() as int),
                transaction_views(sanitized_transactions@) == transactions_before(
                    outcomes,
                    outcomes.len() as int,
                ),
                forall|k: int|
                    #![trigger outcomes[k]]
                    0 <= k < outcomes.len() ==> indices_in_range(
                        outcomes[k].retryable,
                        batch_of(*bank, drained, outcomes, k).len(),
                    ) && exists|
                        count: usize,
                        flag: &mut bool,
                        transactions: &mut Vec<SanitizedTransaction>,
                        tracker: &mut LeaderSlotMetricsTracker,
                        retryable: Option<Vec<usize>>,
                    |
                        {
                            &&& #[trigger] call_ensures(
                                processing_function,
                                (count, flag, transactions, tracker),
                                retryable,
                            )
                            &&& count == batch_of(*bank, drained, outcomes, k).len()
                            &&& *flag == ended_before(outcomes, k)
                            &&& transaction_views(transactions@) == transactions_after_chunk(
                                transactions_before(outcomes, k),
                                *bank,
                                chunk_of(drained, k),
                                ended_before(outcomes, k),
                            )
                            &&& *final(flag) == outcomes[k].reached_end_of_slot
                            &&& transaction_views(final(transactions)@) == outcomes[k].transactions
                            &&& retryable_view(retryable) == outcomes[k].retryable
                        },
                forall|
                    count: usize,
                    flag: &mut bool,
                    transactions: &mut Vec<SanitizedTransaction>,
                    tracker: &mut LeaderSlotMetricsTracker,
                |
                    count <= UNPROCESSED_BUFFER_STEP_SIZE ==> call_requires(
                        processing_function,
                        (count, flag, transactions, tracker),
                    ),
                forall|
                    count: usize,
                    flag: &mut bool,
                    transactions: &mut Vec<SanitizedTransaction>,
                    tracker: &mut LeaderSlotMetricsTracker,
                    retryable: Option<Vec<usize>>,
                |
                    call_ensures(
                        processing_function,
                        (count, flag, transactions, tracker),
                        retryable,
                    ) ==> indices_in_range(retryable_view(retryable), count as nat),
            decreases all_vote_packets.len() - start,
        {
            let end = if all_vote_packets.len() - start > UNPROCESSED_BUFFER_STEP_SIZE {
                start + UNPROCESSED_BUFFER_STEP_SIZE
            } else {
                all_vote_packets.len()
            };
            assert(all_vote_packets@.subrange(start as int, end as int) == chunk_of(
                drained,
                outcomes.len() as int,
            ));
            scan_chunk(
                &bank,
                banking_stage_stats,
                &all_vote_packets,
                start,
                end,
                reached_end_of_slot,
                &mut error_counters,
                &mut sanitized_transactions,
                slot_metrics_tracker,
                &mut vote_packets,
            );
            let ghost ended = reached_end_of_slot;
            let ghost handed_over = transaction_views(sanitized_transactions@);
            let candidate_count = vote_packets.len();
            let retryable_vote_indices = processing_function(
                candidate_count,
                &mut reached_end_of_slot,
                &mut sanitized_transactions,
                slot_metrics_tracker,
            );
            proof {
                let outcome = StepOutcome {
                    retryable: retryable_view(retryable_vote_indices),
                    reached_end_of_slot,
                    transactions: transaction_views(sanitized_transactions@),
                };
                let earlier = outcomes;
                assert(exists|
                    count: usize,
                    flag: &mut bool,
                    transactions: &mut Vec<SanitizedTransaction>,
                    tracker: &mut LeaderSlotMetricsTracker,
                    retryable: Option<Vec<usize>>,
                |
                    {
                        &&& #[trigger] call_ensures(
                            processing_function,
                            (count, flag, transactions, tracker),
                            retryable,
                        )
                        &&& count == candidate_count
                        &&& *flag == ended
                        &&& transaction_views(transactions@) == handed_over
                        &&& *final(flag) == outcome.reached_end_of_slot
                        &&& transaction_views(final(transactions)@) == outcome.transactions
                        &&& retryable_view(retryable) == outcome.retryable
                    });
                assert(outcomes.push(outcome).drop_last() =~= outcomes);
                outcomes = outcomes.push(outcome);
                lemma_outcomes_extended(earlier, outcome);
                assert forall|k: int|
                    #![trigger outcomes[k]]
                    0 <= k < outcomes.len() implies indices_in_range(
                    outcomes[k].retryable,
                    batch_of(*bank, drained, outcomes, k).len(),
                ) && exists|
                    count: usize,
                    flag: &mut bool,
                    transactions: &mut Vec<SanitizedTransaction>,
                    tracker: &mut LeaderSlotMetricsTracker,
                    retryable: Option<Vec<usize>>,
                |
                    {
                        &&& #[trigger] call_ensures(
                            processing_function,
                            (count, flag, transactions, tracker),
                            retryable,
                        )
                        &&& count == batch_of(*bank, drained, outcomes, k).len()
                        &&& *flag == ended_before(outcomes, k)
                        &&& transaction_views(transactions@) == transactions_after_chunk(
                            transactions_before(outcomes, k),
                            *bank,
                            chunk_of(drained, k),
                            ended_before(outcomes, k),
                        )
                        &&& *final(flag) == outcomes[k].reached_end_of_slot
                        &&& transaction_views(final(transactions)@) == outcomes[k].transactions
                        &&& retryable_view(retryable) == outcomes[k].retryable
                    } by {
                    if k < earlier.len() {
                        assert(outcomes[k] == earlier[k]);
                        assert(ended_before(outcomes, k) == ended_before(earlier, k));
                        assert(transactions_before(outcomes, k) == transactions_before(earlier, k));
                    } else {
                        assert(outcomes[k] == outcome);
                        assert(ended_before(outcomes, k) == ended);
                    }
                }
            }
            self.reinsert_retryable(
                &mut vote_packets,
                retryable_vote_indices,
                deprecate_legacy_vote_ixs,
            );
            start = end;
        }
        assert(self@.votes == votes_after(
            undrained_entries(old(self)@.votes, *bank),
            *bank,
            old(self)@.vote_source,
            old(self)@.deprecate_legacy_vote_ixs,
            drained_packets(old(self)@.votes, *bank),
            outcomes,
        ));
        reached_end_of_slot
    }

    /// Forgets every pending vote.
    pub fn clear(&mut self)
        ensures
            final(self).wf(),
            final(self)@.votes == Seq::<LatestValidatorVotePacket>::empty(),
            final(self)@.vote_source == old(self)@.vote_source,
            final(self)@.deprecate_legacy_vote_ixs == old(self)@.deprecate_legacy_vote_ixs,
    {
        self.latest_unprocessed_votes.clear();
    }

    /// Takes over from the bank what may have changed at the boundary of an
    /// epoch. Only a storage for directly submitted votes does this.
    pub fn cache_epoch_boundary_info(&mut self, bank: &Bank)
        requires
            old(self).wf(),
            old(self)@.vote_source != VoteSource::Gossip,
        ensures
            final(self).wf(),
            final(self)@.votes == old(self)@.votes,
            final(self)@.vote_source == old(self)@.vote_source,
            final(self)@.deprecate_legacy_vote_ixs == bank.deprecate_legacy_vote_ixs,
    {
        self.latest_unprocessed_votes.cache_epoch_boundary_info(bank);
    }

    /// Whether the scheduler should pass this storage over: votes heard over
    /// gossip are processed elsewhere.
    pub fn should_not_process(&self) -> (skip: bool)
        ensures
            skip == (self@.vote_source == VoteSource::Gossip),
    {
        match self.vote_source {
            VoteSource::Gossip => true,
            VoteSource::Tpu => false,
        }
    }
}

} // verus!
