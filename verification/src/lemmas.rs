//! What holds of insertions and of rounds, whatever the processing step does.

use vstd::prelude::*;
use std::sync::Arc;
use crate::bank::Bank;
use crate::candidate_batch::UNPROCESSED_BUFFER_STEP_SIZE;
use crate::latest_unprocessed_votes::{
    by_stake,
    distinct_vote_accounts,
    drained_entries,
    drained_packets,
    entries_of_their_packets,
    has_vote_account,
    insert_vote,
    insert_votes,
    is_staked,
    lemma_by_stake_keeps_distinct,
    lemma_by_stake_keeps_entries,
    lemma_drain_splits,
    undrained_entries,
};
use crate::packet::{
    is_entry_of_its_packet,
    is_usable_vote,
    vote_entry,
    ImmutableDeserializedPacket,
    LatestValidatorVotePacket,
};
use crate::transaction::{built_transaction, TransactionView};
use crate::vote_source::VoteSource;
use crate::vote_storage::{
    admitted_packets,
    batch_of,
    chunk_of,
    ended_before,
    num_chunks,
    passes_admission,
    retried_packets,
    votes_after,
    should_process_packet,
    transactions_after_chunk,
    votes_of,
    StepOutcome,
};

verus! {

/// The indices of a batch of `len` packets, in order.
pub open spec fn all_indices(len: nat) -> Seq<usize> {
    Seq::new(len, |i: int| i as usize)
}

/// How many of the packets are usable votes.
pub open spec fn count_usable(
    packets: Seq<Arc<ImmutableDeserializedPacket>>,
    deprecate_legacy_vote_ixs: bool,
) -> nat
    decreases packets.len(),
{
    if packets.len() == 0 {
        0
    } else if is_usable_vote(*packets.last(), deprecate_legacy_vote_ixs) {
        count_usable(packets.drop_last(), deprecate_legacy_vote_ixs) + 1
    } else {
        count_usable(packets.drop_last(), deprecate_legacy_vote_ixs)
    }
}

/// Votes for accounts that have no pending vote, no two of them for the same
/// account, are all added at the end of the pool, whether or not pending
/// votes may be replaced.
pub proof fn lemma_insert_new_accounts(
    entries: Seq<LatestValidatorVotePacket>,
    votes: Seq<LatestValidatorVotePacket>,
    replenish: bool,
)
    requires
        distinct_vote_accounts(entries + votes),
    ensures
        insert_votes(entries, votes, replenish) == entries + votes,
    decreases votes.len(),
{
    if votes.len() == 0 {
        assert(entries + votes =~= entries);
    } else {
        let earlier = votes.drop_last();
        let joined = entries + votes;
        assert forall|i: int, j: int| 0 <= i < j < (entries + earlier).len() implies (entries
            + earlier)[i].vote_pubkey != (entries + earlier)[j].vote_pubkey by {
            assert((entries + earlier)[i] == joined[i]);
            assert((entries + earlier)[j] == joined[j]);
        }
        lemma_insert_new_accounts(entries, earlier, replenish);
        let before = entries + earlier;
        assert forall|i: int| 0 <= i < before.len() implies #[trigger] before[i].vote_pubkey
            != votes.last().vote_pubkey by {
            assert(before[i] == joined[i]);
            assert(joined[joined.len() - 1] == votes.last());
        }
        assert(!has_vote_account(before, votes.last().vote_pubkey));
        assert(before.push(votes.last()) =~= joined);
    }
}

/// One vote makes the pool longer by one entry at most, and never shorter.
pub proof fn lemma_insert_vote_len(
    entries: Seq<LatestValidatorVotePacket>,
    vote: LatestValidatorVotePacket,
    replenish: bool,
)
    ensures
        entries.len() <= insert_vote(entries, vote, replenish).len() <= entries.len() + 1,
        has_vote_account(entries, vote.vote_pubkey) ==> insert_vote(entries, vote, replenish).len()
            == entries.len(),
{
}

/// An insertion makes the pool longer by the number of votes at most, and
/// never shorter.
pub proof fn lemma_insert_votes_len(
    entries: Seq<LatestValidatorVotePacket>,
    votes: Seq<LatestValidatorVotePacket>,
    replenish: bool,
)
    ensures
        entries.len() <= insert_votes(entries, votes, replenish).len() <= entries.len()
            + votes.len(),
    decreases votes.len(),
{
    if votes.len() > 0 {
        lemma_insert_votes_len(entries, votes.drop_last(), replenish);
        lemma_insert_vote_len(
            insert_votes(entries, votes.drop_last(), replenish),
            votes.last(),
            replenish,
        );
    }
}

/// Packets convert to as many pool entries as there are usable votes among
/// them: a packet that is no usable vote adds nothing.
pub proof fn lemma_votes_of_len(
    packets: Seq<Arc<ImmutableDeserializedPacket>>,
    vote_source: VoteSource,
    deprecate_legacy_vote_ixs: bool,
)
    ensures
        votes_of(packets, vote_source, deprecate_legacy_vote_ixs).len() == count_usable(
            packets,
            deprecate_legacy_vote_ixs,
        ),
    decreases packets.len(),
{
    if packets.len() > 0 {
        lemma_votes_of_len(packets.drop_last(), vote_source, deprecate_legacy_vote_ixs);
    }
}

/// Converting two lists of packets one after the other is converting the
/// joined list.
pub proof fn lemma_votes_of_concat(
    first: Seq<Arc<ImmutableDeserializedPacket>>,
    second: Seq<Arc<ImmutableDeserializedPacket>>,
    vote_source: VoteSource,
    deprecate_legacy_vote_ixs: bool,
)
    ensures
        votes_of(first + second, vote_source, deprecate_legacy_vote_ixs) == votes_of(
            first,
            vote_source,
            deprecate_legacy_vote_ixs,
        ) + votes_of(second, vote_source, deprecate_legacy_vote_ixs),
    decreases second.len(),
{
    if second.len() == 0 {
        assert(first + second =~= first);
        assert(votes_of(first, vote_source, deprecate_legacy_vote_ixs) + votes_of(
            second,
            vote_source,
            deprecate_legacy_vote_ixs,
        ) =~= votes_of(first, vote_source, deprecate_legacy_vote_ixs));
    } else {
        lemma_votes_of_concat(first, second.drop_last(), vote_source, deprecate_legacy_vote_ixs);
        assert((first + second).drop_last() =~= first + second.drop_last());
        assert((first + second).last() == second.last());
        let a = votes_of(first, vote_source, deprecate_legacy_vote_ixs);
        let b = votes_of(second.drop_last(), vote_source, deprecate_legacy_vote_ixs);
        assert((a + b).push(vote_entry(second.last(), vote_source)) =~= a + b.push(
            vote_entry(second.last(), vote_source),
        ));
    }
}

/// Where every packet is a usable vote, each converts to its own entry.
pub proof fn lemma_votes_of_usable(
    packets: Seq<Arc<ImmutableDeserializedPacket>>,
    vote_source: VoteSource,
    deprecate_legacy_vote_ixs: bool,
)
    requires
        forall|i: int|
            0 <= i < packets.len() ==> is_usable_vote(*#[trigger] packets[i], deprecate_legacy_vote_ixs),
    ensures
        votes_of(packets, vote_source, deprecate_legacy_vote_ixs) == packets.map_values(
            |packet: Arc<ImmutableDeserializedPacket>| vote_entry(packet, vote_source),
        ),
    decreases packets.len(),
{
    if packets.len() > 0 {
        assert forall|i: int| 0 <= i < packets.drop_last().len() implies is_usable_vote(
            *#[trigger] packets.drop_last()[i],
            deprecate_legacy_vote_ixs,
        ) by {
            assert(packets.drop_last()[i] == packets[i]);
        }
        lemma_votes_of_usable(packets.drop_last(), vote_source, deprecate_legacy_vote_ixs);
        assert(is_usable_vote(*packets[packets.len() - 1], deprecate_legacy_vote_ixs));
    }
    assert(votes_of(packets, vote_source, deprecate_legacy_vote_ixs) =~= packets.map_values(
        |packet: Arc<ImmutableDeserializedPacket>| vote_entry(packet, vote_source),
    ));
}

/// A step that names every index of the batch in order puts back the same
/// packets as a step that names none: the whole batch.
pub proof fn lemma_all_indices_is_whole_batch(batch: Seq<Arc<ImmutableDeserializedPacket>>)
    requires
        batch.len() <= usize::MAX,
    ensures
        retried_packets(batch, Some(all_indices(batch.len()))) == batch,
        retried_packets(batch, Some(all_indices(batch.len()))) == retried_packets(batch, None),
{
    assert(retried_packets(batch, Some(all_indices(batch.len()))) =~= batch);
}

/// After the end of the slot every packet of a chunk goes into the batch, in
/// order, and no transaction is built.
pub proof fn lemma_end_of_slot_admits_all(
    bank: Bank,
    chunk: Seq<Arc<ImmutableDeserializedPacket>>,
    transactions: Seq<TransactionView>,
)
    ensures
        admitted_packets(bank, chunk, true) == chunk,
        transactions_after_chunk(transactions, bank, chunk, true) == transactions,
    decreases chunk.len(),
{
    if chunk.len() > 0 {
        lemma_end_of_slot_admits_all(bank, chunk.drop_last(), transactions);
        assert(chunk.drop_last().push(chunk.last()) =~= chunk);
    } else {
        assert(admitted_packets(bank, chunk, true) =~= chunk);
    }
}

/// A chunk of which every packet goes in makes a batch of the whole chunk.
pub proof fn lemma_admits_whole_chunk(
    bank: Bank,
    chunk: Seq<Arc<ImmutableDeserializedPacket>>,
    reached_end_of_slot: bool,
)
    requires
        forall|i: int|
            0 <= i < chunk.len() ==> should_process_packet(
                bank,
                *#[trigger] chunk[i],
                reached_end_of_slot,
            ),
    ensures
        admitted_packets(bank, chunk, reached_end_of_slot) == chunk,
    decreases chunk.len(),
{
    if chunk.len() > 0 {
        assert forall|i: int| 0 <= i < chunk.drop_last().len() implies should_process_packet(
            bank,
            *#[trigger] chunk.drop_last()[i],
            reached_end_of_slot,
        ) by {
            assert(chunk.drop_last()[i] == chunk[i]);
        }
        lemma_admits_whole_chunk(bank, chunk.drop_last(), reached_end_of_slot);
        assert(should_process_packet(bank, *chunk[chunk.len() - 1], reached_end_of_slot));
        assert(chunk.drop_last().push(chunk.last()) =~= chunk);
    } else {
        assert(admitted_packets(bank, chunk, reached_end_of_slot) =~= chunk);
    }
}

/// Before the end of the slot the batch holds, in the order of the chunk,
/// exactly the packets that pass the checks, and the transactions that were
/// added are theirs, in the same order: the transaction of the packet at
/// index `i` of the batch is the `i`-th that was added. A packet that locks
/// too many accounts, or one twice, is in neither.
pub proof fn lemma_batch_matches_transactions(
    bank: Bank,
    chunk: Seq<Arc<ImmutableDeserializedPacket>>,
    transactions: Seq<TransactionView>,
)
    ensures
        transactions_after_chunk(transactions, bank, chunk, false) == transactions
            + admitted_packets(bank, chunk, false).map_values(
            |packet: Arc<ImmutableDeserializedPacket>| built_transaction(*packet),
        ),
        admitted_packets(bank, chunk, false).len() <= chunk.len(),
        forall|i: int|
            0 <= i < admitted_packets(bank, chunk, false).len() ==> passes_admission(
                bank,
                *#[trigger] admitted_packets(bank, chunk, false)[i],
            ),
    decreases chunk.len(),
{
    let build = |packet: Arc<ImmutableDeserializedPacket>| built_transaction(*packet);
    if chunk.len() > 0 {
        lemma_batch_matches_transactions(bank, chunk.drop_last(), transactions);
        let earlier = admitted_packets(bank, chunk.drop_last(), false);
        assert(transactions + earlier.push(chunk.last()).map_values(build) =~= (transactions
            + earlier.map_values(build)).push(built_transaction(*chunk.last())));
    } else {
        assert(transactions + admitted_packets(bank, chunk, false).map_values(build)
            =~= transactions);
    }
}


/// Taking packets in adds exactly as many entries as there are usable votes
/// among them, where these are for vote accounts without a pending vote and
/// no two of them are for the same account. The new entries stand at the end
/// of the pool, in the order of the packets.
pub proof fn lemma_insert_adds_usable_votes(
    votes: Seq<LatestValidatorVotePacket>,
    packets: Seq<Arc<ImmutableDeserializedPacket>>,
    vote_source: VoteSource,
    deprecate_legacy_vote_ixs: bool,
)
    requires
        distinct_vote_accounts(votes + votes_of(packets, vote_source, deprecate_legacy_vote_ixs)),
    ensures
        insert_votes(
            votes,
            votes_of(packets, vote_source, deprecate_legacy_vote_ixs),
            false,
        ) == votes + votes_of(packets, vote_source, deprecate_legacy_vote_ixs),
        insert_votes(
            votes,
            votes_of(packets, vote_source, deprecate_legacy_vote_ixs),
            false,
        ).len() == votes.len() + count_usable(packets, deprecate_legacy_vote_ixs),
{
    lemma_insert_new_accounts(
        votes,
        votes_of(packets, vote_source, deprecate_legacy_vote_ixs),
        false,
    );
    lemma_votes_of_len(packets, vote_source, deprecate_legacy_vote_ixs);
}

/// Taking packets in never adds more entries than there are usable votes
/// among them, and removes none: packets that are no usable votes leave the
/// length of the pool as it was.
pub proof fn lemma_insert_adds_at_most_usable_votes(
    votes: Seq<LatestValidatorVotePacket>,
    packets: Seq<Arc<ImmutableDeserializedPacket>>,
    vote_source: VoteSource,
    deprecate_legacy_vote_ixs: bool,
    replenish: bool,
)
    ensures
        votes.len() <= insert_votes(
            votes,
            votes_of(packets, vote_source, deprecate_legacy_vote_ixs),
            replenish,
        ).len() <= votes.len() + count_usable(packets, deprecate_legacy_vote_ixs),
        count_usable(packets, deprecate_legacy_vote_ixs) == 0 ==> insert_votes(
            votes,
            votes_of(packets, vote_source, deprecate_legacy_vote_ixs),
            replenish,
        ) == votes,
{
    lemma_insert_votes_len(
        votes,
        votes_of(packets, vote_source, deprecate_legacy_vote_ixs),
        replenish,
    );
    lemma_votes_of_len(packets, vote_source, deprecate_legacy_vote_ixs);
}

/// The step puts the whole batch back: it names every index in order, or none.
pub open spec fn gives_back_whole_batch(retryable: Option<Seq<usize>>, batch_len: nat) -> bool {
    match retryable {
        Some(indices) => indices == all_indices(batch_len),
        None => true,
    }
}

/// The first `count` drained packets, once they are usable votes, convert to
/// entries for vote accounts that the drain left no vote of, each for another
/// account.
proof fn lemma_drained_votes_are_new(
    votes: Seq<LatestValidatorVotePacket>,
    bank: Bank,
    vote_source: VoteSource,
    deprecate_legacy_vote_ixs: bool,
    count: int,
)
    requires
        distinct_vote_accounts(votes),
        entries_of_their_packets(votes),
        0 <= count <= drained_packets(votes, bank).len(),
        forall|i: int|
            0 <= i < count ==> is_usable_vote(
                *#[trigger] drained_packets(votes, bank)[i],
                deprecate_legacy_vote_ixs,
            ),
    ensures
        distinct_vote_accounts(
            undrained_entries(votes, bank) + votes_of(
                drained_packets(votes, bank).subrange(0, count),
                vote_source,
                deprecate_legacy_vote_ixs,
            ),
        ),
        votes_of(
            drained_packets(votes, bank).subrange(0, count),
            vote_source,
            deprecate_legacy_vote_ixs,
        ).len() == count,
{
    let kept = undrained_entries(votes, bank);
    let taken = by_stake(drained_entries(votes, bank), bank);
    let first = drained_packets(votes, bank).subrange(0, count);
    lemma_drain_splits(votes, bank);
    lemma_by_stake_keeps_entries(drained_entries(votes, bank), bank);
    lemma_by_stake_keeps_distinct(drained_entries(votes, bank), bank);
    assert forall|i: int| 0 <= i < first.len() implies is_usable_vote(
        *#[trigger] first[i],
        deprecate_legacy_vote_ixs,
    ) by {
        assert(first[i] == drained_packets(votes, bank)[i]);
    }
    lemma_votes_of_usable(first, vote_source, deprecate_legacy_vote_ixs);
    let converted = votes_of(first, vote_source, deprecate_legacy_vote_ixs);
    let joined = kept + converted;
    assert forall|i: int| 0 <= i < taken.len() implies is_staked(bank, #[trigger] taken[i])
        && is_entry_of_its_packet(taken[i]) by {
        assert(drained_entries(votes, bank).contains(taken[i]));
    }
    assert forall|i: int, j: int| 0 <= i < j < joined.len() implies joined[i].vote_pubkey
        != joined[j].vote_pubkey by {
        if i >= kept.len() {
            assert(first[i - kept.len()] == taken[i - kept.len()].vote);
            assert(joined[i].vote_pubkey == taken[i - kept.len()].vote_pubkey);
            assert(first[j - kept.len()] == taken[j - kept.len()].vote);
            assert(joined[j].vote_pubkey == taken[j - kept.len()].vote_pubkey);
        } else if j >= kept.len() {
            assert(first[j - kept.len()] == taken[j - kept.len()].vote);
            assert(joined[j].vote_pubkey == taken[j - kept.len()].vote_pubkey);
            assert(is_staked(bank, taken[j - kept.len()]));
            assert(!is_staked(bank, kept[i]));
        }
    }
}

/// Dropping the last outcome changes nothing of what went before it.
proof fn lemma_ended_before_earlier(outcomes: Seq<StepOutcome>, k: int)
    requires
        0 <= k < outcomes.len(),
    ensures
        ended_before(outcomes.drop_last(), k) == ended_before(outcomes, k),
{
    reveal(ended_before);
}

/// The end of the drained packets that were in a batch after `batches` batches.
pub open spec fn end_of_batches(drained_len: nat, batches: nat) -> int {
    if batches * UNPROCESSED_BUFFER_STEP_SIZE <= drained_len {
        batches * UNPROCESSED_BUFFER_STEP_SIZE
    } else {
        drained_len as int
    }
}

/// One batch that holds its whole chunk of usable votes and goes back whole
/// adds the votes of the chunk to the pool.
proof fn lemma_whole_batch_goes_back(
    votes: Seq<LatestValidatorVotePacket>,
    bank: Bank,
    vote_source: VoteSource,
    deprecate_legacy_vote_ixs: bool,
    k: nat,
    ended: bool,
    retryable: Option<Seq<usize>>,
)
    requires
        distinct_vote_accounts(votes),
        entries_of_their_packets(votes),
        k * UNPROCESSED_BUFFER_STEP_SIZE < drained_packets(votes, bank).len(),
        gives_back_whole_batch(
            retryable,
            admitted_packets(bank, chunk_of(drained_packets(votes, bank), k as int), ended).len(),
        ),
        forall|i: int|
            0 <= i < end_of_batches(drained_packets(votes, bank).len(), k + 1) ==> is_usable_vote(
                *#[trigger] drained_packets(votes, bank)[i],
                deprecate_legacy_vote_ixs,
            ),
        forall|i: int|
            k * UNPROCESSED_BUFFER_STEP_SIZE <= i < end_of_batches(
                drained_packets(votes, bank).len(),
                k + 1,
            ) ==> should_process_packet(bank, *#[trigger] drained_packets(votes, bank)[i], ended),
    ensures
        insert_votes(
            undrained_entries(votes, bank) + votes_of(
                drained_packets(votes, bank).subrange(
                    0,
                    end_of_batches(drained_packets(votes, bank).len(), k),
                ),
                vote_source,
                deprecate_legacy_vote_ixs,
            ),
            votes_of(
                retried_packets(
                    admitted_packets(
                        bank,
                        chunk_of(drained_packets(votes, bank), k as int),
                        ended,
                    ),
                    retryable,
                ),
                vote_source,
                deprecate_legacy_vote_ixs,
            ),
            true,
        ) == undrained_entries(votes, bank) + votes_of(
            drained_packets(votes, bank).subrange(
                0,
                end_of_batches(drained_packets(votes, bank).len(), k + 1),
            ),
            vote_source,
            deprecate_legacy_vote_ixs,
        ),
{
    let kept = undrained_entries(votes, bank);
    let drained = drained_packets(votes, bank);
    let start = k * UNPROCESSED_BUFFER_STEP_SIZE;
    let end = end_of_batches(drained.len(), k + 1);
    let chunk = chunk_of(drained, k as int);
    assert(end_of_batches(drained.len(), k) == start);
    assert(chunk == drained.subrange(start, end));
    assert forall|j: int| 0 <= j < chunk.len() implies should_process_packet(
        bank,
        *#[trigger] chunk[j],
        ended,
    ) by {
        assert(chunk[j] == drained[start + j]);
    }
    lemma_admits_whole_chunk(bank, chunk, ended);
    let batch = admitted_packets(bank, chunk, ended);
    lemma_all_indices_is_whole_batch(batch);
    assert(retried_packets(batch, retryable) == chunk);
    let done = drained.subrange(0, start);
    assert(done + chunk =~= drained.subrange(0, end));
    lemma_votes_of_concat(done, chunk, vote_source, deprecate_legacy_vote_ixs);
    lemma_drained_votes_are_new(votes, bank, vote_source, deprecate_legacy_vote_ixs, end);
    let old_votes = votes_of(done, vote_source, deprecate_legacy_vote_ixs);
    let new_votes = votes_of(chunk, vote_source, deprecate_legacy_vote_ixs);
    assert((kept + old_votes) + new_votes =~= kept + (old_votes + new_votes));
    lemma_insert_new_accounts(kept + old_votes, new_votes, true);
}

/// Where every batch holds its whole chunk of usable votes and goes back
/// whole, the pool after any number of batches holds the votes that the drain
/// left, followed by the votes of all packets that were in a batch so far.
pub proof fn lemma_whole_batches_go_back(
    votes: Seq<LatestValidatorVotePacket>,
    bank: Bank,
    vote_source: VoteSource,
    deprecate_legacy_vote_ixs: bool,
    outcomes: Seq<StepOutcome>,
)
    requires
        distinct_vote_accounts(votes),
        entries_of_their_packets(votes),
        outcomes.len() <= num_chunks(drained_packets(votes, bank).len()),
        forall|k: int|
            0 <= k < outcomes.len() ==> gives_back_whole_batch(
                (#[trigger] outcomes[k]).retryable,
                batch_of(bank, drained_packets(votes, bank), outcomes, k).len(),
            ),
        forall|i: int|
            0 <= i < drained_packets(votes, bank).len() && i / (UNPROCESSED_BUFFER_STEP_SIZE as int)
                < outcomes.len() ==> {
                &&& should_process_packet(
                    bank,
                    *#[trigger] drained_packets(votes, bank)[i],
                    ended_before(outcomes, i / (UNPROCESSED_BUFFER_STEP_SIZE as int)),
                )
                &&& is_usable_vote(
                    *drained_packets(votes, bank)[i],
                    deprecate_legacy_vote_ixs,
                )
            },
    ensures
        votes_after(
            undrained_entries(votes, bank),
            bank,
            vote_source,
            deprecate_legacy_vote_ixs,
            drained_packets(votes, bank),
            outcomes,
        ) == undrained_entries(votes, bank) + votes_of(
            drained_packets(votes, bank).subrange(
                0,
                end_of_batches(drained_packets(votes, bank).len(), outcomes.len()),
            ),
            vote_source,
            deprecate_legacy_vote_ixs,
        ),
    decreases outcomes.len(),
{
    let kept = undrained_entries(votes, bank);
    let drained = drained_packets(votes, bank);
    let step = UNPROCESSED_BUFFER_STEP_SIZE as int;
    if outcomes.len() == 0 {
        assert(drained.subrange(0, 0) =~= Seq::empty());
        assert(kept + votes_of(
            drained.subrange(0, 0),
            vote_source,
            deprecate_legacy_vote_ixs,
        ) =~= kept);
    } else {
        let earlier = outcomes.drop_last();
        let k = (outcomes.len() - 1) as nat;
        assert forall|j: int| 0 <= j < earlier.len() implies gives_back_whole_batch(
            (#[trigger] earlier[j]).retryable,
            batch_of(bank, drained, earlier, j).len(),
        ) by {
            assert(earlier[j] == outcomes[j]);
            lemma_ended_before_earlier(outcomes, j);
        }
        assert forall|i: int| 0 <= i < drained.len() && i / step < earlier.len() implies {
            &&& should_process_packet(bank, *#[trigger] drained[i], ended_before(earlier, i / step))
            &&& is_usable_vote(*drained[i], deprecate_legacy_vote_ixs)
        } by {
            lemma_ended_before_earlier(outcomes, i / step);
        }
        lemma_whole_batches_go_back(votes, bank, vote_source, deprecate_legacy_vote_ixs, earlier);
        let ended = ended_before(outcomes, k as int);
        let end = end_of_batches(drained.len(), k + 1);
        assert forall|i: int| 0 <= i < end implies is_usable_vote(
            *#[trigger] drained[i],
            deprecate_legacy_vote_ixs,
        ) by {
            assert(i / step < outcomes.len());
        }
        assert forall|i: int| k * step <= i < end implies should_process_packet(
            bank,
            *#[trigger] drained[i],
            ended,
        ) by {
            assert(i / step == k);
        }
        assert(gives_back_whole_batch(
            outcomes[k as int].retryable,
            batch_of(bank, drained, outcomes, k as int).len(),
        ));
        lemma_whole_batch_goes_back(
            votes,
            bank,
            vote_source,
            deprecate_legacy_vote_ixs,
            k,
            ended,
            outcomes.last().retryable,
        );
    }
}

/// A round in which every drained packet is a usable vote and goes into its
/// batch, and in which the step puts every batch back whole, leaves the pool
/// as long as it was: no vote is lost.
pub proof fn lemma_round_trip_keeps_length(
    votes: Seq<LatestValidatorVotePacket>,
    bank: Bank,
    vote_source: VoteSource,
    deprecate_legacy_vote_ixs: bool,
    outcomes: Seq<StepOutcome>,
)
    requires
        distinct_vote_accounts(votes),
        entries_of_their_packets(votes),
        outcomes.len() == num_chunks(drained_packets(votes, bank).len()),
        forall|k: int|
            0 <= k < outcomes.len() ==> gives_back_whole_batch(
                (#[trigger] outcomes[k]).retryable,
                batch_of(bank, drained_packets(votes, bank), outcomes, k).len(),
            ),
        forall|i: int|
            0 <= i < drained_packets(votes, bank).len() ==> {
                &&& should_process_packet(
                    bank,
                    *#[trigger] drained_packets(votes, bank)[i],
                    ended_before(outcomes, i / (UNPROCESSED_BUFFER_STEP_SIZE as int)),
                )
                &&& is_usable_vote(
                    *drained_packets(votes, bank)[i],
                    deprecate_legacy_vote_ixs,
                )
            },
    ensures
        votes_after(
            undrained_entries(votes, bank),
            bank,
            vote_source,
            deprecate_legacy_vote_ixs,
            drained_packets(votes, bank),
            outcomes,
        ).len() == votes.len(),
{
    let drained = drained_packets(votes, bank);
    lemma_whole_batches_go_back(votes, bank, vote_source, deprecate_legacy_vote_ixs, outcomes);
    lemma_drained_votes_are_new(
        votes,
        bank,
        vote_source,
        deprecate_legacy_vote_ixs,
        drained.len() as int,
    );
    lemma_drain_splits(votes, bank);
    lemma_by_stake_keeps_entries(drained_entries(votes, bank), bank);
    assert(end_of_batches(drained.len(), outcomes.len()) == drained.len());
    assert(drained.subrange(0, drained.len() as int) =~= drained);
}


/// The slot has not ended before the first batch, and before every later
/// batch it has ended exactly if the step said so after the batch before.
pub proof fn lemma_end_of_slot_follows_the_step(outcomes: Seq<StepOutcome>)
    ensures
        !ended_before(outcomes, 0),
        forall|k: int|
            0 < k <= outcomes.len() ==> #[trigger] ended_before(outcomes, k) == outcomes[k
                - 1].reached_end_of_slot,
{
    reveal(ended_before);
}

/// Where every step leaves the end-of-slot flag as it found it, the slot has
/// not ended before any batch, nor at the end of the round.
pub proof fn lemma_end_of_slot_stays_unset(outcomes: Seq<StepOutcome>, k: int)
    requires
        0 <= k <= outcomes.len(),
        forall|j: int|
            0 <= j < outcomes.len() ==> (#[trigger] outcomes[j]).reached_end_of_slot
                == ended_before(outcomes, j),
    ensures
        !ended_before(outcomes, k),
    decreases k,
{
    reveal(ended_before);
    if k > 0 {
        lemma_end_of_slot_stays_unset(outcomes, k - 1);
        assert(outcomes[k - 1].reached_end_of_slot == ended_before(outcomes, k - 1));
    }
}


/// A batch never holds more packets than its chunk.
pub proof fn lemma_batch_is_no_longer_than_chunk(
    bank: Bank,
    chunk: Seq<Arc<ImmutableDeserializedPacket>>,
    reached_end_of_slot: bool,
)
    ensures
        admitted_packets(bank, chunk, reached_end_of_slot).len() <= chunk.len(),
    decreases chunk.len(),
{
    if chunk.len() > 0 {
        lemma_batch_is_no_longer_than_chunk(bank, chunk.drop_last(), reached_end_of_slot);
    }
}

/// A round makes as many batches as it takes to hold all drained packets in
/// chunks of 64: none for no packet, and otherwise full chunks followed by
/// one last chunk that holds at least one packet. No batch holds more than 64
/// packets.
pub proof fn lemma_chunks(
    bank: Bank,
    drained: Seq<Arc<ImmutableDeserializedPacket>>,
    outcomes: Seq<StepOutcome>,
    k: int,
)
    requires
        0 <= k < num_chunks(drained.len()),
    ensures
        (num_chunks(drained.len()) - 1) * UNPROCESSED_BUFFER_STEP_SIZE < drained.len()
            <= num_chunks(drained.len()) * UNPROCESSED_BUFFER_STEP_SIZE,
        1 <= chunk_of(drained, k).len() <= UNPROCESSED_BUFFER_STEP_SIZE,
        k < num_chunks(drained.len()) - 1 ==> chunk_of(drained, k).len()
            == UNPROCESSED_BUFFER_STEP_SIZE,
        batch_of(bank, drained, outcomes, k).len() <= UNPROCESSED_BUFFER_STEP_SIZE,
{
    lemma_batch_is_no_longer_than_chunk(bank, chunk_of(drained, k), ended_before(outcomes, k));
}

/// Once the step has said that the slot has ended, the next batch holds the
/// whole of its chunk, in order, and no transaction is built for it.
pub proof fn lemma_batch_after_end_of_slot(
    bank: Bank,
    drained: Seq<Arc<ImmutableDeserializedPacket>>,
    outcomes: Seq<StepOutcome>,
    k: int,
    transactions: Seq<TransactionView>,
)
    requires
        0 < k <= outcomes.len(),
        outcomes[k - 1].reached_end_of_slot,
    ensures
        batch_of(bank, drained, outcomes, k) == chunk_of(drained, k),
        transactions_after_chunk(
            transactions,
            bank,
            chunk_of(drained, k),
            ended_before(outcomes, k),
        ) == transactions,
{
    lemma_end_of_slot_follows_the_step(outcomes);
    lemma_end_of_slot_admits_all(bank, chunk_of(drained, k), transactions);
}

} // verus!
