//! The pool of pending votes, one for each vote account.

use vstd::prelude::*;
use std::sync::Arc;
use crate::bank::Bank;
use crate::packet::{
    is_entry_of_its_packet,
    share_packet,
    ImmutableDeserializedPacket,
    LatestValidatorVotePacket,
};
use crate::pubkey::{pubkey_eq, Pubkey};
use crate::vote_source::VoteSource;

verus! {

/// How many votes an insertion pushed out of the pool or turned away, by the
/// producer that had handed them in.
#[derive(Clone, Copy, Debug, PartialEq, Eq, Structural)]
pub struct VoteBatchInsertionMetrics {
    pub num_dropped_gossip: usize,
    pub num_dropped_tpu: usize,
}

/// The pending votes, at most one for each vote account, in the order in which
/// their accounts first came in.
#[derive(Debug)]
pub struct LatestUnprocessedVotes {
    entries: Vec<LatestValidatorVotePacket>,
    deprecate_legacy_vote_ixs: bool,
}

/// No two entries are for the same vote account.
pub open spec fn distinct_vote_accounts(entries: Seq<LatestValidatorVotePacket>) -> bool {
    forall|i: int, j: int|
        0 <= i < j < entries.len() ==> entries[i].vote_pubkey != entries[j].vote_pubkey
}

/// Every entry stands for its packet.
pub open spec fn entries_of_their_packets(entries: Seq<LatestValidatorVotePacket>) -> bool {
    forall|i: int| 0 <= i < entries.len() ==> is_entry_of_its_packet(#[trigger] entries[i])
}

/// Some entry is for the vote account `key`.
pub open spec fn has_vote_account(entries: Seq<LatestValidatorVotePacket>, key: Pubkey) -> bool {
    exists|i: int| 0 <= i < entries.len() && #[trigger] entries[i].vote_pubkey == key
}

/// The entries after one vote came in. A vote for an account that has no
/// entry yet is added at the end. Otherwise the pending vote stays, unless
/// `replenish` is set: then the new vote takes its place.
pub open spec fn insert_vote(
    entries: Seq<LatestValidatorVotePacket>,
    vote: LatestValidatorVotePacket,
    replenish: bool,
) -> Seq<LatestValidatorVotePacket> {
    if has_vote_account(entries, vote.vote_pubkey) {
        if replenish {
            entries.map_values(
                |e: LatestValidatorVotePacket|
                    if e.vote_pubkey == vote.vote_pubkey {
                        vote
                    } else {
                        e
                    },
            )
        } else {
            entries
        }
    } else {
        entries.push(vote)
    }
}

/// The vote, if any, that leaves when `vote` comes in: the newcomer where the
/// pending vote stays, the pending vote where the newcomer takes its place.
pub open spec fn dropped_vote(
    entries: Seq<LatestValidatorVotePacket>,
    vote: LatestValidatorVotePacket,
    replenish: bool,
) -> Option<LatestValidatorVotePacket> {
    if has_vote_account(entries, vote.vote_pubkey) {
        if replenish {
            Some(
                entries[choose|i: int|
                    0 <= i < entries.len() && #[trigger] entries[i].vote_pubkey
                        == vote.vote_pubkey],
            )
        } else {
            Some(vote)
        }
    } else {
        None
    }
}

/// The entries after the votes came in one after the other.
pub open spec fn insert_votes(
    entries: Seq<LatestValidatorVotePacket>,
    votes: Seq<LatestValidatorVotePacket>,
    replenish: bool,
) -> Seq<LatestValidatorVotePacket>
    decreases votes.len(),
{
    if votes.len() == 0 {
        entries
    } else {
        insert_vote(insert_votes(entries, votes.drop_last(), replenish), votes.last(), replenish)
    }
}

/// How many votes handed in by `source` left while the votes came in.
pub open spec fn count_dropped(
    entries: Seq<LatestValidatorVotePacket>,
    votes: Seq<LatestValidatorVotePacket>,
    replenish: bool,
    source: VoteSource,
) -> nat
    decreases votes.len(),
{
    if votes.len() == 0 {
        0
    } else {
        let before = insert_votes(entries, votes.drop_last(), replenish);
        let earlier = count_dropped(entries, votes.drop_last(), replenish, source);
        match dropped_vote(before, votes.last(), replenish) {
            Some(dropped) => if dropped.vote_source == source {
                earlier + 1
            } else {
                earlier
            },
            None => earlier,
        }
    }
}

/// Whether the bank gives the vote account of an entry any stake.
pub open spec fn is_staked(bank: Bank, entry: LatestValidatorVotePacket) -> bool {
    bank.stake(entry.vote_pubkey) > 0
}

/// The entries that a drain takes out: those of staked vote accounts.
pub open spec fn drained_entries(entries: Seq<LatestValidatorVotePacket>, bank: Bank) -> Seq<
    LatestValidatorVotePacket,
>
    decreases entries.len(),
{
    if entries.len() == 0 {
        Seq::empty()
    } else if is_staked(bank, entries.last()) {
        drained_entries(entries.drop_last(), bank).push(entries.last())
    } else {
        drained_entries(entries.drop_last(), bank)
    }
}

/// The entries that a drain leaves behind: those of vote accounts without stake.
pub open spec fn undrained_entries(entries: Seq<LatestValidatorVotePacket>, bank: Bank) -> Seq<
    LatestValidatorVotePacket,
>
    decreases entries.len(),
{
    if entries.len() == 0 {
        Seq::empty()
    } else if is_staked(bank, entries.last()) {
        undrained_entries(entries.drop_last(), bank)
    } else {
        undrained_entries(entries.drop_last(), bank).push(entries.last())
    }
}

/// `i` is where a vote with the given stake goes into `ordered`: behind every
/// vote with as much stake or more, in front of the first with less.
pub open spec fn is_stake_position(
    bank: Bank,
    ordered: Seq<LatestValidatorVotePacket>,
    stake: u64,
    i: int,
) -> bool {
    &&& 0 <= i <= ordered.len()
    &&& forall|j: int| 0 <= j < i ==> bank.stake(#[trigger] ordered[j].vote_pubkey) >= stake
    &&& i < ordered.len() ==> bank.stake(ordered[i].vote_pubkey) < stake
}

/// The entries ordered by the stake of their vote accounts, the largest first;
/// entries with the same stake keep their order.
pub open spec fn by_stake(entries: Seq<LatestValidatorVotePacket>, bank: Bank) -> Seq<
    LatestValidatorVotePacket,
>
    decreases entries.len(),
{
    if entries.len() == 0 {
        Seq::empty()
    } else {
        let ordered = by_stake(entries.drop_last(), bank);
        ordered.insert(
            choose|i: int|
                is_stake_position(bank, ordered, bank.stake(entries.last().vote_pubkey), i),
            entries.last(),
        )
    }
}

/// The packets that a drain hands over: those of the staked vote accounts,
/// the packet of the account with the largest stake first.
pub open spec fn drained_packets(entries: Seq<LatestValidatorVotePacket>, bank: Bank) -> Seq<
    Arc<ImmutableDeserializedPacket>,
> {
    packets_of(by_stake(drained_entries(entries, bank), bank))
}

/// The packets of the given entries, in order.
pub open spec fn packets_of(entries: Seq<LatestValidatorVotePacket>) -> Seq<
    Arc<ImmutableDeserializedPacket>,
> {
    entries.map_values(|e: LatestValidatorVotePacket| e.vote)
}

impl View for LatestUnprocessedVotes {
    type V = Seq<LatestValidatorVotePacket>;

    closed spec fn view(&self) -> Seq<LatestValidatorVotePacket> {
        self.entries@
    }
}

impl LatestUnprocessedVotes {
    /// Whether votes in the older formats are turned away.
    pub closed spec fn deprecates_legacy_vote_ixs(&self) -> bool {
        self.deprecate_legacy_vote_ixs
    }

    /// What holds of every pool: one entry for each vote account, and each
    /// entry stands for its packet.
    pub open spec fn wf(&self) -> bool {
        &&& distinct_vote_accounts(self@)
        &&& entries_of_their_packets(self@)
    }

    /// An empty pool that accepts every vote format.
    pub fn new() -> (pool: Self)
        ensures
            pool.wf(),
            pool@ == Seq::<LatestValidatorVotePacket>::empty(),
            !pool.deprecates_legacy_vote_ixs(),
    {
        LatestUnprocessedVotes { entries: Vec::new(), deprecate_legacy_vote_ixs: false }
    }

    /// Whether no vote is pending.
    pub fn is_empty(&self) -> (empty: bool)
        ensures
            empty == (self@.len() == 0),
    {
        self.entries.len() == 0
    }

    /// The number of pending votes.
    pub fn len(&self) -> (len: usize)
        ensures
            len == self@.len(),
    {
        self.entries.len()
    }

    /// Whether votes in the older formats are turned away.
    pub fn should_deprecate_legacy_vote_ixs(&self) -> (deprecate: bool)
        ensures
            deprecate == self.deprecates_legacy_vote_ixs(),
    {
        self.deprecate_legacy_vote_ixs
    }

    /// Forgets every pending vote.
    pub fn clear(&mut self)
        ensures
            final(self)@ == Seq::<LatestValidatorVotePacket>::empty(),
            final(self).deprecates_legacy_vote_ixs() == old(self).deprecates_legacy_vote_ixs(),
            final(self).wf(),
    {
        self.entries.clear();
    }

    /// Takes over from the bank what may change at the boundary of an epoch:
    /// whether the older vote formats are still accepted.
    pub fn cache_epoch_boundary_info(&mut self, bank: &Bank)
        ensures
            final(self)@ == old(self)@,
            final(self).deprecates_legacy_vote_ixs() == bank.deprecate_legacy_vote_ixs,
    {
        self.deprecate_legacy_vote_ixs = bank.deprecate_legacy_vote_ixs;
    }

    /// The position of the entry for vote account `key`.
    fn position(&self, key: &Pubkey) -> (found: Option<usize>)
        ensures
            match found {
                Some(i) => i < self@.len() && self@[i as int].vote_pubkey == *key,
                None => !has_vote_account(self@, *key),
            },
    {
        let mut i: usize = 0;
        while i < self.entries.len()
            invariant
                i <= self.entries.len(),
                forall|j: int| 0 <= j < i ==> self.entries@[j].vote_pubkey != *key,
            decreases self.entries.len() - i,
        {
            if pubkey_eq(&self.entries[i].vote_pubkey, key) {
                return Some(i);
            }
            i = i + 1;
        }
        None
    }

    /// Takes one vote in and hands back the vote that left, if one did.
    pub fn update_latest_vote(
        &mut self,
        vote: LatestValidatorVotePacket,
        should_replenish_taken_votes: bool,
    ) -> (dropped: Option<LatestValidatorVotePacket>)
        requires
            old(self).wf(),
            is_entry_of_its_packet(vote),
        ensures
            final(self).wf(),
            final(self)@ == insert_vote(old(self)@, vote, should_replenish_taken_votes),
            dropped == dropped_vote(old(self)@, vote, should_replenish_taken_votes),
            final(self).deprecates_legacy_vote_ixs() == old(self).deprecates_legacy_vote_ixs(),
    {
        match self.position(&vote.vote_pubkey) {
            Some(i) => {
                assert(has_vote_account(self@, vote.vote_pubkey));
                if should_replenish_taken_votes {
                    let ghost before = self.entries@;
                    let pending = self.entries[i].share();
                    self.entries.set(i, vote);
                    assert(self.entries@ =~= insert_vote(before, vote, true));
                    Some(pending)
                } else {
                    Some(vote)
                }
            },
            None => {
                self.entries.push(vote);
                None
            },
        }
    }

    /// Takes the votes in, one after the other, and counts those that left.
    pub fn insert_batch(
        &mut self,
        votes: Vec<LatestValidatorVotePacket>,
        should_replenish_taken_votes: bool,
    ) -> (metrics: VoteBatchInsertionMetrics)
        requires
            old(self).wf(),
            entries_of_their_packets(votes@),
        ensures
            final(self).wf(),
            final(self)@ == insert_votes(old(self)@, votes@, should_replenish_taken_votes),
            metrics.num_dropped_gossip == count_dropped(
                old(self)@,
                votes@,
                should_replenish_taken_votes,
                VoteSource::Gossip,
            ),
            metrics.num_dropped_tpu == count_dropped(
                old(self)@,
                votes@,
                should_replenish_taken_votes,
                VoteSource::Tpu,
            ),
            final(self).deprecates_legacy_vote_ixs() == old(self).deprecates_legacy_vote_ixs(),
    {
        let mut num_dropped_gossip: usize = 0;
        let mut num_dropped_tpu: usize = 0;
        let mut i: usize = 0;
        while i < votes.len()
            invariant
                i <= votes.len(),
                self.wf(),
                entries_of_their_packets(votes@),
                self.deprecates_legacy_vote_ixs() == old(self).deprecates_legacy_vote_ixs(),
                self@ == insert_votes(
                    old(self)@,
                    votes@.subrange(0, i as int),
                    should_replenish_taken_votes,
                ),
                num_dropped_gossip == count_dropped(
                    old(self)@,
                    votes@.subrange(0, i as int),
                    should_replenish_taken_votes,
                    VoteSource::Gossip,
                ),
                num_dropped_tpu == count_dropped(
                    old(self)@,
                    votes@.subrange(0, i as int),
                    should_replenish_taken_votes,
                    VoteSource::Tpu,
                ),
                num_dropped_gossip + num_dropped_tpu <= i,
            decreases votes.len() - i,
        {
            assert(votes@.subrange(0, i + 1).drop_last() =~= votes@.subrange(0, i as int));
            assert(votes@.subrange(0, i + 1).last() == votes@[i as int]);
            let vote = votes[i].share();
            if let Some(dropped) = self.update_latest_vote(vote, should_replenish_taken_votes) {
                match dropped.vote_source {
                    VoteSource::Gossip => {
                        num_dropped_gossip = num_dropped_gossip + 1;
                    },
                    VoteSource::Tpu => {
                        num_dropped_tpu = num_dropped_tpu + 1;
                    },
                }
            }
            i = i + 1;
        }
        assert(votes@.subrange(0, i as int) =~= votes@);
        VoteBatchInsertionMetrics { num_dropped_gossip, num_dropped_tpu }
    }

    /// Takes the votes of all staked vote accounts out of the pool and hands
    /// their packets over, the vote of the account with the largest stake
    /// first. Votes of accounts without stake stay where they are.
    pub fn drain_unprocessed(&mut self, bank: &Bank) -> (drained: Vec<
        Arc<ImmutableDeserializedPacket>,
    >)
        requires
            old(self).wf(),
        ensures
            final(self).wf(),
            drained@ == drained_packets(old(self)@, *bank),
            final(self)@ == undrained_entries(old(self)@, *bank),
            final(self).deprecates_legacy_vote_ixs() == old(self).deprecates_legacy_vote_ixs(),
    {
        let mut taken: Vec<LatestValidatorVotePacket> = Vec::new();
        let mut stakes: Vec<u64> = Vec::new();
        let mut kept: Vec<LatestValidatorVotePacket> = Vec::new();
        let mut i: usize = 0;
        while i < self.entries.len()
            invariant
                i <= self.entries.len(),
                self.entries@ == old(self).entries@,
                taken@ == by_stake(
                    drained_entries(self.entries@.subrange(0, i as int), *bank),
                    *bank,
                ),
                stakes@.len() == taken@.len(),
                forall|j: int|
                    0 <= j < taken@.len() ==> #[trigger] stakes@[j] == bank.stake(
                        taken@[j].vote_pubkey,
                    ),
                kept@ == undrained_entries(self.entries@.subrange(0, i as int), *bank),
            decreases self.entries.len() - i,
        {
            assert(self.entries@.subrange(0, i + 1).drop_last() =~= self.entries@.subrange(
                0,
                i as int,
            ));
            assert(self.entries@.subrange(0, i + 1).last() == self.entries@[i as int]);
            let stake = bank.vote_account_stake(&self.entries[i].vote_pubkey);
            if stake > 0 {
                let ghost before = drained_entries(self.entries@.subrange(0, i as int), *bank);
                assert(before.push(self.entries@[i as int]).drop_last() =~= before);
                let mut position: usize = 0;
                while position < taken.len() && stakes[position] >= stake
                    invariant
                        position <= taken@.len(),
                        stakes@.len() == taken@.len(),
                        forall|j: int|
                            0 <= j < taken@.len() ==> #[trigger] stakes@[j] == bank.stake(
                                taken@[j].vote_pubkey,
                            ),
                        forall|j: int|
                            0 <= j < position ==> bank.stake(#[trigger] taken@[j].vote_pubkey)
                                >= stake,
                    decreases taken.len() - position,
                {
                    position = position + 1;
                }
                proof {
                    assert(is_stake_position(*bank, taken@, stake, position as int));
                    lemma_stake_position_is_unique(*bank, taken@, stake, position as int);
                }
                let ghost ordered = taken@;
                let ghost ordered_stakes = stakes@;
                taken.insert(position, self.entries[i].share());
                stakes.insert(position, stake);
                assert forall|j: int| 0 <= j < taken@.len() implies #[trigger] stakes@[j]
                    == bank.stake(taken@[j].vote_pubkey) by {
                    if j < position {
                        assert(taken@[j] == ordered[j] && stakes@[j] == ordered_stakes[j]);
                    } else if j > position {
                        assert(taken@[j] == ordered[j - 1] && stakes@[j] == ordered_stakes[j - 1]);
                    }
                }
            } else {
                kept.push(self.entries[i].share());
            }
            i = i + 1;
        }
        assert(self.entries@.subrange(0, i as int) =~= self.entries@);
        let mut drained: Vec<Arc<ImmutableDeserializedPacket>> = Vec::new();
        let mut j: usize = 0;
        while j < taken.len()
            invariant
                j <= taken.len(),
                drained@ == packets_of(taken@.subrange(0, j as int)),
            decreases taken.len() - j,
        {
            drained.push(share_packet(&taken[j].vote));
            assert(drained@ =~= packets_of(taken@.subrange(0, j + 1)));
            j = j + 1;
        }
        assert(taken@.subrange(0, j as int) =~= taken@);
        proof {
            lemma_drain_splits(self.entries@, *bank);
        }
        self.entries = kept;
        drained
    }
}

/// Only one position is the one where a vote with the given stake goes.
pub proof fn lemma_stake_position_is_unique(
    bank: Bank,
    ordered: Seq<LatestValidatorVotePacket>,
    stake: u64,
    i: int,
)
    requires
        is_stake_position(bank, ordered, stake, i),
    ensures
        (choose|k: int| is_stake_position(bank, ordered, stake, k)) == i,
{
    let k = choose|k: int| is_stake_position(bank, ordered, stake, k);
    assert(is_stake_position(bank, ordered, stake, k));
    if k < i {
        assert(bank.stake(ordered[k].vote_pubkey) >= stake);
    } else if i < k {
        assert(bank.stake(ordered[i].vote_pubkey) >= stake);
    }
}

/// There always is a position where a vote with the given stake goes.
pub proof fn lemma_stake_position_exists(
    bank: Bank,
    ordered: Seq<LatestValidatorVotePacket>,
    stake: u64,
)
    ensures
        exists|i: int| is_stake_position(bank, ordered, stake, i),
    decreases ordered.len(),
{
    if ordered.len() == 0 {
        assert(is_stake_position(bank, ordered, stake, 0));
    } else {
        let shorter = ordered.drop_last();
        lemma_stake_position_exists(bank, shorter, stake);
        let i = choose|i: int| is_stake_position(bank, shorter, stake, i);
        assert forall|j: int| 0 <= j < i implies bank.stake(#[trigger] ordered[j].vote_pubkey)
            >= stake by {
            assert(shorter[j] == ordered[j]);
        }
        if i < shorter.len() {
            assert(shorter[i] == ordered[i]);
            assert(is_stake_position(bank, ordered, stake, i));
        } else if bank.stake(ordered[i].vote_pubkey) < stake {
            assert(is_stake_position(bank, ordered, stake, i));
        } else {
            assert(is_stake_position(bank, ordered, stake, i + 1));
        }
    }
}

/// The entry at a position of a sequence into which `e` was inserted at `p`.
proof fn lemma_insert_index(
    s: Seq<LatestValidatorVotePacket>,
    p: int,
    e: LatestValidatorVotePacket,
    i: int,
)
    requires
        0 <= p <= s.len(),
        0 <= i <= s.len(),
    ensures
        s.insert(p, e).len() == s.len() + 1,
        i < p ==> s.insert(p, e)[i] == s[i],
        i == p ==> s.insert(p, e)[i] == e,
        i > p ==> s.insert(p, e)[i] == s[i - 1],
{
    s.insert_ensures(p, e);
    if i > p {
        assert(s.insert(p, e)[(i - 1) + 1] == s[i - 1]);
    }
}

/// Ordering one more entry puts it at its stake position among the others.
proof fn lemma_by_stake_step(entries: Seq<LatestValidatorVotePacket>, bank: Bank) -> (p: int)
    requires
        entries.len() > 0,
    ensures
        is_stake_position(
            bank,
            by_stake(entries.drop_last(), bank),
            bank.stake(entries.last().vote_pubkey),
            p,
        ),
        by_stake(entries, bank) == by_stake(entries.drop_last(), bank).insert(p, entries.last()),
{
    let ordered = by_stake(entries.drop_last(), bank);
    let stake = bank.stake(entries.last().vote_pubkey);
    lemma_stake_position_exists(bank, ordered, stake);
    choose|i: int| is_stake_position(bank, ordered, stake, i)
}

/// Ordering by stake keeps every entry and adds none.
pub proof fn lemma_by_stake_keeps_entries(entries: Seq<LatestValidatorVotePacket>, bank: Bank)
    ensures
        by_stake(entries, bank).len() == entries.len(),
        forall|i: int|
            0 <= i < entries.len() ==> entries.contains(#[trigger] by_stake(entries, bank)[i]),
        forall|i: int|
            0 <= i < entries.len() ==> by_stake(entries, bank).contains(#[trigger] entries[i]),
    decreases entries.len(),
{
    if entries.len() > 0 {
        let shorter = entries.drop_last();
        let last = entries.last();
        let ordered = by_stake(shorter, bank);
        lemma_by_stake_keeps_entries(shorter, bank);
        let p = lemma_by_stake_step(entries, bank);
        let result = by_stake(entries, bank);
        lemma_insert_index(ordered, p, last, 0);
        assert forall|i: int| 0 <= i < entries.len() implies entries.contains(
            #[trigger] result[i],
        ) by {
            lemma_insert_index(ordered, p, last, i);
            if i == p {
                assert(entries[entries.len() - 1] == result[i]);
            } else {
                let k = if i < p {
                    i
                } else {
                    i - 1
                };
                assert(result[i] == ordered[k]);
                assert(shorter.contains(ordered[k]));
                let m = choose|m: int| 0 <= m < shorter.len() && shorter[m] == ordered[k];
                assert(entries[m] == result[i]);
            }
        }
        assert forall|i: int| 0 <= i < entries.len() implies result.contains(
            #[trigger] entries[i],
        ) by {
            if i == entries.len() - 1 {
                lemma_insert_index(ordered, p, last, p);
                assert(result[p] == entries[i]);
            } else {
                assert(shorter[i] == entries[i]);
                assert(ordered.contains(shorter[i]));
                let m = choose|m: int| 0 <= m < ordered.len() && ordered[m] == shorter[i];
                if m < p {
                    lemma_insert_index(ordered, p, last, m);
                    assert(result[m] == entries[i]);
                } else {
                    lemma_insert_index(ordered, p, last, m + 1);
                    assert(result[m + 1] == entries[i]);
                }
            }
        }
    }
}

/// Along the entries ordered by stake the stakes never rise.
pub proof fn lemma_by_stake_is_ordered(entries: Seq<LatestValidatorVotePacket>, bank: Bank)
    ensures
        forall|i: int, j: int|
            0 <= i < j < by_stake(entries, bank).len() ==> bank.stake(
                #[trigger] by_stake(entries, bank)[i].vote_pubkey,
            ) >= bank.stake(#[trigger] by_stake(entries, bank)[j].vote_pubkey),
    decreases entries.len(),
{
    if entries.len() > 0 {
        let shorter = entries.drop_last();
        let last = entries.last();
        let ordered = by_stake(shorter, bank);
        lemma_by_stake_is_ordered(shorter, bank);
        lemma_by_stake_keeps_entries(shorter, bank);
        let p = lemma_by_stake_step(entries, bank);
        let result = by_stake(entries, bank);
        lemma_insert_index(ordered, p, last, 0);
        assert forall|i: int, j: int| 0 <= i < j < result.len() implies bank.stake(
            #[trigger] result[i].vote_pubkey,
        ) >= bank.stake(#[trigger] result[j].vote_pubkey) by {
            lemma_insert_index(ordered, p, last, i);
            lemma_insert_index(ordered, p, last, j);
            if j < p {
                assert(bank.stake(ordered[i].vote_pubkey) >= bank.stake(ordered[j].vote_pubkey));
            } else if j == p {
                assert(bank.stake(ordered[i].vote_pubkey) >= bank.stake(last.vote_pubkey));
            } else if i < p {
                assert(bank.stake(ordered[i].vote_pubkey) >= bank.stake(
                    ordered[j - 1].vote_pubkey,
                ));
            } else if i == p {
                if j - 1 > p {
                    assert(bank.stake(ordered[p].vote_pubkey) >= bank.stake(
                        ordered[j - 1].vote_pubkey,
                    ));
                }
            } else {
                assert(bank.stake(ordered[i - 1].vote_pubkey) >= bank.stake(
                    ordered[j - 1].vote_pubkey,
                ));
            }
        }
    }
}

/// Entries for different vote accounts stay so when they are ordered by stake.
pub proof fn lemma_by_stake_keeps_distinct(entries: Seq<LatestValidatorVotePacket>, bank: Bank)
    requires
        distinct_vote_accounts(entries),
    ensures
        distinct_vote_accounts(by_stake(entries, bank)),
    decreases entries.len(),
{
    if entries.len() > 0 {
        let shorter = entries.drop_last();
        let last = entries.last();
        let ordered = by_stake(shorter, bank);
        assert forall|i: int, j: int| 0 <= i < j < shorter.len() implies shorter[i].vote_pubkey
            != shorter[j].vote_pubkey by {
            assert(shorter[i] == entries[i] && shorter[j] == entries[j]);
        }
        lemma_by_stake_keeps_distinct(shorter, bank);
        lemma_by_stake_keeps_entries(shorter, bank);
        let p = lemma_by_stake_step(entries, bank);
        let result = by_stake(entries, bank);
        lemma_insert_index(ordered, p, last, 0);
        assert forall|k: int| 0 <= k < ordered.len() implies #[trigger] ordered[k].vote_pubkey
            != last.vote_pubkey by {
            assert(shorter.contains(ordered[k]));
            let m = choose|m: int| 0 <= m < shorter.len() && shorter[m] == ordered[k];
            assert(entries[m] == ordered[k]);
            assert(entries[entries.len() - 1] == last);
        }
        assert forall|i: int, j: int| 0 <= i < j < result.len() implies result[i].vote_pubkey
            != result[j].vote_pubkey by {
            lemma_insert_index(ordered, p, last, i);
            lemma_insert_index(ordered, p, last, j);
            if i < p && j > p {
                assert(ordered[i].vote_pubkey != ordered[j - 1].vote_pubkey);
            }
        }
    }
}

/// Every entry that a drain takes out or leaves behind was in the pool, and
/// a pool with one entry for each vote account is split into two such pools
/// that share no vote account.
pub proof fn lemma_drain_splits(entries: Seq<LatestValidatorVotePacket>, bank: Bank)
    requires
        distinct_vote_accounts(entries),
    ensures
        distinct_vote_accounts(undrained_entries(entries, bank) + drained_entries(entries, bank)),
        distinct_vote_accounts(undrained_entries(entries, bank)),
        distinct_vote_accounts(drained_entries(entries, bank)),
        undrained_entries(entries, bank).len() + drained_entries(entries, bank).len()
            == entries.len(),
        forall|i: int|
            0 <= i < drained_entries(entries, bank).len() ==> has_vote_account(
                entries,
                (#[trigger] drained_entries(entries, bank)[i]).vote_pubkey,
            ) && entries.contains(drained_entries(entries, bank)[i]),
        forall|i: int|
            0 <= i < undrained_entries(entries, bank).len() ==> has_vote_account(
                entries,
                (#[trigger] undrained_entries(entries, bank)[i]).vote_pubkey,
            ) && entries.contains(undrained_entries(entries, bank)[i]),
        entries_of_their_packets(entries) ==> entries_of_their_packets(
            undrained_entries(entries, bank),
        ) && entries_of_their_packets(drained_entries(entries, bank)),
        forall|i: int|
            0 <= i < drained_entries(entries, bank).len() ==> is_staked(
                bank,
                #[trigger] drained_entries(entries, bank)[i],
            ),
        forall|i: int|
            0 <= i < undrained_entries(entries, bank).len() ==> !is_staked(
                bank,
                #[trigger] undrained_entries(entries, bank)[i],
            ),
    decreases entries.len(),
{
    if entries.len() > 0 {
        let rest = entries.drop_last();
        let last = entries.last();
        lemma_drain_splits(rest, bank);
        let kept = undrained_entries(rest, bank);
        let taken = drained_entries(rest, bank);
        assert forall|i: int| 0 <= i < rest.len() implies rest[i].vote_pubkey
            != last.vote_pubkey by {
            assert(rest[i] == entries[i]);
        }
        assert(!has_vote_account(rest, last.vote_pubkey));
        assert forall|e: LatestValidatorVotePacket| rest.contains(e) implies entries.contains(
            e,
        ) by {
            let i = choose|i: int| 0 <= i < rest.len() && rest[i] == e;
            assert(entries[i] == e);
        }
        assert forall|key: Pubkey| has_vote_account(rest, key) implies has_vote_account(
            entries,
            key,
        ) by {
            let i = choose|i: int| 0 <= i < rest.len() && #[trigger] rest[i].vote_pubkey == key;
            assert(entries[i].vote_pubkey == key);
        }
        assert(entries[entries.len() - 1] == last);
        assert(has_vote_account(entries, last.vote_pubkey));
        assert(entries.contains(last));
        if is_staked(bank, last) {
            assert(drained_entries(entries, bank) == taken.push(last));
            assert(kept + taken.push(last) =~= (kept + taken).push(last));
        } else {
            assert(undrained_entries(entries, bank) == kept.push(last));
            let joined = kept.push(last) + taken;
            assert forall|i: int, j: int| 0 <= i < j < joined.len() implies joined[i].vote_pubkey
                != joined[j].vote_pubkey by {
                if i < kept.len() {
                    assert(joined[i] == (kept + taken)[i]);
                    if j > kept.len() {
                        assert(joined[j] == (kept + taken)[j - 1]);
                    }
                } else if i > kept.len() {
                    assert(joined[i] == (kept + taken)[i - 1]);
                    assert(joined[j] == (kept + taken)[j - 1]);
                } else {
                    assert(joined[j] == taken[j - kept.len() - 1]);
                }
            }
        }
    }
}

} // verus!
