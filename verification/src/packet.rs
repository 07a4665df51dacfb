//! Vote packets and the pool entries made of them.

use vstd::prelude::*;
use std::sync::Arc;
use crate::pubkey::Pubkey;
use crate::vote_source::VoteSource;

verus! {

/// What the first instruction of a packet says, when it is a vote.
#[derive(Clone, Copy, Debug)]
pub struct VoteInstruction {
    /// The vote account the instruction votes for.
    pub vote_pubkey: Pubkey,
    /// Whether the instruction uses one of the older vote formats.
    pub is_legacy: bool,
}

/// A deserialized packet. It is never modified after creation and is shared by
/// reference count between the pool, a batch and a retry.
#[derive(Debug)]
pub struct ImmutableDeserializedPacket {
    /// The account addresses the transaction names; the fee payer comes first.
    pub account_keys: Vec<Pubkey>,
    /// Whether the transaction is a simple vote transaction.
    pub is_simple_vote: bool,
    /// The vote carried by the first instruction, if it is one.
    pub vote: Option<VoteInstruction>,
}

/// Why a packet could not be turned into a pool entry.
#[derive(Clone, Copy, Debug, PartialEq, Eq, Structural)]
pub enum DeserializedPacketError {
    /// The packet does not carry a vote instruction that the pool accepts.
    VoteTransactionError,
}

/// A pending vote of one validator, as the pool holds it.
#[derive(Debug)]
pub struct LatestValidatorVotePacket {
    /// The vote account the vote is for; the pool keeps one vote per account.
    pub vote_pubkey: Pubkey,
    /// The producer that handed the vote in.
    pub vote_source: VoteSource,
    /// The packet itself.
    pub vote: Arc<ImmutableDeserializedPacket>,
}

/// `Arc::clone` of std: another handle to the same packet. The documentation
/// of `Arc` says that the clone points to the same allocation, so both handles
/// hold the same value.
#[verifier::external_body]
pub(crate) fn share_packet(packet: &Arc<ImmutableDeserializedPacket>) -> (shared: Arc<
    ImmutableDeserializedPacket,
>)
    ensures
        shared == *packet,
{
    Arc::clone(packet)
}

/// An entry stands for its packet when it is the entry that the packet
/// converts to.
pub open spec fn is_entry_of_its_packet(entry: LatestValidatorVotePacket) -> bool {
    &&& entry.vote.vote is Some
    &&& entry.vote_pubkey == entry.vote.vote->Some_0.vote_pubkey
}

/// A packet is a usable vote when its first instruction is a vote and, if the
/// older formats are no longer accepted, the vote does not use one of them.
pub open spec fn is_usable_vote(
    packet: ImmutableDeserializedPacket,
    deprecate_legacy_vote_ixs: bool,
) -> bool {
    match packet.vote {
        Some(ix) => !(deprecate_legacy_vote_ixs && ix.is_legacy),
        None => false,
    }
}

/// The pool entry made from a usable vote.
pub open spec fn vote_entry(
    packet: Arc<ImmutableDeserializedPacket>,
    vote_source: VoteSource,
) -> LatestValidatorVotePacket {
    LatestValidatorVotePacket {
        vote_pubkey: packet.vote->Some_0.vote_pubkey,
        vote_source,
        vote: packet,
    }
}

impl ImmutableDeserializedPacket {
    /// A packet with the given content.
    pub fn new(account_keys: Vec<Pubkey>, is_simple_vote: bool, vote: Option<VoteInstruction>) -> (packet:
        Self)
        ensures
            packet.account_keys == account_keys,
            packet.is_simple_vote == is_simple_vote,
            packet.vote == vote,
    {
        ImmutableDeserializedPacket { account_keys, is_simple_vote, vote }
    }

    /// Whether the transaction is a simple vote transaction.
    pub fn is_simple_vote(&self) -> (simple: bool)
        ensures
            simple == self.is_simple_vote,
    {
        self.is_simple_vote
    }
}

impl LatestValidatorVotePacket {
    /// Makes a pool entry from a packet, tagged with the producer it came from.
    /// Fails exactly when the packet is not a usable vote.
    pub fn new_from_immutable(
        vote: Arc<ImmutableDeserializedPacket>,
        vote_source: VoteSource,
        deprecate_legacy_vote_ixs: bool,
    ) -> (converted: Result<Self, DeserializedPacketError>)
        ensures
            is_usable_vote(*vote, deprecate_legacy_vote_ixs) ==> converted == Ok::<
                Self,
                DeserializedPacketError,
            >(vote_entry(vote, vote_source)),
            !is_usable_vote(*vote, deprecate_legacy_vote_ixs) ==> converted == Err::<
                Self,
                DeserializedPacketError,
            >(DeserializedPacketError::VoteTransactionError),
    {
        match vote.vote {
            Some(ix) => {
                if deprecate_legacy_vote_ixs && ix.is_legacy {
                    Err(DeserializedPacketError::VoteTransactionError)
                } else {
                    Ok(LatestValidatorVotePacket { vote_pubkey: ix.vote_pubkey, vote_source, vote })
                }
            },
            None => Err(DeserializedPacketError::VoteTransactionError),
        }
    }

    /// The vote account the vote is for.
    pub fn vote_pubkey(&self) -> (key: Pubkey)
        ensures
            key == self.vote_pubkey,
    {
        self.vote_pubkey
    }

    /// A second entry for the same vote, which shares the packet.
    pub fn share(&self) -> (shared: Self)
        ensures
            shared == *self,
    {
        LatestValidatorVotePacket {
            vote_pubkey: self.vote_pubkey,
            vote_source: self.vote_source,
            vote: share_packet(&self.vote),
        }
    }
}

} // verus!
