//! Transactions built from packets.

use vstd::prelude::*;
use crate::packet::ImmutableDeserializedPacket;
use crate::pubkey::Pubkey;

verus! {

/// Why a transaction cannot be executed.
#[derive(Clone, Copy, Debug, PartialEq, Eq, Structural)]
pub enum TransactionError {
    /// The fee payer does not exist.
    AccountNotFound,
    /// The fee payer cannot pay the fee.
    InsufficientFundsForFee,
    /// The fee payer is locked by a transaction in flight.
    AccountInUse,
}

/// A transaction that is ready to be executed against one bank. It is built
/// anew from its packet in every round, because the bank changes.
#[derive(Debug)]
pub struct SanitizedTransaction {
    account_keys: Vec<Pubkey>,
    is_simple_vote: bool,
}

/// What a [`SanitizedTransaction`] holds.
pub struct TransactionView {
    pub account_keys: Seq<Pubkey>,
    pub is_simple_vote: bool,
}

impl View for SanitizedTransaction {
    type V = TransactionView;

    closed spec fn view(&self) -> TransactionView {
        TransactionView { account_keys: self.account_keys@, is_simple_vote: self.is_simple_vote }
    }
}

/// The views of a list of transactions, in order.
pub open spec fn transaction_views(transactions: Seq<SanitizedTransaction>) -> Seq<TransactionView> {
    transactions.map_values(|tx: SanitizedTransaction| tx@)
}

/// Whether a packet yields a transaction: it must name a fee payer, and where
/// only votes are executed it must be a simple vote.
pub open spec fn can_build(packet: ImmutableDeserializedPacket, votes_only: bool) -> bool {
    &&& votes_only ==> packet.is_simple_vote
    &&& packet.account_keys@.len() > 0
}

/// The transaction that a packet yields.
pub open spec fn built_transaction(packet: ImmutableDeserializedPacket) -> TransactionView {
    TransactionView { account_keys: packet.account_keys@, is_simple_vote: packet.is_simple_vote }
}

impl SanitizedTransaction {
    /// Every transaction names its fee payer.
    #[verifier::type_invariant]
    spec fn has_fee_payer(self) -> bool {
        self.account_keys@.len() > 0
    }

    /// The accounts the transaction locks; the fee payer comes first.
    pub fn account_keys(&self) -> (keys: &Vec<Pubkey>)
        ensures
            keys@ == self@.account_keys,
            keys@.len() > 0,
    {
        proof {
            use_type_invariant(self);
        }
        &self.account_keys
    }

    /// The account that pays for the transaction.
    pub fn fee_payer(&self) -> (payer: Pubkey)
        ensures
            self@.account_keys.len() > 0,
            payer == self@.account_keys[0],
    {
        proof {
            use_type_invariant(self);
        }
        self.account_keys[0]
    }

    /// Whether the transaction is a simple vote transaction.
    pub fn is_simple_vote_transaction(&self) -> (simple: bool)
        ensures
            simple == self@.is_simple_vote,
    {
        self.is_simple_vote
    }
}

impl ImmutableDeserializedPacket {
    /// Builds the transaction that this packet stands for.
    pub fn build_sanitized_transaction(&self, votes_only: bool) -> (built: Option<
        SanitizedTransaction,
    >)
        ensures
            built is Some == can_build(*self, votes_only),
            built matches Some(tx) ==> tx@ == built_transaction(*self),
    {
        if votes_only && !self.is_simple_vote {
            return None;
        }
        if self.account_keys.len() == 0 {
            return None;
        }
        let mut keys: Vec<Pubkey> = Vec::with_capacity(self.account_keys.len());
        let mut i: usize = 0;
        while i < self.account_keys.len()
            invariant
                i <= self.account_keys.len(),
                keys@ == self.account_keys@.subrange(0, i as int),
            decreases self.account_keys.len() - i,
        {
            keys.push(self.account_keys[i]);
            assert(keys@ =~= self.account_keys@.subrange(0, i + 1));
            i = i + 1;
        }
        assert(keys@ =~= self.account_keys@);
        Some(SanitizedTransaction { account_keys: keys, is_simple_vote: self.is_simple_vote })
    }
}

} // verus!
