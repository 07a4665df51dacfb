//! The bank: the state that a round judges transactions against.

use vstd::prelude::*;
use crate::pubkey::{pubkey_eq, Pubkey};

verus! {

/// An account as the bank sees it at one point in time.
#[derive(Clone, Copy, Debug)]
pub struct Account {
    pub key: Pubkey,
    /// The balance.
    pub lamports: u64,
    /// Whether a transaction in flight holds a lock on the account.
    pub locked: bool,
}

/// The stake delegated to one vote account in the current epoch.
#[derive(Clone, Copy, Debug)]
pub struct VoteAccountStake {
    pub vote_pubkey: Pubkey,
    pub stake: u64,
}

/// The state against which transactions are judged during one round.
#[derive(Debug)]
pub struct Bank {
    /// Whether only vote transactions may be executed.
    pub vote_only: bool,
    /// The most accounts one transaction may lock.
    pub transaction_account_lock_limit: usize,
    /// What a fee payer is charged for one transaction.
    pub transaction_fee: u64,
    /// The accounts that exist. Of two with the same key the first counts.
    pub accounts: Vec<Account>,
    /// The stakes of the epoch. Of two with the same key the first counts.
    pub epoch_stakes: Vec<VoteAccountStake>,
    /// Whether votes in the older formats are no longer accepted.
    pub deprecate_legacy_vote_ixs: bool,
}

/// `i` is the position of the first account with address `key`.
pub open spec fn is_account_index(accounts: Seq<Account>, key: Pubkey, i: int) -> bool {
    &&& 0 <= i < accounts.len()
    &&& accounts[i].key == key
    &&& forall|j: int| 0 <= j < i ==> accounts[j].key != key
}

/// `i` is the position of the first stake entry of vote account `key`.
pub open spec fn is_stake_index(stakes: Seq<VoteAccountStake>, key: Pubkey, i: int) -> bool {
    &&& 0 <= i < stakes.len()
    &&& stakes[i].vote_pubkey == key
    &&& forall|j: int| 0 <= j < i ==> stakes[j].vote_pubkey != key
}

impl Bank {
    /// The account with address `key`, if the bank has one.
    pub open spec fn account(&self, key: Pubkey) -> Option<Account> {
        if exists|i: int| is_account_index(self.accounts@, key, i) {
            Some(self.accounts@[choose|i: int| is_account_index(self.accounts@, key, i)])
        } else {
            None
        }
    }

    /// The stake of vote account `key`; zero when the epoch knows no such account.
    pub open spec fn stake(&self, key: Pubkey) -> u64 {
        if exists|i: int| is_stake_index(self.epoch_stakes@, key, i) {
            self.epoch_stakes@[choose|i: int| is_stake_index(self.epoch_stakes@, key, i)].stake
        } else {
            0
        }
    }

    /// Whether only vote transactions may be executed.
    pub fn vote_only_bank(&self) -> (vote_only: bool)
        ensures
            vote_only == self.vote_only,
    {
        self.vote_only
    }

    /// The most accounts one transaction may lock.
    pub fn get_transaction_account_lock_limit(&self) -> (limit: usize)
        ensures
            limit == self.transaction_account_lock_limit,
    {
        self.transaction_account_lock_limit
    }

    /// Looks an account up by its address.
    pub fn get_account(&self, key: &Pubkey) -> (found: Option<Account>)
        ensures
            found == self.account(*key),
    {
        let mut i: usize = 0;
        while i < self.accounts.len()
            invariant
                i <= self.accounts.len(),
                forall|j: int| 0 <= j < i ==> self.accounts@[j].key != *key,
            decreases self.accounts.len() - i,
        {
            if pubkey_eq(&self.accounts[i].key, key) {
                assert(is_account_index(self.accounts@, *key, i as int));
                return Some(self.accounts[i]);
            }
            i = i + 1;
        }
        None
    }

    /// Looks up the stake delegated to a vote account.
    pub fn vote_account_stake(&self, vote_pubkey: &Pubkey) -> (stake: u64)
        ensures
            stake == self.stake(*vote_pubkey),
    {
        let mut i: usize = 0;
        while i < self.epoch_stakes.len()
            invariant
                i <= self.epoch_stakes.len(),
                forall|j: int| 0 <= j < i ==> self.epoch_stakes@[j].vote_pubkey != *vote_pubkey,
            decreases self.epoch_stakes.len() - i,
        {
            if pubkey_eq(&self.epoch_stakes[i].vote_pubkey, vote_pubkey) {
                assert(is_stake_index(self.epoch_stakes@, *vote_pubkey, i as int));
                return self.epoch_stakes[i].stake;
            }
            i = i + 1;
        }
        0
    }
}

} // verus!
