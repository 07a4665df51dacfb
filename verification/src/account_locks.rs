//! When a transaction may lock the accounts it names.

use vstd::prelude::*;
use solana_message::AccountKeys;
use crate::pubkey::Pubkey;

verus! {

/// A transaction may lock its accounts when it names no more of them than the
/// limit allows and names none of them twice.
pub open spec fn locks_are_valid(account_keys: Seq<Pubkey>, tx_account_lock_limit: usize) -> bool {
    &&& account_keys.len() <= tx_account_lock_limit
    &&& account_keys.no_duplicates()
}

/// `solana_accounts_db::account_locks::validate_account_locks`, called on the
/// given addresses as the static keys of a message without loaded addresses.
/// The outside function fails when there are more keys than the limit, and
/// otherwise when two of the keys are equal; the contract says that it
/// succeeds in exactly the other cases.
#[verifier::external_body]
pub(crate) fn validate_account_locks(account_keys: &Vec<Pubkey>, tx_account_lock_limit: usize) -> (valid:
    bool)
    ensures
        valid == locks_are_valid(account_keys@, tx_account_lock_limit),
{
    let keys: Vec<solana_pubkey::Pubkey> = account_keys.iter().map(
        |key| solana_pubkey::Pubkey::new_from_array(*key),
    ).collect();
    solana_accounts_db::account_locks::validate_account_locks(
        AccountKeys::new(&keys, None),
        tx_account_lock_limit,
    ).is_ok()
}

} // verus!
