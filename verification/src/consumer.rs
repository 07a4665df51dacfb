//! The check that a transaction's fee payer can pay.

use vstd::prelude::*;
use crate::bank::Bank;
use crate::metrics::{bump, TransactionErrorMetrics};
use crate::pubkey::Pubkey;
use crate::transaction::{SanitizedTransaction, TransactionError};

verus! {

/// Whether the account `payer` can pay for a transaction: it must exist, hold
/// at least the fee, and not be locked by a transaction in flight.
pub open spec fn fee_payer_status(bank: Bank, payer: Pubkey) -> Result<(), TransactionError> {
    match bank.account(payer) {
        None => Err(TransactionError::AccountNotFound),
        Some(account) => if account.lamports < bank.transaction_fee {
            Err(TransactionError::InsufficientFundsForFee)
        } else if account.locked {
            Err(TransactionError::AccountInUse)
        } else {
            Ok(())
        },
    }
}

/// The counters after a fee payer was checked with the given result.
pub open spec fn count_fee_payer_status(
    counters: TransactionErrorMetrics,
    status: Result<(), TransactionError>,
) -> TransactionErrorMetrics {
    match status {
        Ok(_) => counters,
        Err(TransactionError::AccountNotFound) => TransactionErrorMetrics {
            account_not_found: bump(counters.account_not_found),
            ..counters
        },
        Err(TransactionError::InsufficientFundsForFee) => TransactionErrorMetrics {
            insufficient_funds: bump(counters.insufficient_funds),
            ..counters
        },
        Err(TransactionError::AccountInUse) => TransactionErrorMetrics {
            account_in_use: bump(counters.account_in_use),
            ..counters
        },
    }
}

/// Checks that the fee payer of `transaction` can pay, and counts the failure
/// if it cannot.
pub fn check_fee_payer_unlocked(
    bank: &Bank,
    transaction: &SanitizedTransaction,
    error_counters: &mut TransactionErrorMetrics,
) -> (status: Result<(), TransactionError>)
    ensures
        transaction@.account_keys.len() > 0,
        status == fee_payer_status(*bank, transaction@.account_keys[0]),
        *final(error_counters) == count_fee_payer_status(*old(error_counters), status),
{
    let payer = transaction.fee_payer();
    match bank.get_account(&payer) {
        None => {
            error_counters.account_not_found = error_counters.account_not_found.saturating_add(1);
            Err(TransactionError::AccountNotFound)
        },
        Some(account) => {
            if account.lamports < bank.transaction_fee {
                error_counters.insufficient_funds = error_counters.insufficient_funds.saturating_add(
                    1,
                );
                Err(TransactionError::InsufficientFundsForFee)
            } else if account.locked {
                error_counters.account_in_use = error_counters.account_in_use.saturating_add(1);
                Err(TransactionError::AccountInUse)
            } else {
                Ok(())
            }
        },
    }
}

} // verus!
