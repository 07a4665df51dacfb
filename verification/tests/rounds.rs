use std::sync::Arc;
use vote_storage::bank::{Account, Bank, VoteAccountStake};
use vote_storage::candidate_batch::CandidateBatch;
use vote_storage::latest_unprocessed_votes::LatestUnprocessedVotes;
use vote_storage::metrics::{BankingStageStats, LeaderSlotMetricsTracker, TransactionErrorMetrics};
use vote_storage::packet::{ImmutableDeserializedPacket, VoteInstruction};
use vote_storage::pubkey::Pubkey;
use vote_storage::vote_source::VoteSource;
use vote_storage::vote_storage::{scan_chunk, VoteStorage};

fn key(n: u16) -> Pubkey {
    let mut bytes = [0u8; 32];
    bytes[0] = (n >> 8) as u8;
    bytes[1] = (n & 0xff) as u8;
    bytes[31] = 7;
    bytes
}

/// A simple vote packet of validator `n`: the node with key `1000 + n` pays
/// and votes for the vote account with key `n`.
fn vote_packet(n: u16) -> ImmutableDeserializedPacket {
    ImmutableDeserializedPacket::new(
        vec![key(1000 + n), key(n)],
        true,
        Some(VoteInstruction { vote_pubkey: key(n), is_legacy: false }),
    )
}

/// A bank in which the validators `0..validators` have stake 200 and their
/// nodes hold 100 lamports each.
fn bank_with(validators: u16) -> Bank {
    let mut accounts = Vec::new();
    let mut epoch_stakes = Vec::new();
    for n in 0..validators {
        accounts.push(Account { key: key(1000 + n), lamports: 100, locked: false });
        epoch_stakes.push(VoteAccountStake { vote_pubkey: key(n), stake: 200 });
    }
    Bank {
        vote_only: false,
        transaction_account_lock_limit: 64,
        transaction_fee: 5,
        accounts,
        epoch_stakes,
        deprecate_legacy_vote_ixs: false,
    }
}

fn tpu_storage() -> VoteStorage {
    VoteStorage::new(LatestUnprocessedVotes::new(), VoteSource::Tpu)
}

#[test]
fn test_process_packets_retryable_indexes_reinserted() {
    let node_key = key(1000);
    let vote_key = key(0);
    let bank = Arc::new(Bank {
        vote_only: false,
        transaction_account_lock_limit: 64,
        transaction_fee: 0,
        accounts: vec![Account { key: node_key, lamports: 100, locked: false }],
        epoch_stakes: vec![VoteAccountStake { vote_pubkey: vote_key, stake: 200 }],
        deprecate_legacy_vote_ixs: false,
    });
    let vote = ImmutableDeserializedPacket::new(
        vec![node_key, vote_key],
        true,
        Some(VoteInstruction { vote_pubkey: vote_key, is_legacy: false }),
    );

    let latest_unprocessed_votes = LatestUnprocessedVotes::new();
    let mut transaction_storage = VoteStorage::new(latest_unprocessed_votes, VoteSource::Tpu);

    transaction_storage.insert_batch(vec![vote]);
    assert_eq!(1, transaction_storage.len());

    // When processing packets, return all packets as retryable so that they
    // are reinserted into storage
    let _ = transaction_storage.process_packets(
        bank.clone(),
        &BankingStageStats::default(),
        &mut LeaderSlotMetricsTracker::new(0),
        |packets_to_process_len, _reached_end_of_slot, _sanitized_transactions, _slot_metrics_tracker| {
            // Return all packets indexes as retryable
            Some((0..packets_to_process_len).collect())
        },
    );

    // All packets should remain in the transaction storage
    assert_eq!(1, transaction_storage.len());
}

#[test]
fn round_returns_the_flag_as_the_step_left_it() {
    let bank = Arc::new(bank_with(1));
    let mut storage = tpu_storage();
    storage.insert_batch(vec![vote_packet(0)]);
    assert_eq!(storage.len(), 1);
    let mut counts = Vec::new();
    let mut transactions_seen = Vec::new();
    let reached_end = storage.process_packets(
        bank,
        &BankingStageStats::default(),
        &mut LeaderSlotMetricsTracker::new(0),
        |count, _flag, transactions, _tracker| {
            counts.push(count);
            transactions_seen.push(transactions.len());
            Some((0..count).collect())
        },
    );
    assert!(!reached_end);
    assert_eq!(counts, vec![1]);
    assert_eq!(transactions_seen, vec![1]);
    assert_eq!(storage.len(), 1);
    assert!(!storage.is_empty());
}

#[test]
fn round_returns_true_when_the_step_ends_the_slot() {
    let bank = Arc::new(bank_with(1));
    let mut storage = tpu_storage();
    storage.insert_batch(vec![vote_packet(0)]);
    let reached_end = storage.process_packets(
        bank,
        &BankingStageStats::default(),
        &mut LeaderSlotMetricsTracker::new(0),
        |_count, flag, _transactions, _tracker| {
            *flag = true;
            None
        },
    );
    assert!(reached_end);
    assert_eq!(storage.len(), 1);
}

#[test]
fn round_over_an_empty_pool_calls_no_step() {
    let bank = Arc::new(bank_with(1));
    let mut storage = tpu_storage();
    let mut calls = 0;
    let reached_end = storage.process_packets(
        bank,
        &BankingStageStats::default(),
        &mut LeaderSlotMetricsTracker::new(0),
        |_count, flag, _transactions, _tracker| {
            calls += 1;
            *flag = true;
            None
        },
    );
    assert!(!reached_end);
    assert_eq!(calls, 0);
    assert_eq!(storage.len(), 0);
}

#[test]
fn packet_over_the_lock_limit_is_left_out_of_the_batch() {
    let mut bank = bank_with(1);
    bank.transaction_account_lock_limit = 2;
    let packet = ImmutableDeserializedPacket::new(
        vec![key(1000), key(0), key(500)],
        true,
        Some(VoteInstruction { vote_pubkey: key(0), is_legacy: false }),
    );
    let mut storage = tpu_storage();
    storage.insert_batch(vec![packet]);
    assert_eq!(storage.len(), 1);
    let mut counts = Vec::new();
    let mut transactions_seen = Vec::new();
    let reached_end = storage.process_packets(
        Arc::new(bank),
        &BankingStageStats::default(),
        &mut LeaderSlotMetricsTracker::new(0),
        |count, _flag, transactions, _tracker| {
            counts.push(count);
            transactions_seen.push(transactions.len());
            Some((0..count).collect())
        },
    );
    assert!(!reached_end);
    assert_eq!(counts, vec![0]);
    assert_eq!(transactions_seen, vec![0]);
    assert_eq!(storage.len(), 0);
}

#[test]
fn one_hundred_and_thirty_packets_make_three_batches() {
    let bank = Arc::new(bank_with(130));
    let mut storage = tpu_storage();
    let packets: Vec<ImmutableDeserializedPacket> = (0..130).map(vote_packet).collect();
    storage.insert_batch(packets);
    assert_eq!(storage.len(), 130);
    let mut counts = Vec::new();
    let mut transactions_seen = Vec::new();
    storage.process_packets(
        bank,
        &BankingStageStats::default(),
        &mut LeaderSlotMetricsTracker::new(0),
        |count, _flag, transactions, _tracker| {
            counts.push(count);
            transactions_seen.push(transactions.len());
            transactions.clear();
            None
        },
    );
    assert_eq!(counts, vec![64, 64, 2]);
    assert_eq!(transactions_seen, vec![64, 64, 2]);
    assert_eq!(storage.len(), 130);
}

#[test]
fn step_that_names_no_packet_gets_the_whole_batch_put_back() {
    let bank = Arc::new(bank_with(3));
    let mut with_none = tpu_storage();
    let mut with_all = tpu_storage();
    with_none.insert_batch((0..3).map(vote_packet).collect());
    with_all.insert_batch((0..3).map(vote_packet).collect());
    with_none.process_packets(
        bank.clone(),
        &BankingStageStats::default(),
        &mut LeaderSlotMetricsTracker::new(0),
        |_count, _flag, _transactions, _tracker| None,
    );
    with_all.process_packets(
        bank,
        &BankingStageStats::default(),
        &mut LeaderSlotMetricsTracker::new(0),
        |count, _flag, _transactions, _tracker| Some((0..count).collect()),
    );
    assert_eq!(with_none.len(), 3);
    assert_eq!(with_all.len(), 3);
}

#[test]
fn only_the_named_packets_go_back() {
    let bank = Arc::new(bank_with(3));
    let mut storage = tpu_storage();
    storage.insert_batch((0..3).map(vote_packet).collect());
    storage.process_packets(
        bank.clone(),
        &BankingStageStats::default(),
        &mut LeaderSlotMetricsTracker::new(0),
        |_count, _flag, _transactions, _tracker| Some(vec![1]),
    );
    assert_eq!(storage.len(), 1);
    // The vote that went back is the one of validator 1.
    let mut first_keys = Vec::new();
    storage.process_packets(
        bank,
        &BankingStageStats::default(),
        &mut LeaderSlotMetricsTracker::new(0),
        |_count, _flag, transactions, _tracker| {
            for transaction in transactions.iter() {
                first_keys.push(transaction.fee_payer());
            }
            Some(vec![])
        },
    );
    assert_eq!(first_keys, vec![key(1001)]);
    assert_eq!(storage.len(), 0);
}

#[test]
fn empty_retry_set_puts_nothing_back() {
    let bank = Arc::new(bank_with(2));
    let mut storage = tpu_storage();
    storage.insert_batch((0..2).map(vote_packet).collect());
    storage.process_packets(
        bank,
        &BankingStageStats::default(),
        &mut LeaderSlotMetricsTracker::new(0),
        |_count, _flag, _transactions, _tracker| Some(Vec::new()),
    );
    assert!(storage.is_empty());
}

#[test]
fn after_the_end_of_the_slot_packets_go_in_unchecked() {
    // Validators 64..70 have nodes without an account: their packets fail the
    // fee payer check, but they come after the step has ended the slot.
    let mut bank = bank_with(70);
    bank.accounts.truncate(64);
    let bank = Arc::new(bank);
    let mut storage = tpu_storage();
    storage.insert_batch((0..70).map(vote_packet).collect());
    let mut counts = Vec::new();
    let mut transactions_seen = Vec::new();
    let reached_end = storage.process_packets(
        bank.clone(),
        &BankingStageStats::default(),
        &mut LeaderSlotMetricsTracker::new(0),
        |count, flag, transactions, _tracker| {
            counts.push(count);
            transactions_seen.push(transactions.len());
            *flag = true;
            None
        },
    );
    assert!(reached_end);
    assert_eq!(counts, vec![64, 6]);
    // No transaction was built for the second batch.
    assert_eq!(transactions_seen, vec![64, 64]);
    assert_eq!(storage.len(), 70);

    // In a round that does not end, the six packets are left out.
    let mut counts = Vec::new();
    storage.process_packets(
        bank,
        &BankingStageStats::default(),
        &mut LeaderSlotMetricsTracker::new(0),
        |count, _flag, _transactions, _tracker| {
            counts.push(count);
            None
        },
    );
    assert_eq!(counts, vec![64, 0]);
    assert_eq!(storage.len(), 64);
}

#[test]
fn votes_of_accounts_without_stake_are_not_drained() {
    let bank = Arc::new(bank_with(1));
    let mut storage = tpu_storage();
    storage.insert_batch(vec![vote_packet(0), vote_packet(1)]);
    assert_eq!(storage.len(), 2);
    let mut counts = Vec::new();
    storage.process_packets(
        bank,
        &BankingStageStats::default(),
        &mut LeaderSlotMetricsTracker::new(0),
        |count, _flag, _transactions, _tracker| {
            counts.push(count);
            Some(Vec::new())
        },
    );
    assert_eq!(counts, vec![1]);
    assert_eq!(storage.len(), 1);
}

#[test]
fn scan_chunk_fills_the_batch_in_order() {
    let mut bank = bank_with(4);
    bank.accounts[2].lamports = 1;
    let packets: Vec<Arc<ImmutableDeserializedPacket>> =
        (0..4).map(|n| Arc::new(vote_packet(n))).collect();
    let mut batch = CandidateBatch::new();
    batch.push(Arc::new(vote_packet(9)));
    let mut counters = TransactionErrorMetrics::default();
    let mut transactions = Vec::new();
    let mut tracker = LeaderSlotMetricsTracker::new(0);
    scan_chunk(
        &bank,
        &BankingStageStats::default(),
        &packets,
        1,
        4,
        false,
        &mut counters,
        &mut transactions,
        &mut tracker,
        &mut batch,
    );
    assert_eq!(batch.len(), 2);
    assert!(Arc::ptr_eq(batch.get(0), &packets[1]));
    assert!(Arc::ptr_eq(batch.get(1), &packets[3]));
    assert_eq!(transactions.len(), 2);
    assert_eq!(transactions[0].fee_payer(), key(1001));
    assert_eq!(transactions[1].fee_payer(), key(1003));
    assert_eq!(transactions[1].account_keys(), &vec![key(1003), key(3)]);
    assert!(transactions[1].is_simple_vote_transaction());
    assert_eq!(
        counters,
        TransactionErrorMetrics { account_not_found: 0, insufficient_funds: 1, account_in_use: 0 }
    );
}

#[test]
fn batches_are_made_in_the_order_of_stake() {
    let mut bank = bank_with(4);
    bank.epoch_stakes[0].stake = 5;
    bank.epoch_stakes[1].stake = 9;
    bank.epoch_stakes[2].stake = 5;
    bank.epoch_stakes[3].stake = 0;
    let mut storage = tpu_storage();
    storage.insert_batch((0..4).map(vote_packet).collect());
    let mut payers = Vec::new();
    storage.process_packets(
        Arc::new(bank),
        &BankingStageStats::default(),
        &mut LeaderSlotMetricsTracker::new(0),
        |_count, _flag, transactions, _tracker| {
            for transaction in transactions.iter() {
                payers.push(transaction.fee_payer());
            }
            Some(Vec::new())
        },
    );
    assert_eq!(payers, vec![key(1001), key(1000), key(1002)]);
    assert_eq!(storage.len(), 1);
}

#[test]
fn pool_can_be_handed_from_one_storage_to_another() {
    let mut gossip = VoteStorage::new(LatestUnprocessedVotes::new(), VoteSource::Gossip);
    gossip.insert_batch(vec![vote_packet(0)]);
    let mut tpu = VoteStorage::new(gossip.into_latest_unprocessed_votes(), VoteSource::Tpu);
    assert_eq!(tpu.len(), 1);
    let metrics = tpu.insert_batch(vec![vote_packet(0), vote_packet(1)]);
    assert_eq!(metrics.num_dropped_tpu, 1);
    assert_eq!(metrics.num_dropped_gossip, 0);
    assert_eq!(tpu.len(), 2);
    assert!(!tpu.should_not_process());
}
