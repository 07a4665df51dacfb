use std::sync::Arc;
use vote_storage::bank::{Account, Bank, VoteAccountStake};
use vote_storage::candidate_batch::{CandidateBatch, UNPROCESSED_BUFFER_STEP_SIZE};
use vote_storage::consumer::check_fee_payer_unlocked;
use vote_storage::latest_unprocessed_votes::{LatestUnprocessedVotes, VoteBatchInsertionMetrics};
use vote_storage::metrics::{BankingStageStats, LeaderSlotMetricsTracker, TransactionErrorMetrics};
use vote_storage::packet::{
    DeserializedPacketError,
    ImmutableDeserializedPacket,
    LatestValidatorVotePacket,
    VoteInstruction,
};
use vote_storage::pubkey::{pubkey_eq, Pubkey};
use vote_storage::transaction::TransactionError;
use vote_storage::vote_source::VoteSource;
use vote_storage::vote_storage::{
    consume_scan_should_process_packet,
    convert_packets,
    VoteStorage,
    MAX_NUM_VOTES_RECEIVE,
};

fn key(n: u8) -> Pubkey {
    [n; 32]
}

fn vote_packet(payer: u8, vote_account: u8) -> ImmutableDeserializedPacket {
    ImmutableDeserializedPacket::new(
        vec![key(payer), key(vote_account)],
        true,
        Some(VoteInstruction { vote_pubkey: key(vote_account), is_legacy: false }),
    )
}

fn legacy_vote_packet(payer: u8, vote_account: u8) -> ImmutableDeserializedPacket {
    ImmutableDeserializedPacket::new(
        vec![key(payer), key(vote_account)],
        true,
        Some(VoteInstruction { vote_pubkey: key(vote_account), is_legacy: true }),
    )
}

fn transfer_packet(payer: u8, to: u8) -> ImmutableDeserializedPacket {
    ImmutableDeserializedPacket::new(vec![key(payer), key(to)], false, None)
}

fn bank() -> Bank {
    Bank {
        vote_only: false,
        transaction_account_lock_limit: 4,
        transaction_fee: 10,
        accounts: vec![
            Account { key: key(1), lamports: 10, locked: false },
            Account { key: key(2), lamports: 9, locked: false },
            Account { key: key(3), lamports: 50, locked: true },
            Account { key: key(1), lamports: 0, locked: true },
        ],
        epoch_stakes: vec![
            VoteAccountStake { vote_pubkey: key(101), stake: 5 },
            VoteAccountStake { vote_pubkey: key(102), stake: 0 },
            VoteAccountStake { vote_pubkey: key(101), stake: 0 },
        ],
        deprecate_legacy_vote_ixs: true,
    }
}

struct Scan {
    admitted: bool,
    transactions: usize,
    counters: TransactionErrorMetrics,
}

fn scan(bank: &Bank, packet: &ImmutableDeserializedPacket, reached_end_of_slot: bool) -> Scan {
    let mut counters = TransactionErrorMetrics::default();
    let mut transactions = Vec::new();
    let mut tracker = LeaderSlotMetricsTracker::new(0);
    let admitted = consume_scan_should_process_packet(
        bank,
        &BankingStageStats::default(),
        packet,
        reached_end_of_slot,
        &mut counters,
        &mut transactions,
        &mut tracker,
    );
    Scan { admitted, transactions: transactions.len(), counters }
}

const NO_ERRORS: TransactionErrorMetrics =
    TransactionErrorMetrics { account_not_found: 0, insufficient_funds: 0, account_in_use: 0 };

#[test]
fn gossip_storage_is_passed_over() {
    let gossip = VoteStorage::new(LatestUnprocessedVotes::new(), VoteSource::Gossip);
    let tpu = VoteStorage::new(LatestUnprocessedVotes::new(), VoteSource::Tpu);
    assert!(gossip.should_not_process());
    assert!(!tpu.should_not_process());
}

#[test]
fn receive_size_is_ten_thousand() {
    let storage = VoteStorage::new(LatestUnprocessedVotes::new(), VoteSource::Gossip);
    assert_eq!(storage.max_receive_size(), 10_000);
    assert_eq!(MAX_NUM_VOTES_RECEIVE, 10_000);
    assert_eq!(UNPROCESSED_BUFFER_STEP_SIZE, 64);
}

#[test]
fn new_storage_is_empty() {
    let storage = VoteStorage::new(LatestUnprocessedVotes::new(), VoteSource::Tpu);
    assert!(storage.is_empty());
    assert_eq!(storage.len(), 0);
}

#[test]
fn insert_adds_one_entry_for_each_usable_vote() {
    let mut storage = VoteStorage::new(LatestUnprocessedVotes::new(), VoteSource::Gossip);
    let metrics = storage.insert_batch(vec![
        vote_packet(1, 101),
        transfer_packet(1, 2),
        vote_packet(2, 102),
        ImmutableDeserializedPacket::new(Vec::new(), true, None),
        legacy_vote_packet(3, 103),
    ]);
    assert_eq!(storage.len(), 3);
    assert_eq!(metrics, VoteBatchInsertionMetrics { num_dropped_gossip: 0, num_dropped_tpu: 0 });
    let metrics = storage.insert_batch(vec![transfer_packet(1, 2)]);
    assert_eq!(storage.len(), 3);
    assert_eq!(metrics, VoteBatchInsertionMetrics { num_dropped_gossip: 0, num_dropped_tpu: 0 });
    let metrics = storage.insert_batch(Vec::new());
    assert_eq!(storage.len(), 3);
    assert_eq!(metrics, VoteBatchInsertionMetrics { num_dropped_gossip: 0, num_dropped_tpu: 0 });
}

#[test]
fn insert_does_not_replace_a_pending_vote() {
    let mut storage = VoteStorage::new(LatestUnprocessedVotes::new(), VoteSource::Tpu);
    storage.insert_batch(vec![vote_packet(1, 101)]);
    let metrics = storage.insert_batch(vec![vote_packet(3, 101), vote_packet(2, 101)]);
    assert_eq!(storage.len(), 1);
    assert_eq!(metrics, VoteBatchInsertionMetrics { num_dropped_gossip: 0, num_dropped_tpu: 2 });
    // The pending vote is still the one that account 1 pays for.
    let mut payers = Vec::new();
    storage.process_packets(
        Arc::new(bank()),
        &BankingStageStats::default(),
        &mut LeaderSlotMetricsTracker::new(0),
        |_count, _flag, transactions, _tracker| {
            for transaction in transactions.iter() {
                payers.push(transaction.fee_payer());
            }
            None
        },
    );
    assert_eq!(payers, vec![key(1)]);
}

#[test]
fn legacy_votes_are_turned_away_once_deprecated() {
    let mut storage = VoteStorage::new(LatestUnprocessedVotes::new(), VoteSource::Tpu);
    storage.insert_batch(vec![legacy_vote_packet(1, 101)]);
    assert_eq!(storage.len(), 1);
    storage.cache_epoch_boundary_info(&bank());
    assert_eq!(storage.len(), 1);
    storage.insert_batch(vec![legacy_vote_packet(2, 102), vote_packet(3, 103)]);
    assert_eq!(storage.len(), 2);
}

#[test]
fn legacy_vote_is_lost_in_a_round_after_deprecation() {
    let mut storage = VoteStorage::new(LatestUnprocessedVotes::new(), VoteSource::Tpu);
    storage.insert_batch(vec![legacy_vote_packet(1, 101)]);
    storage.cache_epoch_boundary_info(&bank());
    let mut counts = Vec::new();
    storage.process_packets(
        Arc::new(bank()),
        &BankingStageStats::default(),
        &mut LeaderSlotMetricsTracker::new(0),
        |count, _flag, _transactions, _tracker| {
            counts.push(count);
            None
        },
    );
    assert_eq!(counts, vec![1]);
    assert_eq!(storage.len(), 0);
}

#[test]
fn clear_forgets_every_vote() {
    let mut storage = VoteStorage::new(LatestUnprocessedVotes::new(), VoteSource::Tpu);
    storage.insert_batch(vec![vote_packet(1, 101), vote_packet(2, 102)]);
    assert_eq!(storage.len(), 2);
    storage.clear();
    assert!(storage.is_empty());
    assert_eq!(storage.len(), 0);
}

#[test]
fn pool_replaces_a_pending_vote_only_when_replenishing() {
    let mut pool = LatestUnprocessedVotes::new();
    let first = Arc::new(vote_packet(1, 101));
    let second = Arc::new(vote_packet(2, 101));
    let third = Arc::new(vote_packet(3, 102));
    let entries = convert_packets(&vec![first.clone(), third.clone()], VoteSource::Gossip, false);
    assert_eq!(entries.len(), 2);
    let metrics = pool.insert_batch(entries, false);
    assert_eq!(metrics, VoteBatchInsertionMetrics { num_dropped_gossip: 0, num_dropped_tpu: 0 });
    assert_eq!(pool.len(), 2);

    let entries = convert_packets(&vec![second.clone()], VoteSource::Tpu, false);
    let metrics = pool.insert_batch(entries, false);
    assert_eq!(metrics, VoteBatchInsertionMetrics { num_dropped_gossip: 0, num_dropped_tpu: 1 });
    assert_eq!(pool.len(), 2);

    let entries = convert_packets(&vec![second.clone()], VoteSource::Tpu, false);
    let metrics = pool.insert_batch(entries, true);
    assert_eq!(metrics, VoteBatchInsertionMetrics { num_dropped_gossip: 1, num_dropped_tpu: 0 });
    assert_eq!(pool.len(), 2);

    let mut stakes = bank();
    stakes.epoch_stakes[1].stake = 3;
    let drained = pool.drain_unprocessed(&stakes);
    assert_eq!(drained.len(), 2);
    assert!(Arc::ptr_eq(&drained[0], &second));
    assert!(Arc::ptr_eq(&drained[1], &third));
    assert!(pool.is_empty());
}

#[test]
fn drain_leaves_votes_without_stake_in_the_pool() {
    let mut pool = LatestUnprocessedVotes::new();
    let packets = vec![
        Arc::new(vote_packet(1, 102)),
        Arc::new(vote_packet(2, 101)),
        Arc::new(vote_packet(3, 103)),
    ];
    pool.insert_batch(convert_packets(&packets, VoteSource::Tpu, false), false);
    // Account 101 has stake 5, account 102 has stake 0, account 103 is unknown.
    let drained = pool.drain_unprocessed(&bank());
    assert_eq!(drained.len(), 1);
    assert!(Arc::ptr_eq(&drained[0], &packets[1]));
    assert_eq!(pool.len(), 2);
    assert!(!pool.is_empty());
    pool.clear();
    assert_eq!(pool.len(), 0);
}

#[test]
fn pool_takes_its_vote_format_policy_from_the_bank() {
    let mut pool = LatestUnprocessedVotes::new();
    assert!(!pool.should_deprecate_legacy_vote_ixs());
    pool.cache_epoch_boundary_info(&bank());
    assert!(pool.should_deprecate_legacy_vote_ixs());
}

#[test]
fn conversion_fails_for_what_is_no_usable_vote() {
    let source = VoteSource::Tpu;
    let vote = Arc::new(vote_packet(1, 101));
    let entry = LatestValidatorVotePacket::new_from_immutable(vote.clone(), source, true).unwrap();
    assert_eq!(entry.vote_pubkey(), key(101));
    assert_eq!(entry.vote_source, VoteSource::Tpu);
    assert!(Arc::ptr_eq(&entry.vote, &vote));
    assert!(Arc::ptr_eq(&entry.share().vote, &vote));

    let legacy = Arc::new(legacy_vote_packet(1, 101));
    assert!(LatestValidatorVotePacket::new_from_immutable(legacy.clone(), source, false).is_ok());
    assert_eq!(
        LatestValidatorVotePacket::new_from_immutable(legacy, source, true).unwrap_err(),
        DeserializedPacketError::VoteTransactionError
    );
    let transfer = Arc::new(transfer_packet(1, 2));
    assert_eq!(
        LatestValidatorVotePacket::new_from_immutable(transfer, source, false).unwrap_err(),
        DeserializedPacketError::VoteTransactionError
    );
}

#[test]
fn usable_packet_is_admitted_and_its_transaction_added() {
    let result = scan(&bank(), &vote_packet(1, 101), false);
    assert!(result.admitted);
    assert_eq!(result.transactions, 1);
    assert_eq!(result.counters, NO_ERRORS);
}

#[test]
fn packet_with_an_account_named_twice_is_rejected() {
    let packet = ImmutableDeserializedPacket::new(
        vec![key(1), key(101), key(1)],
        true,
        Some(VoteInstruction { vote_pubkey: key(101), is_legacy: false }),
    );
    let result = scan(&bank(), &packet, false);
    assert!(!result.admitted);
    assert_eq!(result.transactions, 0);
    assert_eq!(result.counters, NO_ERRORS);
}

#[test]
fn packet_with_more_accounts_than_the_limit_is_rejected() {
    let five = ImmutableDeserializedPacket::new(
        vec![key(1), key(101), key(7), key(8), key(9)],
        true,
        Some(VoteInstruction { vote_pubkey: key(101), is_legacy: false }),
    );
    let four = ImmutableDeserializedPacket::new(
        vec![key(1), key(101), key(7), key(8)],
        true,
        Some(VoteInstruction { vote_pubkey: key(101), is_legacy: false }),
    );
    let result = scan(&bank(), &five, false);
    assert!(!result.admitted);
    assert_eq!(result.transactions, 0);
    let result = scan(&bank(), &four, false);
    assert!(result.admitted);
    assert_eq!(result.transactions, 1);
}

#[test]
fn packet_with_forty_distinct_accounts_is_admitted() {
    let mut bank = bank();
    bank.transaction_account_lock_limit = 64;
    let keys: Vec<Pubkey> = (1..=40).map(key).collect();
    let packet = ImmutableDeserializedPacket::new(keys.clone(), true, None);
    assert!(scan(&bank, &packet, false).admitted);
    let mut twice = keys;
    twice.push(key(40));
    let packet = ImmutableDeserializedPacket::new(twice, true, None);
    assert!(!scan(&bank, &packet, false).admitted);
}

#[test]
fn packet_that_yields_no_transaction_is_rejected() {
    let mut votes_only = bank();
    votes_only.vote_only = true;
    let result = scan(&votes_only, &transfer_packet(1, 2), false);
    assert!(!result.admitted);
    assert_eq!(result.transactions, 0);
    assert!(scan(&bank(), &transfer_packet(1, 2), false).admitted);
    assert!(scan(&votes_only, &vote_packet(1, 101), false).admitted);

    let nameless = ImmutableDeserializedPacket::new(Vec::new(), true, None);
    assert!(!scan(&bank(), &nameless, false).admitted);
    assert!(nameless.build_sanitized_transaction(false).is_none());
    assert!(transfer_packet(1, 2).build_sanitized_transaction(true).is_none());
    assert!(!transfer_packet(1, 2).is_simple_vote());
}

#[test]
fn fee_payer_that_cannot_pay_is_rejected_and_counted() {
    let result = scan(&bank(), &vote_packet(9, 101), false);
    assert!(!result.admitted);
    assert_eq!(result.transactions, 0);
    assert_eq!(
        result.counters,
        TransactionErrorMetrics { account_not_found: 1, insufficient_funds: 0, account_in_use: 0 }
    );
    let result = scan(&bank(), &vote_packet(2, 101), false);
    assert!(!result.admitted);
    assert_eq!(
        result.counters,
        TransactionErrorMetrics { account_not_found: 0, insufficient_funds: 1, account_in_use: 0 }
    );
    let result = scan(&bank(), &vote_packet(3, 101), false);
    assert!(!result.admitted);
    assert_eq!(
        result.counters,
        TransactionErrorMetrics { account_not_found: 0, insufficient_funds: 0, account_in_use: 1 }
    );
}

#[test]
fn fee_payer_check_names_the_reason() {
    let bank = bank();
    let mut counters =
        TransactionErrorMetrics { account_not_found: usize::MAX, insufficient_funds: 4, account_in_use: 0 };
    let missing = vote_packet(9, 101).build_sanitized_transaction(false).unwrap();
    let poor = vote_packet(2, 101).build_sanitized_transaction(false).unwrap();
    let locked = vote_packet(3, 101).build_sanitized_transaction(false).unwrap();
    let fine = vote_packet(1, 101).build_sanitized_transaction(false).unwrap();
    assert_eq!(
        check_fee_payer_unlocked(&bank, &missing, &mut counters),
        Err(TransactionError::AccountNotFound)
    );
    assert_eq!(
        check_fee_payer_unlocked(&bank, &poor, &mut counters),
        Err(TransactionError::InsufficientFundsForFee)
    );
    assert_eq!(
        check_fee_payer_unlocked(&bank, &locked, &mut counters),
        Err(TransactionError::AccountInUse)
    );
    assert_eq!(check_fee_payer_unlocked(&bank, &fine, &mut counters), Ok(()));
    assert_eq!(
        counters,
        TransactionErrorMetrics { account_not_found: usize::MAX, insufficient_funds: 5, account_in_use: 1 }
    );
}

#[test]
fn bank_lookups_take_the_first_match() {
    let bank = bank();
    assert_eq!(bank.get_account(&key(1)).unwrap().lamports, 10);
    assert!(!bank.get_account(&key(1)).unwrap().locked);
    assert!(bank.get_account(&key(9)).is_none());
    assert_eq!(bank.vote_account_stake(&key(101)), 5);
    assert_eq!(bank.vote_account_stake(&key(102)), 0);
    assert_eq!(bank.vote_account_stake(&key(103)), 0);
    assert!(!bank.vote_only_bank());
    assert_eq!(bank.get_transaction_account_lock_limit(), 4);
}

#[test]
fn after_the_end_of_the_slot_nothing_is_checked() {
    let packet = ImmutableDeserializedPacket::new(
        vec![key(9), key(9), key(9), key(9), key(9), key(9)],
        false,
        None,
    );
    let result = scan(&bank(), &packet, true);
    assert!(result.admitted);
    assert_eq!(result.transactions, 0);
    assert_eq!(result.counters, NO_ERRORS);
    assert!(!scan(&bank(), &packet, false).admitted);
}

#[test]
fn build_time_is_added_to_both_metrics() {
    let mut counters = TransactionErrorMetrics::default();
    let mut transactions = Vec::new();
    let mut tracker = LeaderSlotMetricsTracker::new(0);
    tracker.increment_transactions_from_packets_us(u64::MAX - 1);
    tracker.increment_transactions_from_packets_us(7);
    assert_eq!(tracker.transactions_from_packets_us, u64::MAX);
    let stats = BankingStageStats::default();
    assert_eq!(tracker.id, 0);
    stats.add_packet_conversion_elapsed(3);
    stats.add_packet_conversion_elapsed(4);
    assert_eq!(stats.packet_conversion_elapsed(), 7);
    consume_scan_should_process_packet(
        &bank(),
        &stats,
        &vote_packet(1, 101),
        false,
        &mut counters,
        &mut transactions,
        &mut tracker,
    );
    assert_eq!(tracker.transactions_from_packets_us, u64::MAX);
    assert!(stats.packet_conversion_elapsed() >= 7);
}

#[test]
fn keys_are_compared_byte_by_byte() {
    let mut other = key(4);
    assert!(pubkey_eq(&key(4), &other));
    other[31] = 5;
    assert!(!pubkey_eq(&key(4), &other));
    assert!(!pubkey_eq(&key(4), &key(5)));
}

#[test]
fn batch_keeps_packets_in_the_order_of_arrival() {
    let first = Arc::new(vote_packet(1, 101));
    let second = Arc::new(vote_packet(2, 102));
    let mut batch = CandidateBatch::new();
    assert_eq!(batch.len(), 0);
    assert!(!batch.is_full());
    batch.push(first.clone());
    batch.push(second.clone());
    assert_eq!(batch.len(), 2);
    assert!(Arc::ptr_eq(batch.get(0), &first));
    assert!(Arc::ptr_eq(batch.get(1), &second));
    let drained = batch.drain();
    assert_eq!(drained.len(), 2);
    assert!(Arc::ptr_eq(&drained[0], &first));
    assert!(Arc::ptr_eq(&drained[1], &second));
    assert_eq!(batch.len(), 0);
    batch.push(second);
    batch.clear();
    assert_eq!(batch.len(), 0);
    for n in 0..64 {
        assert!(!batch.is_full());
        batch.push(Arc::new(vote_packet(n, 101)));
    }
    assert!(batch.is_full());
    assert_eq!(batch.len(), UNPROCESSED_BUFFER_STEP_SIZE);
}

#[test]
fn reinsert_puts_back_the_named_packets_and_replaces_pending_votes() {
    let mut storage = VoteStorage::new(LatestUnprocessedVotes::new(), VoteSource::Tpu);
    storage.insert_batch(vec![vote_packet(1, 101)]);
    let mut batch = CandidateBatch::new();
    batch.push(Arc::new(vote_packet(2, 101)));
    batch.push(Arc::new(vote_packet(3, 103)));
    batch.push(Arc::new(transfer_packet(1, 2)));
    storage.reinsert_retryable(&mut batch, Some(vec![2, 0, 0]), false);
    assert_eq!(storage.len(), 1);
    assert_eq!(batch.len(), 3);
    storage.reinsert_retryable(&mut batch, None, false);
    assert_eq!(storage.len(), 2);
    assert_eq!(batch.len(), 0);
}

#[test]
fn drain_hands_the_largest_stake_over_first() {
    let mut pool = LatestUnprocessedVotes::new();
    let packets: Vec<Arc<ImmutableDeserializedPacket>> =
        (1..=5).map(|n| Arc::new(vote_packet(n, 100 + n))).collect();
    pool.insert_batch(convert_packets(&packets, VoteSource::Tpu, false), false);
    let bank = Bank {
        vote_only: false,
        transaction_account_lock_limit: 4,
        transaction_fee: 10,
        accounts: Vec::new(),
        epoch_stakes: vec![
            VoteAccountStake { vote_pubkey: key(101), stake: 3 },
            VoteAccountStake { vote_pubkey: key(102), stake: 7 },
            VoteAccountStake { vote_pubkey: key(103), stake: 0 },
            VoteAccountStake { vote_pubkey: key(104), stake: 7 },
            VoteAccountStake { vote_pubkey: key(105), stake: u64::MAX },
        ],
        deprecate_legacy_vote_ixs: false,
    };
    let drained = pool.drain_unprocessed(&bank);
    assert_eq!(drained.len(), 4);
    assert!(Arc::ptr_eq(&drained[0], &packets[4]));
    assert!(Arc::ptr_eq(&drained[1], &packets[1]));
    assert!(Arc::ptr_eq(&drained[2], &packets[3]));
    assert!(Arc::ptr_eq(&drained[3], &packets[0]));
    assert_eq!(pool.len(), 1);
}
