use fed_coordinator::indexer::{
    backoff_delay, exceeds_timeout, handle_block, handle_block_at, is_elapsed_longer_than_timeout,
    stage_action,
    stage_block, to_signed_seconds, within_threshold, Block, BlockAction, ChainId,
    ExecutionOutcome, FunctionCall, Indexer, IndexerError, Options, RunOutcome, Supervisor,
    SupervisorAction, SupervisorEvent, POLL_INTERVAL,
};
use chrono::TimeZone;
use fed_coordinator::clock::{MAX_UTC_TIMESTAMP, MIN_UTC_TIMESTAMP};
use fed_coordinator::ipfs;
use fed_coordinator::worker::{VOTE_ATTEMPTS, VOTE_BACKOFF_MULTIPLIER};
use fed_coordinator::types::{LatestBlockHeight, ModelData, RequestArguments, RequestQueue};

fn s(text: &str) -> String {
    text.to_string()
}

fn options(behind: u64, running: u64) -> Options {
    Options {
        start_block_height: 100,
        behind_threshold: behind,
        running_threshold: running,
        chain_id: ChainId::Testnet,
    }
}

fn indexer(behind: u64, running: u64) -> Indexer {
    let cursor = LatestBlockHeight { account_id: s("bob"), block_height: 100 };
    Indexer::new(cursor, &options(behind, running))
}

fn submission(workers: &[&str], cid: &str, key: Vec<u8>) -> BlockAction {
    BlockAction {
        receiver_id: s("coordinator.near"),
        outcome: ExecutionOutcome::SuccessReceiptId,
        call: Some(FunctionCall {
            method_name: s("add_request"),
            arguments: Some(RequestArguments {
                epochs: 1,
                dataset_cid: s(cid),
                compressed_sk: key,
                workers: workers.iter().map(|w| w.to_string()).collect(),
            }),
        }),
    }
}

fn block(actions: Vec<BlockAction>) -> Block {
    Block { height: 101, timestamp_nanosec: 1_700_000_000_000_000_000, actions }
}

#[test]
fn backoff_doubles_until_capped() {
    assert_eq!(backoff_delay(0, 1, 1200), 1);
    assert_eq!(backoff_delay(1, 1, 1200), 2);
    assert_eq!(backoff_delay(10, 1, 1200), 1024);
    assert_eq!(backoff_delay(11, 1, 1200), 1200);
    assert_eq!(backoff_delay(1, 10, 3000), 20);
    assert_eq!(backoff_delay(8, 10, 3000), 2560);
    assert_eq!(backoff_delay(9, 10, 3000), 3000);
    assert_eq!(backoff_delay(4, 10, 300), 160);
    assert_eq!(backoff_delay(5, 10, 300), 300);
}

#[test]
fn backoff_with_large_counters_is_the_cap() {
    assert_eq!(backoff_delay(63, 1, u64::MAX), 1u64 << 63);
    assert_eq!(backoff_delay(63, 2, u64::MAX), u64::MAX);
    assert_eq!(backoff_delay(64, 1, u64::MAX), u64::MAX);
    assert_eq!(backoff_delay(u32::MAX, 1, 1200), 1200);
    assert_eq!(backoff_delay(u32::MAX, 0, 1200), 0);
    assert_eq!(backoff_delay(3, 5, 0), 0);
}

#[test]
fn backoff_never_shrinks() {
    let mut last = 0;
    for i in 0..80 {
        let delay = backoff_delay(i, 10, 3000);
        assert!(delay >= last);
        assert!(delay <= 3000);
        last = delay;
    }
    assert_eq!(last, 3000);
}

#[test]
fn stalled_watcher_is_restarted_after_two_seconds() {
    let watcher = indexer(200, 300);
    assert!(watcher.is_running_after(300, 0));
    assert!(!watcher.is_running_after(300, 1));
    assert!(!watcher.is_running_after(310, 0));
    let mut supervisor = Supervisor::new();
    assert_eq!(supervisor.step(SupervisorEvent::AttemptBegins), SupervisorAction::Build);
    assert_eq!(supervisor.attempts, 1);
    let running = watcher.is_running_after(310, 0);
    assert_eq!(supervisor.step(SupervisorEvent::RunningChecked(running)), SupervisorAction::Join);
    assert_eq!(
        supervisor.step(SupervisorEvent::RunEnded(RunOutcome::Cancelled)),
        SupervisorAction::RestartAfter(2)
    );
    assert_eq!(supervisor.attempts, 1);
}

#[test]
fn supervisor_delays_follow_the_attempt_counter() {
    let mut supervisor = Supervisor::new();
    assert_eq!(supervisor.attempts, 0);
    supervisor.step(SupervisorEvent::AttemptBegins);
    supervisor.step(SupervisorEvent::AttemptBegins);
    supervisor.step(SupervisorEvent::AttemptBegins);
    assert_eq!(supervisor.attempts, 3);
    assert_eq!(supervisor.step(SupervisorEvent::BuildFailed), SupervisorAction::RestartAfter(80));
    assert_eq!(
        supervisor.step(SupervisorEvent::ConsumerStarted),
        SupervisorAction::CheckRunningAfter(80)
    );
    assert_eq!(
        supervisor.step(SupervisorEvent::RunEnded(RunOutcome::Failed)),
        SupervisorAction::RestartAfter(8)
    );
    assert_eq!(
        supervisor.step(SupervisorEvent::RunEnded(RunOutcome::Completed)),
        SupervisorAction::Stop
    );
    assert_eq!(supervisor.attempts, 3);
}

#[test]
fn the_attempt_counter_stops_at_its_largest_value() {
    let mut late = Supervisor { attempts: u32::MAX };
    assert_eq!(late.step(SupervisorEvent::AttemptBegins), SupervisorAction::Build);
    assert_eq!(late.attempts, u32::MAX);
    assert_eq!(late.step(SupervisorEvent::BuildFailed), SupervisorAction::RestartAfter(3000));
    assert_eq!(late.step(SupervisorEvent::ConsumerStarted), SupervisorAction::CheckRunningAfter(300));
    assert_eq!(
        late.step(SupervisorEvent::RunEnded(RunOutcome::Failed)),
        SupervisorAction::RestartAfter(1200)
    );
}

#[test]
fn both_kinds_of_success_count() {
    assert!(ExecutionOutcome::SuccessValue.is_success());
    assert!(ExecutionOutcome::SuccessReceiptId.is_success());
    assert!(!ExecutionOutcome::Failure.is_success());
    assert!(!ExecutionOutcome::Missing.is_success());
}

#[test]
fn polling_goes_on_while_running_and_unfinished() {
    let mut supervisor = Supervisor::new();
    assert_eq!(POLL_INTERVAL, 60);
    assert_eq!(
        supervisor.step(SupervisorEvent::RunningChecked(true)),
        SupervisorAction::CheckFinishedAfter(60)
    );
    assert_eq!(
        supervisor.step(SupervisorEvent::FinishedChecked(false)),
        SupervisorAction::CheckRunningAfter(0)
    );
    assert_eq!(supervisor.step(SupervisorEvent::FinishedChecked(true)), SupervisorAction::Join);
    assert_eq!(supervisor.step(SupervisorEvent::RunningChecked(false)), SupervisorAction::Join);
    assert_eq!(supervisor.attempts, 0);
}

#[test]
fn within_threshold_includes_the_threshold() {
    assert!(within_threshold(0, 0, 0));
    assert!(!within_threshold(0, 1, 0));
    assert!(within_threshold(299, 999_999_999, 300));
    assert!(within_threshold(u64::MAX, 0, u64::MAX));
    assert!(!within_threshold(u64::MAX, 1, u64::MAX));
}

#[test]
fn exceeds_timeout_is_strict() {
    assert!(!exceeds_timeout(1_000, 0, true, 800, 200_000));
    assert!(exceeds_timeout(1_000, 1, true, 800, 200_000));
    assert!(exceeds_timeout(1_001, 0, true, 800, 200_000));
    assert!(!exceeds_timeout(1_001, 0, false, 800, 200_000));
    assert!(!exceeds_timeout(700, 0, true, 800, 0));
    assert!(exceeds_timeout(800, 1, true, 800, 0));
    assert!(!exceeds_timeout(i64::MAX, 0, true, i64::MIN, u128::MAX));
    assert!(exceeds_timeout(i64::MAX, 0, true, i64::MIN, 1));
}

#[test]
fn seconds_are_read_as_signed() {
    assert_eq!(to_signed_seconds(0), 0);
    assert_eq!(to_signed_seconds(i64::MAX as u64), i64::MAX);
    assert_eq!(to_signed_seconds(i64::MAX as u64 + 1), i64::MIN);
    assert_eq!(to_signed_seconds(u64::MAX), -1);
}

#[test]
fn the_epoch_is_long_ago_and_the_far_future_is_not() {
    assert!(is_elapsed_longer_than_timeout(0, 1_000));
    assert!(!is_elapsed_longer_than_timeout(16_000_000_000, 1_000));
    assert!(is_elapsed_longer_than_timeout(u64::MAX, 1_000));
}

#[test]
fn a_moment_outside_the_calendar_never_counts_as_elapsed() {
    assert!(!is_elapsed_longer_than_timeout(i64::MAX as u64, 0));
    assert!(!is_elapsed_longer_than_timeout(i64::MAX as u64 + 1, 0));
}

#[test]
fn a_watcher_without_blocks_is_behind() {
    let watcher = indexer(200, 300);
    assert_eq!(watcher.latest_block_height(), 100);
    assert!(watcher.is_behind());
    assert!(watcher.is_behind_at(0, 0));
    assert!(watcher.is_behind_at(i64::MIN, 0));
    assert!(watcher.is_running());
}

#[test]
fn behind_once_the_threshold_is_exceeded() {
    let mut watcher = indexer(200, 300);
    watcher.update_block_height_and_timestamp(101, 1_000_900_000_000);
    assert_eq!(watcher.latest_block_height(), 101);
    assert_eq!(watcher.latest_block_timestamp_nanosec, Some(1_000_900_000_000));
    assert!(!watcher.is_behind_at(1_200, 500_000_000));
    assert!(!watcher.is_behind_at(1_200, 900_000_000));
    assert!(watcher.is_behind_at(1_200, 900_000_001));
    assert!(watcher.is_behind_at(1_201, 0));
    assert!(!watcher.is_behind_at(900, 0));
    assert!(!watcher.is_behind_at(i64::MIN, 0));
    assert!(watcher.is_behind_at(i64::MAX, 0));
}

#[test]
fn behind_counts_the_nanoseconds_of_the_block() {
    let mut watcher = indexer(200, 300);
    watcher.update_block_height_and_timestamp(101, 1_000_999_999_999);
    assert!(!watcher.is_behind_at(1_200, 1));
    assert!(!watcher.is_behind_at(1_200, 999_999_999));
    assert!(watcher.is_behind_at(1_201, 0));
    let mut strict = indexer(0, 300);
    strict.update_block_height_and_timestamp(101, u64::MAX);
    assert!(!strict.is_behind_at(18_446_744_073, 709_551_615));
    assert!(strict.is_behind_at(18_446_744_073, 709_551_616));
    let mut patient = indexer(u64::MAX, 300);
    patient.update_block_height_and_timestamp(101, 0);
    assert!(!patient.is_behind_at(i64::MAX, 999_999_999));
}

#[test]
fn the_cursor_counts_as_moved_at_the_given_instant() {
    let start = std::time::Instant::now();
    let cursor = LatestBlockHeight { account_id: s("bob"), block_height: 100 };
    let mut watcher = Indexer::started_at(cursor, &options(200, 300), start);
    assert_eq!(watcher.last_updated_timestamp, start);
    assert_eq!(watcher.latest_block_timestamp_nanosec, None);
    assert_eq!(watcher.running_threshold, 300);
    assert_eq!(watcher.behind_threshold, 200);
    let later = start + std::time::Duration::from_secs(5);
    watcher.record_block(later, 101, 77);
    assert_eq!(watcher.last_updated_timestamp, later);
    assert_eq!(watcher.latest_block_height(), 101);
    assert_eq!(watcher.latest_block_height.account_id, "bob");
    assert_eq!(watcher.latest_block_timestamp_nanosec, Some(77));
}

#[test]
fn updating_the_cursor_refreshes_the_instant() {
    let start = std::time::Instant::now();
    let cursor = LatestBlockHeight { account_id: s("bob"), block_height: 100 };
    let old = start - std::time::Duration::from_secs(1_000);
    let mut watcher = Indexer::started_at(cursor, &options(200, 300), old);
    assert!(!watcher.is_running());
    watcher.update_block_height_and_timestamp(101, 77);
    assert!(watcher.last_updated_timestamp >= start);
    assert!(watcher.is_running());
}

#[test]
fn a_block_without_work_still_refreshes_the_instant() {
    let start = std::time::Instant::now();
    let cursor = LatestBlockHeight { account_id: s("bob"), block_height: 100 };
    let old = start - std::time::Duration::from_secs(1_000);
    let mut watcher = Indexer::started_at(cursor, &options(200, 300), old);
    let mut queue = RequestQueue::new();
    let blk = block(vec![submission(&["alice"], "cid-1", vec![7])]);
    let now = start + std::time::Duration::from_secs(1);
    let result =
        handle_block_at(&blk, &s("coordinator.near"), &s("bob"), &mut queue, &mut watcher, now);
    assert_eq!(result, Ok(()));
    assert_eq!(watcher.last_updated_timestamp, now);
    assert_eq!(watcher.latest_block_height(), 101);
    assert_eq!(queue.len(), 0);
    let mut stale = Indexer::started_at(
        LatestBlockHeight { account_id: s("bob"), block_height: 100 },
        &options(200, 300),
        old,
    );
    handle_block(&block(vec![]), &s("coordinator.near"), &s("bob"), &mut queue, &mut stale)
        .unwrap();
    assert!(stale.last_updated_timestamp >= start);
    assert!(stale.is_running());
}

#[test]
fn a_refused_block_leaves_the_instant_alone() {
    let start = std::time::Instant::now();
    let cursor = LatestBlockHeight { account_id: s("bob"), block_height: 100 };
    let mut watcher = Indexer::started_at(cursor, &options(200, 300), start);
    let mut queue = RequestQueue::new();
    let mut lost = submission(&["bob"], "cid-2", vec![2]);
    lost.outcome = ExecutionOutcome::Missing;
    let now = start + std::time::Duration::from_secs(9);
    let result = handle_block_at(
        &block(vec![lost]),
        &s("coordinator.near"),
        &s("bob"),
        &mut queue,
        &mut watcher,
        now,
    );
    assert_eq!(result, Err(IndexerError::ReceiptNotFound));
    assert_eq!(watcher.last_updated_timestamp, start);
    assert_eq!(watcher.latest_block_height(), 100);
}

#[test]
fn the_calendar_ends_where_the_constants_say() {
    assert_eq!(MIN_UTC_TIMESTAMP, -8_334_601_228_800);
    assert_eq!(MAX_UTC_TIMESTAMP, 8_210_266_876_799);
    assert!(chrono::Utc.timestamp_opt(MIN_UTC_TIMESTAMP, 0).single().is_some());
    assert!(chrono::Utc.timestamp_opt(MIN_UTC_TIMESTAMP - 1, 0).single().is_none());
    assert!(chrono::Utc.timestamp_opt(MAX_UTC_TIMESTAMP, 0).single().is_some());
    assert!(chrono::Utc.timestamp_opt(MAX_UTC_TIMESTAMP + 1, 0).single().is_none());
    assert!(chrono::Utc.timestamp_opt(0, 0).single().is_some());
    assert!(chrono::Utc.timestamp_opt(i64::MIN, 0).single().is_none());
    assert!(chrono::Utc.timestamp_opt(i64::MAX, 0).single().is_none());
}

#[test]
fn the_first_moment_of_the_calendar_counts_as_elapsed() {
    let first = MIN_UTC_TIMESTAMP as u64;
    assert_eq!(to_signed_seconds(first), MIN_UTC_TIMESTAMP);
    assert!(is_elapsed_longer_than_timeout(first, 0));
    assert!(!is_elapsed_longer_than_timeout(first - 1, 0));
}

#[test]
fn behind_by_the_wall_clock() {
    let mut watcher = indexer(200, 300);
    watcher.update_block_height_and_timestamp(101, 0);
    assert!(watcher.is_behind());
    watcher.update_block_height_and_timestamp(102, 16_000_000_000_000_000_000);
    assert!(!watcher.is_behind());
    assert!(watcher.is_running());
}

#[test]
fn the_cursor_moves_and_keeps_its_account() {
    let mut cursor = LatestBlockHeight { account_id: s("bob"), block_height: 1 };
    cursor.set(5).set(9);
    assert_eq!(cursor.block_height, 9);
    assert_eq!(cursor.account_id, "bob");
}

#[test]
fn a_submission_for_another_worker_is_not_enqueued() {
    let mut queue = RequestQueue::new();
    let mut watcher = indexer(200, 300);
    let blk = block(vec![submission(&["alice"], "cid-1", vec![7])]);
    let result =
        handle_block(&blk, &s("coordinator.near"), &s("bob"), &mut queue, &mut watcher);
    assert_eq!(result, Ok(()));
    assert_eq!(queue.len(), 0);
    assert_eq!(watcher.latest_block_height(), 101);
    assert_eq!(watcher.latest_block_timestamp_nanosec, Some(1_700_000_000_000_000_000));
}

#[test]
fn a_submission_for_this_worker_is_enqueued_once() {
    let mut queue = RequestQueue::new();
    let mut watcher = indexer(200, 300);
    let blk = block(vec![submission(&["alice"], "cid-1", vec![7])]);
    let result =
        handle_block(&blk, &s("coordinator.near"), &s("alice"), &mut queue, &mut watcher);
    assert_eq!(result, Ok(()));
    assert_eq!(
        queue.requests,
        vec![ModelData { dataset: s("cid-1"), compressed_secret_key: vec![7] }]
    );
    assert_eq!(watcher.latest_block_height(), 101);
}

#[test]
fn only_matching_actions_are_staged() {
    let contract = s("coordinator.near");
    let worker = s("bob");
    let good = submission(&["alice", "bob"], "cid-1", vec![1]);
    assert_eq!(
        stage_action(&good, &contract, &worker),
        Some(ModelData { dataset: s("cid-1"), compressed_secret_key: vec![1] })
    );
    let mut elsewhere = good.clone();
    elsewhere.receiver_id = s("other.near");
    assert_eq!(stage_action(&elsewhere, &contract, &worker), None);
    let mut failed = good.clone();
    failed.outcome = ExecutionOutcome::Failure;
    assert_eq!(stage_action(&failed, &contract, &worker), None);
    let mut returned = good.clone();
    returned.outcome = ExecutionOutcome::SuccessValue;
    assert_eq!(
        stage_action(&returned, &contract, &worker),
        Some(ModelData { dataset: s("cid-1"), compressed_secret_key: vec![1] })
    );
    let mut lost = good.clone();
    lost.outcome = ExecutionOutcome::Missing;
    assert_eq!(stage_action(&lost, &contract, &worker), None);
    let mut transfer = good.clone();
    transfer.call = None;
    assert_eq!(stage_action(&transfer, &contract, &worker), None);
    let mut other_method = good.clone();
    other_method.call.as_mut().unwrap().method_name = s("complete_request");
    assert_eq!(stage_action(&other_method, &contract, &worker), None);
    let mut malformed = good.clone();
    malformed.call.as_mut().unwrap().arguments = None;
    assert_eq!(stage_action(&malformed, &contract, &worker), None);
}

#[test]
fn a_malformed_payload_skips_only_its_action() {
    let mut malformed = submission(&["bob"], "cid-0", vec![]);
    malformed.call.as_mut().unwrap().arguments = None;
    let blk = block(vec![
        submission(&["bob"], "cid-1", vec![1]),
        malformed,
        submission(&["alice"], "cid-2", vec![2]),
        submission(&["carol", "bob"], "cid-3", vec![3]),
    ]);
    let staged = stage_block(&blk, &s("coordinator.near"), &s("bob"));
    assert_eq!(
        staged,
        Ok(vec![
            ModelData { dataset: s("cid-1"), compressed_secret_key: vec![1] },
            ModelData { dataset: s("cid-3"), compressed_secret_key: vec![3] },
        ])
    );
}

#[test]
fn a_missing_receipt_refuses_the_block() {
    let mut lost = submission(&["bob"], "cid-2", vec![2]);
    lost.outcome = ExecutionOutcome::Missing;
    let blk = block(vec![submission(&["bob"], "cid-1", vec![1]), lost]);
    let mut queue = RequestQueue::new();
    let mut watcher = indexer(200, 300);
    let result = handle_block(&blk, &s("coordinator.near"), &s("bob"), &mut queue, &mut watcher);
    assert_eq!(result, Err(IndexerError::ReceiptNotFound));
    assert_eq!(queue.len(), 0);
    assert_eq!(watcher.latest_block_height(), 100);
    assert_eq!(watcher.latest_block_timestamp_nanosec, None);
}

#[test]
fn a_missing_receipt_for_another_contract_does_not_matter() {
    let mut lost = submission(&["bob"], "cid-2", vec![2]);
    lost.outcome = ExecutionOutcome::Missing;
    lost.receiver_id = s("other.near");
    let blk = block(vec![lost]);
    assert_eq!(stage_block(&blk, &s("coordinator.near"), &s("bob")), Ok(vec![]));
}

#[test]
fn an_empty_block_still_moves_the_cursor() {
    let mut queue = RequestQueue::new();
    let mut watcher = indexer(200, 300);
    let result =
        handle_block(&block(vec![]), &s("coordinator.near"), &s("bob"), &mut queue, &mut watcher);
    assert_eq!(result, Ok(()));
    assert_eq!(watcher.latest_block_height(), 101);
    assert_eq!(queue.len(), 0);
}

#[test]
fn equal_work_in_one_block_is_enqueued_once() {
    let mut queue = RequestQueue::new();
    let mut watcher = indexer(200, 300);
    let blk = block(vec![
        submission(&["bob"], "cid-1", vec![1]),
        submission(&["bob"], "cid-1", vec![1]),
        submission(&["bob"], "cid-1", vec![2]),
    ]);
    handle_block(&blk, &s("coordinator.near"), &s("bob"), &mut queue, &mut watcher).unwrap();
    assert_eq!(queue.len(), 2);
}

#[test]
fn the_queue_holds_each_content_once() {
    let mut queue = RequestQueue::default();
    let a = ModelData { dataset: s("cid-1"), compressed_secret_key: vec![1] };
    let b = ModelData { dataset: s("cid-1"), compressed_secret_key: vec![2] };
    let c = ModelData { dataset: s("cid-2"), compressed_secret_key: vec![1] };
    queue.add_request(a.clone());
    queue.add_request(b.clone());
    queue.add_request(a.clone());
    queue.add_request(c.clone());
    queue.add_request(b.clone());
    assert_eq!(queue.requests, vec![a.clone(), b.clone(), c.clone()]);
    assert!(queue.contains(&a));
    assert!(!queue.contains(&ModelData { dataset: s("cid-2"), compressed_secret_key: vec![] }));
}

#[test]
fn a_queue_with_a_repeated_entry_is_not_well_formed() {
    let a = ModelData { dataset: s("cid-1"), compressed_secret_key: vec![1] };
    let b = ModelData { dataset: s("cid-2"), compressed_secret_key: vec![1] };
    assert!(RequestQueue::new().is_well_formed());
    assert!(RequestQueue { requests: vec![a.clone(), b.clone()] }.is_well_formed());
    assert!(!RequestQueue { requests: vec![a.clone(), b, a] }.is_well_formed());
}

#[test]
fn claiming_takes_the_newest_entry() {
    let mut queue = RequestQueue::new();
    assert_eq!(queue.try_claim(), None);
    let a = ModelData { dataset: s("cid-1"), compressed_secret_key: vec![1] };
    let b = ModelData { dataset: s("cid-2"), compressed_secret_key: vec![2] };
    queue.add_request(a.clone());
    queue.add_request(b.clone());
    assert_eq!(queue.try_claim(), Some(b.clone()));
    assert!(!queue.contains(&b));
    assert!(queue.contains(&a));
    assert_eq!(queue.try_claim(), Some(a));
    assert_eq!(queue.try_claim(), None);
    assert_eq!(queue.len(), 0);
}

#[test]
fn a_fetched_file_goes_below_the_download_directory() {
    let options = ipfs::Options { download_dir: s("./datasets") };
    assert_eq!(options.download_path("data.csv"), "./datasets/data.csv");
    let slashed = ipfs::Options { download_dir: s("./datasets/") };
    assert_eq!(slashed.download_path("data.csv"), "./datasets//data.csv");
}

#[test]
fn a_vote_gets_ten_attempts_with_multiplier_five() {
    assert_eq!(VOTE_ATTEMPTS, 10);
    assert_eq!(VOTE_BACKOFF_MULTIPLIER, 5);
}
