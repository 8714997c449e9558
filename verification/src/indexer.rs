//! The block watcher: its liveness cursor and health predicates, the scan of
//! a block for work that concerns the local worker, and the delays of the
//! supervisor that restarts it.

use vstd::prelude::*;
use vstd::arithmetic::power2::{pow2, lemma_pow2_pos, lemma_pow2_unfold, lemma_pow2_strictly_increases};
use crate::clock::{elapsed_since, instant_now, utc_now, utc_timestamp_in_range, utc_timestamp_is_single};
use crate::account::{account_set, find_account};
use crate::state::copy_bytes;
use crate::types::{LatestBlockHeight, ModelData, RequestArguments, RequestQueue};

verus! {

/// The network whose blocks are watched.
#[derive(Clone, Copy, Debug, PartialEq, Eq, Structural)]
pub enum ChainId {
    Mainnet,
    Testnet,
}

/// The watcher's settings.
#[derive(Clone, Debug)]
pub struct Options {
    /// The block height to start from.
    pub start_block_height: u64,
    /// Seconds after the last block's timestamp from which the watcher
    /// counts as behind.
    pub behind_threshold: u64,
    /// Seconds without a cursor update after which the watcher counts as
    /// stalled.
    pub running_threshold: u64,
    pub chain_id: ChainId,
}

/// A time span in nanoseconds.
pub open spec fn span_nanos(secs: int, nanos: int) -> int {
    secs * 1_000_000_000 + nanos
}

/// The signed number that the bits of `timestamp_sec` stand for.
pub open spec fn signed_seconds(timestamp_sec: u64) -> int {
    if timestamp_sec <= i64::MAX {
        timestamp_sec as int
    } else {
        timestamp_sec - 0x1_0000_0000_0000_0000
    }
}

/// Reads the bits of `timestamp_sec` as a signed number.
pub fn to_signed_seconds(timestamp_sec: u64) -> (secs: i64)
    ensures
        secs == signed_seconds(timestamp_sec),
{
    if timestamp_sec <= 0x7fff_ffff_ffff_ffff {
        timestamp_sec as i64
    } else {
        let low: u64 = timestamp_sec - 0x8000_0000_0000_0000;
        (low as i64) + i64::MIN
    }
}

/// Whether no more than `threshold_secs` seconds have passed, given the time
/// that has passed as whole seconds and nanoseconds.
pub fn within_threshold(elapsed_secs: u64, elapsed_nanos: u32, threshold_secs: u64) -> (within:
    bool)
    ensures
        within == (span_nanos(elapsed_secs as int, elapsed_nanos as int) <= span_nanos(
            threshold_secs as int,
            0,
        )),
{
    let elapsed: u128 = (elapsed_secs as u128) * 1_000_000_000 + (elapsed_nanos as u128);
    let threshold: u128 = (threshold_secs as u128) * 1_000_000_000;
    elapsed <= threshold
}

/// Whether, at the moment `now_secs` seconds and `now_nanos` nanoseconds
/// after the Unix epoch, more than `timeout_ms` milliseconds have passed
/// since the moment `timestamp_sec` seconds after it. A timestamp that the
/// calendar cannot hold (`representable` is false) never counts as elapsed.
pub fn exceeds_timeout(
    now_secs: i64,
    now_nanos: u32,
    representable: bool,
    timestamp_sec: i64,
    timeout_ms: u128,
) -> (exceeded: bool)
    ensures
        exceeded == (representable && span_nanos(now_secs - timestamp_sec, now_nanos as int)
            > timeout_ms * 1_000_000),
{
    if !representable {
        return false;
    }
    let elapsed: i128 = ((now_secs as i128) - (timestamp_sec as i128)) * 1_000_000_000 + (
    now_nanos as i128);
    if elapsed < 0 {
        return false;
    }
    if timeout_ms >= 0x1_0000_0000_0000_0000_0000_0000 {
        return false;
    }
    (elapsed as u128) > timeout_ms * 1_000_000
}

/// Whether more than `timeout` milliseconds have passed since the moment
/// `timestamp_sec` seconds after the Unix epoch, by the wall clock. The
/// seconds are read as a signed number; a moment that the calendar cannot
/// hold never counts as elapsed.
pub fn is_elapsed_longer_than_timeout(timestamp_sec: u64, timeout: u64) -> (exceeded: bool)
    ensures
        !utc_timestamp_in_range(signed_seconds(timestamp_sec)) ==> !exceeded,
{
    let secs = to_signed_seconds(timestamp_sec);
    let representable = utc_timestamp_is_single(secs);
    let now = utc_now();
    exceeds_timeout(now.0, now.1, representable, secs, timeout as u128)
}

/// The watcher's liveness cursor and the thresholds it is judged by.
#[derive(Debug)]
pub struct Indexer {
    /// The last processed block.
    pub latest_block_height: LatestBlockHeight,
    /// When the cursor last moved, by the monotonic clock.
    pub last_updated_timestamp: std::time::Instant,
    /// The timestamp of the last processed block, once there is one.
    pub latest_block_timestamp_nanosec: Option<u64>,
    /// In seconds.
    pub running_threshold: u64,
    /// In seconds.
    pub behind_threshold: u64,
}

impl Indexer {
    /// A watcher that has seen no block yet and whose cursor counts as moved
    /// at the instant `now`.
    pub fn started_at(
        latest_block_height: LatestBlockHeight,
        options: &Options,
        now: std::time::Instant,
    ) -> (indexer: Self)
        ensures
            indexer.latest_block_height == latest_block_height,
            indexer.last_updated_timestamp == now,
            indexer.latest_block_timestamp_nanosec == None::<u64>,
            indexer.running_threshold == options.running_threshold,
            indexer.behind_threshold == options.behind_threshold,
    {
        Indexer {
            latest_block_height,
            last_updated_timestamp: now,
            latest_block_timestamp_nanosec: None,
            running_threshold: options.running_threshold,
            behind_threshold: options.behind_threshold,
        }
    }

    /// A watcher that has seen no block yet; its cursor counts as moved now,
    /// by the monotonic clock.
    pub fn new(latest_block_height: LatestBlockHeight, options: &Options) -> (indexer: Self)
        ensures
            indexer.latest_block_height == latest_block_height,
            indexer.latest_block_timestamp_nanosec == None::<u64>,
            indexer.running_threshold == options.running_threshold,
            indexer.behind_threshold == options.behind_threshold,
    {
        let now = instant_now();
        Indexer::started_at(latest_block_height, options, now)
    }

    /// The height of the last processed block.
    pub fn latest_block_height(&self) -> (height: u64)
        ensures
            height == self.latest_block_height.block_height,
    {
        self.latest_block_height.block_height
    }

    /// Whether the watcher counts as running when `elapsed_secs` seconds and
    /// `elapsed_nanos` nanoseconds have passed since the cursor last moved:
    /// no more than the running threshold.
    pub fn is_running_after(&self, elapsed_secs: u64, elapsed_nanos: u32) -> (running: bool)
        ensures
            running == (span_nanos(elapsed_secs as int, elapsed_nanos as int) <= span_nanos(
                self.running_threshold as int,
                0,
            )),
    {
        within_threshold(elapsed_secs, elapsed_nanos, self.running_threshold)
    }

    /// Whether the cursor has moved within the running threshold, by the
    /// monotonic clock.
    pub fn is_running(&self) -> (running: bool) {
        let elapsed = elapsed_since(&self.last_updated_timestamp);
        self.is_running_after(elapsed.0, elapsed.1)
    }

    /// Whether the watcher counts as behind at the moment `now_secs` seconds
    /// and `now_nanos` nanoseconds after the Unix epoch: no block was seen
    /// yet, or more than the behind threshold has passed since the last
    /// block's timestamp.
    pub fn is_behind_at(&self, now_secs: i64, now_nanos: u32) -> (behind: bool)
        ensures
            behind == (self.latest_block_timestamp_nanosec is None || span_nanos(
                now_secs as int,
                now_nanos as int,
            ) - self.latest_block_timestamp_nanosec->Some_0 > span_nanos(
                self.behind_threshold as int,
                0,
            )),
    {
        match self.latest_block_timestamp_nanosec {
            Some(nanosec) => {
                let now: i128 = (now_secs as i128) * 1_000_000_000 + (now_nanos as i128);
                let elapsed: i128 = now - (nanosec as i128);
                let threshold: i128 = (self.behind_threshold as i128) * 1_000_000_000;
                elapsed > threshold
            },
            None => true,
        }
    }

    /// Whether the watcher is behind, by the wall clock.
    pub fn is_behind(&self) -> (behind: bool)
        ensures
            self.latest_block_timestamp_nanosec is None ==> behind,
    {
        match self.latest_block_timestamp_nanosec {
            Some(_) => {
                let now = utc_now();
                self.is_behind_at(now.0, now.1)
            },
            None => true,
        }
    }

    /// Moves the cursor to a block, records the block's timestamp, and
    /// records `now` as the instant at which the cursor last moved.
    pub fn record_block(
        &mut self,
        now: std::time::Instant,
        block_height: u64,
        block_timestamp_nanosec: u64,
    )
        ensures
            final(self).last_updated_timestamp == now,
            final(self).latest_block_height.block_height == block_height,
            final(self).latest_block_height.account_id == old(self).latest_block_height.account_id,
            final(self).latest_block_timestamp_nanosec == Some(block_timestamp_nanosec),
            final(self).running_threshold == old(self).running_threshold,
            final(self).behind_threshold == old(self).behind_threshold,
    {
        self.last_updated_timestamp = now;
        self.latest_block_timestamp_nanosec = Some(block_timestamp_nanosec);
        let _cursor = self.latest_block_height.set(block_height);
    }

    /// Moves the cursor to a block and records the block's timestamp; the
    /// cursor counts as moved now, by the monotonic clock.
    pub fn update_block_height_and_timestamp(
        &mut self,
        block_height: u64,
        block_timestamp_nanosec: u64,
    )
        ensures
            final(self).latest_block_height.block_height == block_height,
            final(self).latest_block_height.account_id == old(self).latest_block_height.account_id,
            final(self).latest_block_timestamp_nanosec == Some(block_timestamp_nanosec),
            final(self).running_threshold == old(self).running_threshold,
            final(self).behind_threshold == old(self).behind_threshold,
    {
        let now = instant_now();
        self.record_block(now, block_height, block_timestamp_nanosec);
    }
}

/// The delay in seconds before restart `i`: two to the `i`, times
/// `multiplier`, and no more than `max`.
pub open spec fn backoff_delay_spec(i: u32, multiplier: u32, max: u64) -> int {
    if pow2(i as nat) * multiplier <= max {
        pow2(i as nat) * multiplier
    } else {
        max as int
    }
}

/// Computes the delay in seconds before restart `i`.
pub fn backoff_delay(i: u32, multiplier: u32, max: u64) -> (delay: u64)
    ensures
        delay == backoff_delay_spec(i, multiplier, max),
{
    if multiplier == 0 {
        assert(pow2(i as nat) * multiplier == 0) by (nonlinear_arith)
            requires
                multiplier == 0,
        ;
        return 0;
    }
    let mut power: u64 = 1;
    let mut k: u32 = 0;
    proof {
        vstd::arithmetic::power2::lemma2_to64();
    }
    while k < i
        invariant
            k <= i,
            power == pow2(k as nat),
            multiplier >= 1,
        decreases i - k,
    {
        if power > max / 2 {
            proof {
                lemma_pow2_unfold((k + 1) as nat);
                if k + 1 < i {
                    lemma_pow2_strictly_increases((k + 1) as nat, i as nat);
                }
                assert(pow2(i as nat) > max);
                assert(pow2(i as nat) * multiplier > max) by (nonlinear_arith)
                    requires
                        pow2(i as nat) > max,
                        multiplier >= 1,
                ;
            }
            return max;
        }
        proof {
            lemma_pow2_unfold((k + 1) as nat);
        }
        power = power * 2;
        k += 1;
    }
    match power.checked_mul(multiplier as u64) {
        Some(product) => if product <= max {
            product
        } else {
            max
        },
        None => max,
    }
}

/// The delay does not shrink from one restart to a later one.
pub proof fn lemma_backoff_delay_monotonic(i: u32, j: u32, multiplier: u32, max: u64)
    requires
        i <= j,
    ensures
        backoff_delay_spec(i, multiplier, max) <= backoff_delay_spec(j, multiplier, max),
        backoff_delay_spec(j, multiplier, max) <= max,
{
    lemma_pow2_pos(i as nat);
    lemma_pow2_pos(j as nat);
    if i < j {
        lemma_pow2_strictly_increases(i as nat, j as nat);
    }
    assert(pow2(i as nat) * multiplier <= pow2(j as nat) * multiplier) by (nonlinear_arith)
        requires
            pow2(i as nat) <= pow2(j as nat),
            multiplier >= 0,
    ;
}

/// How a run of the stream consumer ended.
#[derive(Clone, Copy, Debug, PartialEq, Eq, Structural)]
pub enum RunOutcome {
    /// The stream ended without an error.
    Completed,
    /// The consumer returned an error.
    Failed,
    /// The consumer was cancelled or died.
    Cancelled,
}

/// What the supervisor is told.
#[derive(Clone, Copy, Debug, PartialEq, Eq, Structural)]
pub enum SupervisorEvent {
    /// A new attempt to run the consumer begins.
    AttemptBegins,
    /// The stream consumer could not be built.
    BuildFailed,
    /// The stream consumer was built and started.
    ConsumerStarted,
    /// The watcher's running predicate was read.
    RunningChecked(bool),
    /// It was looked up whether the consumer has finished.
    FinishedChecked(bool),
    /// The consumer was joined.
    RunEnded(RunOutcome),
}

/// What the supervisor asks for next.
#[derive(Clone, Copy, Debug, PartialEq, Eq, Structural)]
pub enum SupervisorAction {
    /// Build the stream consumer and start it.
    Build,
    /// Wait this many seconds, then begin the next attempt.
    RestartAfter(u64),
    /// Wait this many seconds, then read the running predicate.
    CheckRunningAfter(u64),
    /// Wait this many seconds, then look up whether the consumer finished.
    CheckFinishedAfter(u64),
    /// Cancel the consumer if it has not finished, and join it.
    Join,
    /// End the supervision.
    Stop,
}

/// The seconds between two looks at a running consumer.
pub const POLL_INTERVAL: u64 = 60;

/// The restart policy of the watcher's supervisor. The attempt counter only
/// ever grows.
#[derive(Clone, Copy, Debug, PartialEq, Eq, Structural)]
pub struct Supervisor {
    /// The number of attempts begun so far.
    pub attempts: u32,
}

/// The attempt counter after an event: one more when an attempt begins, up to
/// the largest value, and unchanged otherwise.
pub open spec fn attempts_after(attempts: u32, event: SupervisorEvent) -> u32 {
    if event == SupervisorEvent::AttemptBegins && attempts < u32::MAX {
        (attempts + 1) as u32
    } else {
        attempts
    }
}

/// What the supervisor asks for after an event, with `attempts` the counter
/// after the event.
pub open spec fn action_after(attempts: u32, event: SupervisorEvent) -> SupervisorAction {
    match event {
        SupervisorEvent::AttemptBegins => SupervisorAction::Build,
        SupervisorEvent::BuildFailed => SupervisorAction::RestartAfter(
            backoff_delay_spec(attempts, 10, 3000) as u64,
        ),
        SupervisorEvent::ConsumerStarted => SupervisorAction::CheckRunningAfter(
            backoff_delay_spec(attempts, 10, 300) as u64,
        ),
        SupervisorEvent::RunningChecked(running) => if running {
            SupervisorAction::CheckFinishedAfter(POLL_INTERVAL)
        } else {
            SupervisorAction::Join
        },
        SupervisorEvent::FinishedChecked(finished) => if finished {
            SupervisorAction::Join
        } else {
            SupervisorAction::CheckRunningAfter(0)
        },
        SupervisorEvent::RunEnded(outcome) => if outcome == RunOutcome::Completed {
            SupervisorAction::Stop
        } else {
            SupervisorAction::RestartAfter(backoff_delay_spec(attempts, 1, 1200) as u64)
        },
    }
}

impl Supervisor {
    /// A supervisor that has begun no attempt.
    pub fn new() -> (supervisor: Self)
        ensures
            supervisor.attempts == 0,
    {
        Supervisor { attempts: 0 }
    }

    /// Takes an event and says what to do next.
    pub fn step(&mut self, event: SupervisorEvent) -> (action: SupervisorAction)
        ensures
            final(self).attempts == attempts_after(old(self).attempts, event),
            action == action_after(final(self).attempts, event),
    {
        match event {
            SupervisorEvent::AttemptBegins => {
                if self.attempts < u32::MAX {
                    self.attempts = self.attempts + 1;
                }
                SupervisorAction::Build
            },
            SupervisorEvent::BuildFailed => SupervisorAction::RestartAfter(
                backoff_delay(self.attempts, 10, 3000),
            ),
            SupervisorEvent::ConsumerStarted => SupervisorAction::CheckRunningAfter(
                backoff_delay(self.attempts, 10, 300),
            ),
            SupervisorEvent::RunningChecked(running) => {
                if running {
                    SupervisorAction::CheckFinishedAfter(POLL_INTERVAL)
                } else {
                    SupervisorAction::Join
                }
            },
            SupervisorEvent::FinishedChecked(finished) => {
                if finished {
                    SupervisorAction::Join
                } else {
                    SupervisorAction::CheckRunningAfter(0)
                }
            },
            SupervisorEvent::RunEnded(outcome) => {
                match outcome {
                    RunOutcome::Completed => SupervisorAction::Stop,
                    _ => SupervisorAction::RestartAfter(backoff_delay(self.attempts, 1, 1200)),
                }
            },
        }
    }
}

/// No event lowers the attempt counter, and every delay that the supervisor
/// asks for stays within the cap of its kind.
pub proof fn lemma_supervisor_counter_grows(attempts: u32, event: SupervisorEvent)
    ensures
        attempts_after(attempts, event) >= attempts,
        backoff_delay_spec(attempts, 10, 3000) <= 3000,
        backoff_delay_spec(attempts, 10, 300) <= 300,
        backoff_delay_spec(attempts, 1, 1200) <= 1200,
{
}

/// What became of an action when its receipt was executed.
#[derive(Clone, Copy, Debug, PartialEq, Eq, Structural)]
pub enum ExecutionOutcome {
    /// The block holds no receipt for the action.
    Missing,
    /// The execution failed.
    Failure,
    /// The execution succeeded and returned a value.
    SuccessValue,
    /// The execution succeeded and handed on to another receipt.
    SuccessReceiptId,
}

impl ExecutionOutcome {
    /// The outcomes that count as a success.
    pub open spec fn succeeded(&self) -> bool {
        *self == ExecutionOutcome::SuccessValue || *self == ExecutionOutcome::SuccessReceiptId
    }

    /// Whether the execution succeeded.
    pub fn is_success(&self) -> (success: bool)
        ensures
            success == self.succeeded(),
    {
        match self {
            ExecutionOutcome::SuccessValue => true,
            ExecutionOutcome::SuccessReceiptId => true,
            _ => false,
        }
    }
}

/// A call of a contract method. `arguments` holds the decoded arguments, or
/// `None` where the payload could not be decoded as a request submission.
#[derive(Clone, Debug)]
pub struct FunctionCall {
    pub method_name: String,
    pub arguments: Option<RequestArguments>,
}

/// One action of a block.
#[derive(Clone, Debug)]
pub struct BlockAction {
    /// The account that the action is addressed to.
    pub receiver_id: String,
    pub outcome: ExecutionOutcome,
    /// The call that the action makes, if it is a function call.
    pub call: Option<FunctionCall>,
}

/// A block of the ledger, with its actions in ledger order.
#[derive(Clone, Debug)]
pub struct Block {
    pub height: u64,
    pub timestamp_nanosec: u64,
    pub actions: Vec<BlockAction>,
}

/// Why a block could not be processed.
#[derive(Clone, Copy, Debug, PartialEq, Eq, Structural)]
pub enum IndexerError {
    /// An action addressed to the contract has no receipt in the block.
    ReceiptNotFound,
}

/// The name of the method that submits a request.
pub open spec fn submission_method() -> Seq<char> {
    "add_request"@
}

/// The work that one action brings to `worker`, if any: the action is
/// addressed to `contract`, succeeded, calls the submission method with
/// arguments that could be decoded, and names `worker` among its workers.
pub open spec fn staged_by(action: BlockAction, contract: Seq<char>, worker: Seq<char>) -> Option<
    (Seq<char>, Seq<u8>),
> {
    if action.receiver_id@ == contract && action.outcome.succeeded() && action.call is Some && action.call->Some_0.method_name@ == submission_method()
        && action.call->Some_0.arguments is Some && account_set(
        action.call->Some_0.arguments->Some_0.workers@,
    ).contains(worker) {
        Some(
            (
                action.call->Some_0.arguments->Some_0.dataset_cid@,
                action.call->Some_0.arguments->Some_0.compressed_sk@,
            ),
        )
    } else {
        None
    }
}

/// The work that a run of actions brings to `worker`, in ledger order.
pub open spec fn staged(actions: Seq<BlockAction>, contract: Seq<char>, worker: Seq<char>) -> Seq<
    (Seq<char>, Seq<u8>),
>
    decreases actions.len(),
{
    if actions.len() == 0 {
        Seq::empty()
    } else {
        let earlier = staged(actions.drop_last(), contract, worker);
        match staged_by(actions.last(), contract, worker) {
            Some(work) => earlier.push(work),
            None => earlier,
        }
    }
}

/// Whether some action addressed to `contract` has no receipt.
pub open spec fn receipt_missing(actions: Seq<BlockAction>, contract: Seq<char>) -> bool {
    exists|i: int|
        0 <= i < actions.len() && (#[trigger] actions[i]).receiver_id@ == contract
            && actions[i].outcome == ExecutionOutcome::Missing
}

/// The contents of a list of work items.
pub open spec fn contents_of(items: Seq<ModelData>) -> Seq<(Seq<char>, Seq<u8>)> {
    Seq::new(items.len(), |i: int| items[i]@)
}

/// The work that one action brings to `worker`, if any.
pub fn stage_action(action: &BlockAction, contract: &String, worker: &String) -> (work: Option<
    ModelData,
>)
    ensures
        match work {
            Some(item) => staged_by(*action, contract@, worker@) == Some(item@),
            None => staged_by(*action, contract@, worker@) is None,
        },
{
    if action.receiver_id != *contract {
        return None;
    }
    if !action.outcome.is_success() {
        return None;
    }
    match &action.call {
        Some(call) => {
            let submission = "add_request".to_owned();
            if call.method_name != submission {
                return None;
            }
            match &call.arguments {
                Some(arguments) => {
                    if find_account(&arguments.workers, worker).is_some() {
                        Some(
                            ModelData {
                                dataset: arguments.dataset_cid.clone(),
                                compressed_secret_key: copy_bytes(&arguments.compressed_sk),
                            },
                        )
                    } else {
                        None
                    }
                },
                None => None,
            }
        },
        None => None,
    }
}

/// The work that a block brings to `worker`, in ledger order. A block in
/// which an action addressed to `contract` has no receipt is refused.
pub fn stage_block(block: &Block, contract: &String, worker: &String) -> (result: Result<
    Vec<ModelData>,
    IndexerError,
>)
    ensures
        match result {
            Ok(pending) => !receipt_missing(block.actions@, contract@) && contents_of(pending@)
                == staged(block.actions@, contract@, worker@),
            Err(error) => receipt_missing(block.actions@, contract@) && error
                == IndexerError::ReceiptNotFound,
        },
{
    let mut pending: Vec<ModelData> = Vec::new();
    let mut i: usize = 0;
    assert(contents_of(pending@) =~= staged(block.actions@.take(0), contract@, worker@));
    while i < block.actions.len()
        invariant
            i <= block.actions.len(),
            contents_of(pending@) == staged(block.actions@.take(i as int), contract@, worker@),
            forall|j: int|
                0 <= j < i ==> !((#[trigger] block.actions@[j]).receiver_id@ == contract@
                    && block.actions@[j].outcome == ExecutionOutcome::Missing),
        decreases block.actions.len() - i,
    {
        let action = &block.actions[i];
        if action.receiver_id == *contract {
            match action.outcome {
                ExecutionOutcome::Missing => {
                    return Err(IndexerError::ReceiptNotFound);
                },
                _ => {},
            }
        }
        let ghost before = contents_of(pending@);
        let work = stage_action(action, contract, worker);
        match work {
            Some(item) => {
                pending.push(item);
                assert(contents_of(pending@) =~= before.push(item@));
            },
            None => {},
        }
        assert(block.actions@.take(i + 1).drop_last() =~= block.actions@.take(i as int));
        assert(block.actions@.take(i + 1).last() == block.actions@[i as int]);
        i += 1;
    }
    assert(block.actions@.take(block.actions.len() as int) =~= block.actions@);
    Ok(pending)
}

/// Processes one block for the worker `worker` watching `contract` at the
/// instant `now`: moves the cursor to the block and records `now` as the
/// instant of the move, whether or not the block held work, and puts the work
/// that the block brings into the queue.
///
/// A block in which an action addressed to the contract has no receipt is
/// refused, and neither the cursor nor the queue changes.
pub fn handle_block_at(
    block: &Block,
    contract: &String,
    worker: &String,
    queue: &mut RequestQueue,
    indexer: &mut Indexer,
    now: std::time::Instant,
) -> (result: Result<(), IndexerError>)
    requires
        old(queue).wf(),
    ensures
        final(queue).wf(),
        result == (if receipt_missing(block.actions@, contract@) {
            Err(IndexerError::ReceiptNotFound)
        } else {
            Ok(())
        }),
        result is Err ==> *final(queue) == *old(queue) && *final(indexer) == *old(indexer),
        result is Ok ==> {
            &&& final(indexer).last_updated_timestamp == now
            &&& final(queue).contents() == old(queue).contents().union(
                staged(block.actions@, contract@, worker@).to_set(),
            )
            &&& final(indexer).latest_block_height.block_height == block.height
            &&& final(indexer).latest_block_height.account_id == old(
                indexer,
            ).latest_block_height.account_id
            &&& final(indexer).latest_block_timestamp_nanosec == Some(block.timestamp_nanosec)
            &&& final(indexer).running_threshold == old(indexer).running_threshold
            &&& final(indexer).behind_threshold == old(indexer).behind_threshold
        },
{
    let pending = match stage_block(block, contract, worker) {
        Ok(pending) => pending,
        Err(error) => {
            return Err(error);
        },
    };
    indexer.record_block(now, block.height, block.timestamp_nanosec);
    let ghost all = contents_of(pending@);
    let mut i: usize = 0;
    assert(queue.contents() =~= old(queue).contents().union(all.take(0).to_set()));
    while i < pending.len()
        invariant
            i <= pending.len(),
            all == contents_of(pending@),
            queue.wf(),
            queue.contents() == old(queue).contents().union(all.take(i as int).to_set()),
        decreases pending.len() - i,
    {
        let item = pending[i].clone();
        queue.add_request(item);
        proof {
            let shorter = all.take(i as int);
            let longer = all.take(i + 1);
            assert(longer =~= shorter.push(all[i as int]));
            assert forall|m: (Seq<char>, Seq<u8>)|
                longer.to_set().contains(m) == shorter.to_set().insert(all[i as int]).contains(
                    m,
                ) by {
                if longer.to_set().contains(m) {
                    let j = choose|j: int| 0 <= j < longer.len() && longer[j] == m;
                    if j < i {
                        assert(shorter[j] == m);
                    }
                }
                if shorter.to_set().contains(m) {
                    let j = choose|j: int| 0 <= j < shorter.len() && shorter[j] == m;
                    assert(longer[j] == m);
                }
                if m == all[i as int] {
                    assert(longer[i as int] == m);
                }
            }
            assert(longer.to_set() =~= shorter.to_set().insert(all[i as int]));
            assert(queue.contents() =~= old(queue).contents().union(longer.to_set()));
        }
        i += 1;
    }
    assert(all.take(pending.len() as int) =~= all);
    Ok(())
}

/// Processes one block for the worker `worker` watching `contract`: moves
/// the cursor to the block, whether or not it held work, and puts the work
/// that the block brings into the queue. The cursor counts as moved now, by
/// the monotonic clock.
///
/// A block in which an action addressed to the contract has no receipt is
/// refused, and neither the cursor nor the queue changes.
pub fn handle_block(
    block: &Block,
    contract: &String,
    worker: &String,
    queue: &mut RequestQueue,
    indexer: &mut Indexer,
) -> (result: Result<(), IndexerError>)
    requires
        old(queue).wf(),
    ensures
        final(queue).wf(),
        result == (if receipt_missing(block.actions@, contract@) {
            Err(IndexerError::ReceiptNotFound)
        } else {
            Ok(())
        }),
        result is Err ==> *final(queue) == *old(queue) && *final(indexer) == *old(indexer),
        result is Ok ==> {
            &&& final(queue).contents() == old(queue).contents().union(
                staged(block.actions@, contract@, worker@).to_set(),
            )
            &&& final(indexer).latest_block_height.block_height == block.height
            &&& final(indexer).latest_block_height.account_id == old(
                indexer,
            ).latest_block_height.account_id
            &&& final(indexer).latest_block_timestamp_nanosec == Some(block.timestamp_nanosec)
            &&& final(indexer).running_threshold == old(indexer).running_threshold
            &&& final(indexer).behind_threshold == old(indexer).behind_threshold
        },
{
    let now = instant_now();
    handle_block_at(block, contract, worker, queue, indexer, now)
}

/// A block whose only action is a successful, decodable request submission
/// to the watched contract brings exactly one work item to the worker if the
/// submission names it, and none otherwise.
pub proof fn lemma_submission_reaches_named_workers(
    action: BlockAction,
    contract: Seq<char>,
    worker: Seq<char>,
)
    requires
        action.receiver_id@ == contract,
        action.outcome.succeeded(),
        action.call is Some,
        action.call->Some_0.method_name@ == submission_method(),
        action.call->Some_0.arguments is Some,
    ensures
        !receipt_missing(seq![action], contract),
        account_set(action.call->Some_0.arguments->Some_0.workers@).contains(worker) ==> staged(
            seq![action],
            contract,
            worker,
        ) == seq![
            (
                action.call->Some_0.arguments->Some_0.dataset_cid@,
                action.call->Some_0.arguments->Some_0.compressed_sk@,
            ),
        ],
        !account_set(action.call->Some_0.arguments->Some_0.workers@).contains(worker) ==> staged(
            seq![action],
            contract,
            worker,
        ).len() == 0,
{
    let actions = seq![action];
    assert(actions.drop_last() =~= Seq::<BlockAction>::empty());
    assert(actions.last() == action);
    reveal_with_fuel(staged, 3);
    assert(staged(actions.drop_last(), contract, worker) =~= Seq::empty());
    if account_set(action.call->Some_0.arguments->Some_0.workers@).contains(worker) {
        assert(staged(actions, contract, worker) =~= seq![
            (
                action.call->Some_0.arguments->Some_0.dataset_cid@,
                action.call->Some_0.arguments->Some_0.compressed_sk@,
            ),
        ]);
    }
}

} // verus!
