//! A durable queue of retryable tasks.
//!
//! The host calls `due_tasks` at each clock tick, executes the handler of
//! each due task (the handlers' own bookkeeping lives in this crate's other
//! modules; their chain and signer calls live in the host), and hands the
//! outcomes to `run`, which applies each task's retry and backoff policy:
//! a successful task leaves the queue, a failed one is re-queued with a
//! delay while retries remain, and the records of terminal transitions are
//! returned for the host's completion hook to observe.

use vstd::prelude::*;

use crate::types::{clone_burnt_event, clone_minted_event, BurntEventData, BurntEventV,
    MintedEventData, MintedEventV};

verus! {

/// How often a failing task is retried.
#[derive(Clone, Copy, Debug, PartialEq, Eq, Structural)]
pub enum RetryPolicy {
    /// Retry forever, until the task succeeds.
    Infinite,
    /// Retry at most `retries` times, so the task is attempted at most
    /// `retries + 1` times in all.
    MaxRetries { retries: u32 },
}

/// How long a failing task waits before its next attempt.
#[derive(Clone, Copy, Debug, PartialEq, Eq, Structural)]
pub enum BackoffPolicy {
    /// The same delay after every failure.
    Fixed { secs: u32 },
    /// `secs` after the first failure, multiplied by `multiplier` after
    /// each further failure.
    Exponential { secs: u32, multiplier: u32 },
}

/// Per-task scheduling choices.
#[derive(Clone, Copy, Debug, PartialEq, Eq, Structural)]
pub struct TaskOptions {
    pub retry_policy: RetryPolicy,
    pub backoff_policy: BackoffPolicy,
    pub execute_after_timestamp_in_secs: u64,
}

impl Default for TaskOptions {
    /// One attempt, a two-second backoff, due immediately.
    fn default() -> (r: TaskOptions)
        ensures
            r == (TaskOptions {
                retry_policy: RetryPolicy::MaxRetries { retries: 0 },
                backoff_policy: BackoffPolicy::Fixed { secs: 2 },
                execute_after_timestamp_in_secs: 0,
            }),
    {
        TaskOptions {
            retry_policy: RetryPolicy::MaxRetries { retries: 0 },
            backoff_policy: BackoffPolicy::Fixed { secs: 2 },
            execute_after_timestamp_in_secs: 0,
        }
    }
}

impl TaskOptions {
    /// Replaces the retry policy.
    pub fn with_retry_policy(self, retry_policy: RetryPolicy) -> (r: TaskOptions)
        ensures
            r == (TaskOptions { retry_policy, ..self }),
    {
        TaskOptions { retry_policy, ..self }
    }

    /// Retries at most `retries` times.
    pub fn with_max_retries_policy(self, retries: u32) -> (r: TaskOptions)
        ensures
            r == (TaskOptions { retry_policy: RetryPolicy::MaxRetries { retries }, ..self }),
    {
        TaskOptions { retry_policy: RetryPolicy::MaxRetries { retries }, ..self }
    }

    /// Replaces the backoff policy.
    pub fn with_backoff_policy(self, backoff_policy: BackoffPolicy) -> (r: TaskOptions)
        ensures
            r == (TaskOptions { backoff_policy, ..self }),
    {
        TaskOptions { backoff_policy, ..self }
    }

    /// Delays the first attempt until the given timestamp.
    pub fn with_execute_after_timestamp_in_secs(self, execute_after_timestamp_in_secs: u64) -> (r:
        TaskOptions)
        ensures
            r == (TaskOptions { execute_after_timestamp_in_secs, ..self }),
    {
        TaskOptions { execute_after_timestamp_in_secs, ..self }
    }
}

/// The closed set of operations the bridge schedules.
#[derive(Debug)]
pub enum RuneBridgeTask {
    /// Query the EVM side for its current parameters and store them.
    InitEvmState,
    /// Poll the bridge contract for new Burnt / Minted logs.
    CollectEvmEvents,
    /// Drop the stored mint order that a Minted log confirms.
    RemoveMintOrder(MintedEventData),
    /// Pay out a burn: reserve UTXOs, send, and settle the ledger.
    MintBtc(BurntEventData),
}

/// The mathematical contents of a `RuneBridgeTask`.
pub enum RuneBridgeTaskV {
    InitEvmState,
    CollectEvmEvents,
    RemoveMintOrder(MintedEventV),
    MintBtc(BurntEventV),
}

impl View for RuneBridgeTask {
    type V = RuneBridgeTaskV;

    open spec fn view(&self) -> RuneBridgeTaskV {
        match self {
            RuneBridgeTask::InitEvmState => RuneBridgeTaskV::InitEvmState,
            RuneBridgeTask::CollectEvmEvents => RuneBridgeTaskV::CollectEvmEvents,
            RuneBridgeTask::RemoveMintOrder(e) => RuneBridgeTaskV::RemoveMintOrder(e@),
            RuneBridgeTask::MintBtc(e) => RuneBridgeTaskV::MintBtc(e@),
        }
    }
}

/// Copies a task payload; the copy has the same contents.
pub fn clone_task(t: &RuneBridgeTask) -> (r: RuneBridgeTask)
    ensures
        r@ == t@,
{
    match t {
        RuneBridgeTask::InitEvmState => RuneBridgeTask::InitEvmState,
        RuneBridgeTask::CollectEvmEvents => RuneBridgeTask::CollectEvmEvents,
        RuneBridgeTask::RemoveMintOrder(e) => RuneBridgeTask::RemoveMintOrder(
            clone_minted_event(e),
        ),
        RuneBridgeTask::MintBtc(e) => RuneBridgeTask::MintBtc(clone_burnt_event(e)),
    }
}

/// A task payload together with its scheduling choices, ready to append.
#[derive(Debug)]
pub struct ScheduledTask {
    pub task: RuneBridgeTask,
    pub options: TaskOptions,
}

/// The mathematical contents of a `ScheduledTask`.
pub struct ScheduledTaskV {
    pub task: RuneBridgeTaskV,
    pub options: TaskOptions,
}

impl View for ScheduledTask {
    type V = ScheduledTaskV;

    open spec fn view(&self) -> ScheduledTaskV {
        ScheduledTaskV { task: self.task@, options: self.options }
    }
}

impl ScheduledTask {
    /// Pairs a task with its options.
    pub fn with_options(task: RuneBridgeTask, options: TaskOptions) -> (r: ScheduledTask)
        ensures
            r@ == (ScheduledTaskV { task: task@, options }),
    {
        ScheduledTask { task, options }
    }
}

impl RuneBridgeTask {
    /// Pairs the payload with the given scheduling options.
    pub fn into_scheduled(self, options: TaskOptions) -> (r: ScheduledTask)
        ensures
            r@ == (ScheduledTaskV { task: self@, options }),
    {
        ScheduledTask { task: self, options }
    }
}

/// Where a task stands in its lifecycle.
#[derive(Debug)]
pub enum TaskStatus {
    /// In the queue, runnable once its due time has passed.
    Waiting { timestamp_secs: u64 },
    /// Being executed right now.
    Running { timestamp_secs: u64 },
    /// Finished successfully; terminal.
    Completed { timestamp_secs: u64 },
    /// Failed with no retries left; terminal.
    Failed { timestamp_secs: u64, error: String },
    /// Timed out or panicked instead of reporting a result; terminal.
    TimeoutOrPanic { timestamp_secs: u64 },
}

/// The mathematical contents of a `TaskStatus`.
pub enum TaskStatusV {
    Waiting { timestamp_secs: u64 },
    Running { timestamp_secs: u64 },
    Completed { timestamp_secs: u64 },
    Failed { timestamp_secs: u64, error: Seq<char> },
    TimeoutOrPanic { timestamp_secs: u64 },
}

impl View for TaskStatus {
    type V = TaskStatusV;

    open spec fn view(&self) -> TaskStatusV {
        match self {
            TaskStatus::Waiting { timestamp_secs } => TaskStatusV::Waiting {
                timestamp_secs: *timestamp_secs,
            },
            TaskStatus::Running { timestamp_secs } => TaskStatusV::Running {
                timestamp_secs: *timestamp_secs,
            },
            TaskStatus::Completed { timestamp_secs } => TaskStatusV::Completed {
                timestamp_secs: *timestamp_secs,
            },
            TaskStatus::Failed { timestamp_secs, error } => TaskStatusV::Failed {
                timestamp_secs: *timestamp_secs,
                error: error@,
            },
            TaskStatus::TimeoutOrPanic { timestamp_secs } => TaskStatusV::TimeoutOrPanic {
                timestamp_secs: *timestamp_secs,
            },
        }
    }
}

/// A task as the queue stores it: payload, policies, bookkeeping.
#[derive(Debug)]
pub struct InnerScheduledTask {
    pub id: u32,
    pub task: RuneBridgeTask,
    pub options: TaskOptions,
    pub status: TaskStatus,
    pub failures: u32,
    pub execute_after_secs: u64,
}

/// The mathematical contents of an `InnerScheduledTask`.
pub struct InnerTaskV {
    pub id: u32,
    pub task: RuneBridgeTaskV,
    pub options: TaskOptions,
    pub status: TaskStatusV,
    pub failures: u32,
    pub execute_after_secs: u64,
}

impl View for InnerScheduledTask {
    type V = InnerTaskV;

    open spec fn view(&self) -> InnerTaskV {
        InnerTaskV {
            id: self.id,
            task: self.task@,
            options: self.options,
            status: self.status@,
            failures: self.failures,
            execute_after_secs: self.execute_after_secs,
        }
    }
}

/// What the host reports about one executed task.
#[derive(Debug)]
pub enum TaskExecutionResult {
    /// The handler finished and succeeded.
    Success,
    /// The handler finished with an error.
    Failure(String),
    /// The handler panicked or never reported back in its slot.
    Panicked,
}

/// The mathematical contents of a `TaskExecutionResult`.
pub enum TaskResultV {
    Success,
    Failure(Seq<char>),
    Panicked,
}

impl View for TaskExecutionResult {
    type V = TaskResultV;

    open spec fn view(&self) -> TaskResultV {
        match self {
            TaskExecutionResult::Success => TaskResultV::Success,
            TaskExecutionResult::Failure(e) => TaskResultV::Failure(e@),
            TaskExecutionResult::Panicked => TaskResultV::Panicked,
        }
    }
}

/// The result of one task's execution, together with any follow-up tasks
/// the handler asked to enqueue.
#[derive(Debug)]
pub struct TaskOutcome {
    pub result: TaskExecutionResult,
    pub spawned: Vec<ScheduledTask>,
}

/// The mathematical contents of a `TaskOutcome`.
pub struct TaskOutcomeV {
    pub result: TaskResultV,
    pub spawned: Seq<ScheduledTaskV>,
}

impl View for TaskOutcome {
    type V = TaskOutcomeV;

    open spec fn view(&self) -> TaskOutcomeV {
        TaskOutcomeV {
            result: self.result@,
            spawned: self.spawned@.map(|i: int, s: ScheduledTask| s@),
        }
    }
}

/// Whether another retry is allowed after `failures` failed attempts.
pub open spec fn retries_remain(p: RetryPolicy, failures: u32) -> bool {
    match p {
        RetryPolicy::Infinite => true,
        RetryPolicy::MaxRetries { retries } => failures < retries,
    }
}

/// `base * multiplier ^ exp`, as an unbounded natural.
pub open spec fn spec_pow_mul(base: nat, multiplier: nat, exp: nat) -> nat
    decreases exp,
{
    if exp == 0 {
        base
    } else {
        spec_pow_mul(base, multiplier, (exp - 1) as nat) * multiplier
    }
}

/// Adds, stopping at the largest representable value.
pub open spec fn sat_add64(a: u64, b: u64) -> u64 {
    if a + b > u64::MAX {
        u64::MAX
    } else {
        (a + b) as u64
    }
}

/// Counts one more failure, stopping at the largest representable value.
pub open spec fn sat_inc32(a: u32) -> u32 {
    if a == u32::MAX {
        a
    } else {
        (a + 1) as u32
    }
}

/// The delay before the next attempt of a task that has now failed
/// `failures` times: fixed, or `secs * multiplier ^ (failures - 1)`
/// (the first retry waits `secs`), capped at the largest `u64`.
pub open spec fn backoff_delay(b: BackoffPolicy, failures: u32) -> u64 {
    match b {
        BackoffPolicy::Fixed { secs } => secs as u64,
        BackoffPolicy::Exponential { secs, multiplier } => {
            let exp: nat = if failures == 0 {
                0
            } else {
                (failures - 1) as nat
            };
            let d = spec_pow_mul(secs as nat, multiplier as nat, exp);
            if d > u64::MAX {
                u64::MAX
            } else {
                d as u64
            }
        },
    }
}

/// A waiting task is due once its due time has passed.
pub open spec fn is_due(t: InnerTaskV, now: u64) -> bool {
    t.execute_after_secs <= now
}

/// The due tasks of a queue, in queue order.
pub open spec fn due_seq(s: Seq<InnerTaskV>, now: u64) -> Seq<InnerTaskV>
    decreases s.len(),
{
    if s.len() == 0 {
        Seq::empty()
    } else {
        let rest = due_seq(s.drop_last(), now);
        if is_due(s.last(), now) {
            rest.push(s.last())
        } else {
            rest
        }
    }
}

/// The task as re-queued after one more failure: the failure is counted
/// and the next attempt waits out the backoff delay.
pub open spec fn retried_task(t: InnerTaskV, now: u64) -> InnerTaskV {
    let failures = sat_inc32(t.failures);
    InnerTaskV {
        status: TaskStatusV::Waiting { timestamp_secs: now },
        failures,
        execute_after_secs: sat_add64(now, backoff_delay(t.options.backoff_policy, failures)),
        ..t
    }
}

/// What one reported result does to a due task: the re-queued task, if it
/// survives, and the terminal record, if there is one. Success completes
/// the task; a panic is terminal; a failure is re-queued while the retry
/// policy allows, else terminal.
pub open spec fn apply_outcome(t: InnerTaskV, r: TaskResultV, now: u64) -> (
    Option<InnerTaskV>,
    Option<InnerTaskV>,
) {
    match r {
        TaskResultV::Success => (
            None,
            Some(InnerTaskV { status: TaskStatusV::Completed { timestamp_secs: now }, ..t }),
        ),
        TaskResultV::Panicked => (
            None,
            Some(InnerTaskV { status: TaskStatusV::TimeoutOrPanic { timestamp_secs: now }, ..t }),
        ),
        TaskResultV::Failure(error) => {
            if retries_remain(t.options.retry_policy, t.failures) {
                (Some(retried_task(t, now)), None)
            } else {
                (
                    None,
                    Some(
                        InnerTaskV {
                            status: TaskStatusV::Failed { timestamp_secs: now, error },
                            failures: sat_inc32(t.failures),
                            ..t
                        },
                    ),
                )
            }
        },
    }
}

/// The reported result for the task of rank `k`; a missing report counts
/// as a panic, so a silent handler is terminal, not stuck.
pub open spec fn outcome_result(outs: Seq<TaskOutcomeV>, k: int) -> TaskResultV {
    if 0 <= k < outs.len() {
        outs[k].result
    } else {
        TaskResultV::Panicked
    }
}

/// The follow-up tasks the handler of rank `k` asked to enqueue.
pub open spec fn outcome_spawned(outs: Seq<TaskOutcomeV>, k: int) -> Seq<ScheduledTaskV> {
    if 0 <= k < outs.len() {
        outs[k].spawned
    } else {
        Seq::empty()
    }
}

/// The terminal records that processing the first `upto` due tasks emits,
/// in rank order.
pub open spec fn terminal_records(
    due: Seq<InnerTaskV>,
    outs: Seq<TaskOutcomeV>,
    now: u64,
    upto: int,
) -> Seq<InnerTaskV>
    decreases upto,
{
    if upto <= 0 {
        Seq::empty()
    } else {
        let rest = terminal_records(due, outs, now, upto - 1);
        match apply_outcome(due[upto - 1], outcome_result(outs, upto - 1), now).1 {
            Some(rec) => rest.push(rec),
            None => rest,
        }
    }
}

/// How many follow-up tasks the first `upto` processed ranks spawn.
pub open spec fn total_spawned(outs: Seq<TaskOutcomeV>, upto: int) -> int
    decreases upto,
{
    if upto <= 0 {
        0
    } else {
        total_spawned(outs, upto - 1) + outcome_spawned(outs, upto - 1).len()
    }
}

/// A fresh queue entry for an appended task.
pub open spec fn make_inner(st: ScheduledTaskV, id: u32) -> InnerTaskV {
    InnerTaskV {
        id,
        task: st.task,
        options: st.options,
        status: TaskStatusV::Waiting {
            timestamp_secs: st.options.execute_after_timestamp_in_secs,
        },
        failures: 0,
        execute_after_secs: st.options.execute_after_timestamp_in_secs,
    }
}

/// The durable task queue and its id counter.
pub struct Scheduler {
    queue: Vec<InnerScheduledTask>,
    next_task_id: u32,
}

impl Scheduler {
    /// The queued tasks, in queue order.
    pub closed spec fn tasks(&self) -> Seq<InnerTaskV> {
        self.queue@.map(|i: int, t: InnerScheduledTask| t@)
    }

    /// The id the next appended task will receive.
    pub closed spec fn spec_next_id(&self) -> u32 {
        self.next_task_id
    }

    /// A task bookkeeping bound: a bounded-retry task has never failed
    /// more often than its policy allows.
    pub open spec fn bounded_failures(t: InnerTaskV) -> bool {
        t.options.retry_policy matches RetryPolicy::MaxRetries { retries } ==> t.failures
            <= retries
    }

    /// Queue ids grow strictly (so they are unique and FIFO order is id
    /// order), stay below the counter, and every queued task is waiting
    /// with its failure count within its policy's bound.
    pub open spec fn wf(&self) -> bool {
        &&& forall|i: int, j: int|
            0 <= i < j < self.tasks().len() ==> (#[trigger] self.tasks()[i]).id < (
            #[trigger] self.tasks()[j]).id
        &&& forall|i: int|
            0 <= i < self.tasks().len() ==> (#[trigger] self.tasks()[i]).id
                < self.spec_next_id()
        &&& forall|i: int|
            0 <= i < self.tasks().len() ==> (#[trigger] self.tasks()[i]).status
                is Waiting
        &&& forall|i: int|
            0 <= i < self.tasks().len() ==> Self::bounded_failures(
                #[trigger] self.tasks()[i],
            )
    }

    /// A fresh, empty scheduler.
    pub fn new() -> (r: Scheduler)
        ensures
            r.wf(),
            r.tasks() == Seq::<InnerTaskV>::empty(),
            r.spec_next_id() == 0,
    {
        let r = Scheduler { queue: Vec::new(), next_task_id: 0 };
        proof {
            assert(r.tasks() =~= Seq::<InnerTaskV>::empty());
        }
        r
    }

    /// Appends one task under a fresh id and returns that id.
    pub fn append(&mut self, st: ScheduledTask) -> (id: u32)
        requires
            old(self).wf(),
            old(self).spec_next_id() < u32::MAX,
        ensures
            final(self).wf(),
            id == old(self).spec_next_id(),
            final(self).tasks() == old(self).tasks().push(make_inner(st@, id)),
            final(self).spec_next_id() == old(self).spec_next_id() + 1,
    {
        let id = self.next_task_id;
        let entry = InnerScheduledTask {
            id,
            status: TaskStatus::Waiting {
                timestamp_secs: st.options.execute_after_timestamp_in_secs,
            },
            failures: 0,
            execute_after_secs: st.options.execute_after_timestamp_in_secs,
            task: st.task,
            options: st.options,
        };
        let ghost before = self.tasks();
        self.queue.push(entry);
        self.next_task_id = id + 1;
        proof {
            assert(self.tasks() =~= before.push(make_inner(st@, id)));
        }
        id
    }

    /// Appends a batch of tasks, assigning ids in order.
    pub fn append_many(&mut self, tasks: Vec<ScheduledTask>)
        requires
            old(self).wf(),
            old(self).spec_next_id() + tasks@.len() <= u32::MAX,
        ensures
            final(self).wf(),
            final(self).tasks() == old(self).tasks() + tasks@.map(
                |k: int, st: ScheduledTask| make_inner(st@, (old(self).spec_next_id() + k) as u32),
            ),
            final(self).spec_next_id() == old(self).spec_next_id() + tasks@.len(),
    {
        let ghost base = self.spec_next_id();
        let ghost added = tasks@.map(
            |k: int, st: ScheduledTask| make_inner(st@, (base + k) as u32),
        );
        let n = tasks.len();
        let mut i: usize = 0;
        while i < n
            invariant
                self.wf(),
                n == tasks@.len(),
                0 <= i <= n,
                base + n <= u32::MAX,
                self.spec_next_id() == base + i,
                added == tasks@.map(
                    |k: int, st: ScheduledTask| make_inner(st@, (base + k) as u32),
                ),
                self.tasks() == old(self).tasks() + added.subrange(0, i as int),
            decreases n - i,
        {
            let ghost prev = self.tasks();
            let st = ScheduledTask {
                task: clone_task(&tasks[i].task),
                options: tasks[i].options,
            };
            let id = self.append(st);
            proof {
                assert(make_inner(st@, id) == added[i as int]);
                assert(prev.push(added[i as int]) =~= old(self).tasks() + added.subrange(
                    0,
                    i + 1 as int,
                ));
            }
            i = i + 1;
        }
        proof {
            assert(added.subrange(0, n as int) =~= added);
        }
    }

    /// The ids of the tasks due at `now`, in queue (FIFO) order.
    pub fn due_tasks(&self, now: u64) -> (r: Vec<u32>)
        requires
            self.wf(),
        ensures
            r@ == due_seq(self.tasks(), now).map(|k: int, t: InnerTaskV| t.id),
    {
        let mut r: Vec<u32> = Vec::new();
        let n = self.queue.len();
        let mut i: usize = 0;
        while i < n
            invariant
                self.wf(),
                0 <= i <= n,
                n == self.tasks().len(),
                r@ == due_seq(self.tasks().subrange(0, i as int), now).map(
                    |k: int, t: InnerTaskV| t.id,
                ),
            decreases n - i,
        {
            let ghost prefix = self.tasks().subrange(0, i as int);
            let ghost next_prefix = self.tasks().subrange(0, i + 1 as int);
            proof {
                assert(next_prefix.drop_last() =~= prefix);
                assert(next_prefix.last() == self.tasks()[i as int]);
            }
            if self.queue[i].execute_after_secs <= now {
                r.push(self.queue[i].id);
                proof {
                    assert(due_seq(next_prefix, now) == due_seq(prefix, now).push(
                        self.tasks()[i as int],
                    ));
                    assert(r@ =~= due_seq(next_prefix, now).map(|k: int, t: InnerTaskV| t.id));
                }
            } else {
                proof {
                    assert(due_seq(next_prefix, now) == due_seq(prefix, now));
                }
            }
            i = i + 1;
        }
        proof {
            assert(self.tasks().subrange(0, n as int) =~= self.tasks());
        }
        r
    }
}

/// A task with these exact contents stands somewhere in the queue.
pub open spec fn in_queue(s: Seq<InnerTaskV>, t: InnerTaskV) -> bool {
    exists|j: int| 0 <= j < s.len() && #[trigger] s[j] == t
}

/// No queued task carries this id.
pub open spec fn absent_id(s: Seq<InnerTaskV>, id: u32) -> bool {
    forall|j: int| 0 <= j < s.len() ==> (#[trigger] s[j]).id != id
}

/// The views of a batch of reported outcomes.
pub open spec fn outcomes_view(o: Seq<TaskOutcome>) -> Seq<TaskOutcomeV> {
    o.map(|i: int, x: TaskOutcome| x@)
}

/// With a multiplier of at least one, the exponential grows with the
/// exponent.
pub proof fn lemma_pow_mono(base: nat, multiplier: nat, e1: nat, e2: nat)
    requires
        multiplier >= 1,
        e1 <= e2,
    ensures
        spec_pow_mul(base, multiplier, e1) <= spec_pow_mul(base, multiplier, e2),
    decreases e2,
{
    if e1 < e2 {
        lemma_pow_mono(base, multiplier, e1, (e2 - 1) as nat);
        assert(spec_pow_mul(base, multiplier, (e2 - 1) as nat) * multiplier >= spec_pow_mul(
            base,
            multiplier,
            (e2 - 1) as nat,
        ) * 1) by (nonlinear_arith)
            requires
                multiplier >= 1,
        ;
    }
}

/// Processing more ranks never spawns fewer follow-up tasks.
pub proof fn lemma_total_spawned_mono(outs: Seq<TaskOutcomeV>, a: int, b: int)
    requires
        0 <= a <= b,
    ensures
        total_spawned(outs, a) <= total_spawned(outs, b),
        total_spawned(outs, a) >= 0,
    decreases b,
{
    if a < b {
        lemma_total_spawned_mono(outs, a, b - 1);
    }
    if a > 0 {
        lemma_total_spawned_mono(outs, a - 1, a - 1);
    }
}

/// In a queue with strictly growing ids, the due subsequence keeps
/// strictly growing ids, and every due task stands in the queue.
pub proof fn lemma_due_seq_sorted(s: Seq<InnerTaskV>, now: u64)
    requires
        forall|i: int, j: int| 0 <= i < j < s.len() ==> (#[trigger] s[i]).id < (
        #[trigger] s[j]).id,
    ensures
        forall|a: int, b: int|
            0 <= a < b < due_seq(s, now).len() ==> (#[trigger] due_seq(s, now)[a]).id < (
            #[trigger] due_seq(s, now)[b]).id,
        forall|a: int|
            #![trigger due_seq(s, now)[a]]
            0 <= a < due_seq(s, now).len() ==> exists|i: int|
                0 <= i < s.len() && (#[trigger] s[i]) == due_seq(s, now)[a],
        forall|a: int| 0 <= a < due_seq(s, now).len() ==> is_due(#[trigger] due_seq(s, now)[a], now),
        due_seq(s, now).len() <= s.len(),
    decreases s.len(),
{
    if s.len() > 0 {
        let d = s.drop_last();
        lemma_due_seq_sorted(d, now);
        assert(forall|i: int| 0 <= i < d.len() ==> #[trigger] d[i] == s[i]);
        let full = due_seq(s, now);
        let rest = due_seq(d, now);
        if is_due(s.last(), now) {
            assert(full == rest.push(s.last()));
            assert forall|a: int, b: int| 0 <= a < b < full.len() implies (
            #[trigger] full[a]).id < (#[trigger] full[b]).id by {
                if b < full.len() - 1 {
                    assert(full[a] == rest[a] && full[b] == rest[b]);
                } else {
                    assert(full[b] == s.last());
                    let i = choose|i: int| 0 <= i < d.len() && (#[trigger] d[i]) == rest[a];
                    assert(s[i] == rest[a]);
                    assert(s[i].id < s[s.len() - 1].id);
                }
            }
            assert forall|a: int| #![trigger full[a]] 0 <= a < full.len() implies exists|i: int|
                0 <= i < s.len() && (#[trigger] s[i]) == full[a] by {
                if a < full.len() - 1 {
                    let i = choose|i: int| 0 <= i < d.len() && (#[trigger] d[i]) == rest[a];
                    assert(s[i] == full[a]);
                } else {
                    assert(s[s.len() - 1] == full[a]);
                }
            }
        } else {
            assert(full == rest);
            assert forall|a: int| #![trigger full[a]] 0 <= a < full.len() implies exists|i: int|
                0 <= i < s.len() && (#[trigger] s[i]) == full[a] by {
                let i = choose|i: int| 0 <= i < d.len() && (#[trigger] d[i]) == rest[a];
                assert(s[i] == full[a]);
            }
        }
    }
}

/// Computes the backoff delay of a task that has now failed `failures`
/// times.
pub fn backoff_secs(b: BackoffPolicy, failures: u32) -> (r: u64)
    ensures
        r == backoff_delay(b, failures),
{
    match b {
        BackoffPolicy::Fixed { secs } => secs as u64,
        BackoffPolicy::Exponential { secs, multiplier } => {
            let exp: u32 = if failures == 0 {
                0
            } else {
                failures - 1
            };
            let m = multiplier as u64;
            let mut acc: u64 = secs as u64;
            let mut e: u32 = 0;
            while e < exp
                invariant
                    0 <= e <= exp,
                    m == multiplier as u64,
                    b == (BackoffPolicy::Exponential { secs, multiplier }),
                    exp == (if failures == 0 { 0u32 } else { (failures - 1) as u32 }),
                    acc == spec_pow_mul(secs as nat, multiplier as nat, e as nat),
                    spec_pow_mul(secs as nat, multiplier as nat, e as nat) <= u64::MAX,
                decreases exp - e,
            {
                match acc.checked_mul(m) {
                    Some(v) => {
                        acc = v;
                    },
                    None => {
                        proof {
                            assert(acc * m > u64::MAX);
                            assert(m >= 2) by (nonlinear_arith)
                                requires
                                    acc * m > u64::MAX,
                                    acc <= u64::MAX,
                                    0 <= m,
                            ;
                            assert(spec_pow_mul(secs as nat, multiplier as nat, (e + 1) as nat)
                                == acc * m);
                            lemma_pow_mono(
                                secs as nat,
                                multiplier as nat,
                                (e + 1) as nat,
                                exp as nat,
                            );
                            assert(spec_pow_mul(secs as nat, multiplier as nat, exp as nat)
                                > u64::MAX);
                        }
                        return u64::MAX;
                    },
                }
                e = e + 1;
            }
            acc
        },
    }
}
impl Scheduler {
    /// Where the task with this id stands in the queue.
    fn position_of(&self, id: u32) -> (r: Option<usize>)
        ensures
            match r {
                Some(i) => i < self.tasks().len() && self.tasks()[i as int].id == id,
                None => absent_id(self.tasks(), id),
            },
    {
        let n = self.queue.len();
        let mut i: usize = 0;
        while i < n
            invariant
                0 <= i <= n,
                n == self.tasks().len(),
                forall|k: int| 0 <= k < i ==> (#[trigger] self.tasks()[k]).id != id,
            decreases n - i,
        {
            if self.queue[i].id == id {
                return Some(i);
            }
            i = i + 1;
        }
        None
    }

    /// The id the next appended task will receive, as a value the host
    /// can test before appending a batch.
    pub fn next_id(&self) -> (r: u32)
        ensures
            r == self.spec_next_id(),
    {
        self.next_task_id
    }

    /// The queued task with this id, if there is one.
    pub fn get_task(&self, id: u32) -> (r: Option<&InnerScheduledTask>)
        ensures
            match r {
                Some(t) => t@.id == id && in_queue(self.tasks(), t@),
                None => absent_id(self.tasks(), id),
            },
    {
        match self.position_of(id) {
            Some(i) => {
                let t = &self.queue[i];
                proof {
                    assert(self.tasks()[i as int] == t@);
                }
                Some(t)
            },
            None => None,
        }
    }

    /// Applies the reported outcomes to the tasks due at `now`, rank by
    /// rank in FIFO order: successful and terminal tasks leave the queue
    /// and their records are returned; failed tasks with retries left are
    /// re-queued after their backoff delay; follow-up tasks spawned by the
    /// handlers are appended under fresh ids. A missing outcome counts as
    /// a panic. The due set is the one determined at entry: tasks spawned
    /// during this run wait for the next tick.
    #[verifier::rlimit(100)]
    pub fn run(&mut self, now: u64, outcomes: &Vec<TaskOutcome>) -> (report: Vec<
        InnerScheduledTask,
    >)
        requires
            old(self).wf(),
            old(self).spec_next_id() + total_spawned(
                outcomes_view(outcomes@),
                due_seq(old(self).tasks(), now).len() as int,
            ) <= u32::MAX,
        ensures
            final(self).wf(),
            report@.map(|i: int, t: InnerScheduledTask| t@) == terminal_records(
                due_seq(old(self).tasks(), now),
                outcomes_view(outcomes@),
                now,
                due_seq(old(self).tasks(), now).len() as int,
            ),
            final(self).spec_next_id() == old(self).spec_next_id() + total_spawned(
                outcomes_view(outcomes@),
                due_seq(old(self).tasks(), now).len() as int,
            ),
            forall|i: int|
                0 <= i < old(self).tasks().len() && !is_due(#[trigger] old(self).tasks()[i], now)
                    ==> in_queue(final(self).tasks(), old(self).tasks()[i]),
            forall|r: int|
                0 <= r < due_seq(old(self).tasks(), now).len() ==> match apply_outcome(
                    #[trigger] due_seq(old(self).tasks(), now)[r],
                    outcome_result(outcomes_view(outcomes@), r),
                    now,
                ).0 {
                    Some(surv) => in_queue(final(self).tasks(), surv),
                    None => absent_id(
                        final(self).tasks(),
                        due_seq(old(self).tasks(), now)[r].id,
                    ),
                },
            forall|r: int, m: int|
                0 <= r < due_seq(old(self).tasks(), now).len() && 0 <= m < outcome_spawned(
                    outcomes_view(outcomes@),
                    r,
                ).len() ==> in_queue(
                    final(self).tasks(),
                    make_inner(
                        outcome_spawned(outcomes_view(outcomes@), r)[m],
                        (old(self).spec_next_id() + total_spawned(outcomes_view(outcomes@), r)
                            + m) as u32,
                    ),
                ),
            final(self).tasks().len() == old(self).tasks().len() - terminal_records(
                due_seq(old(self).tasks(), now),
                outcomes_view(outcomes@),
                now,
                due_seq(old(self).tasks(), now).len() as int,
            ).len() + total_spawned(
                outcomes_view(outcomes@),
                due_seq(old(self).tasks(), now).len() as int,
            ),
    {
        let ghost old_tasks = self.tasks();
        let ghost old_next = self.spec_next_id();
        let ghost due = due_seq(old_tasks, now);
        let ghost outs = outcomes_view(outcomes@);
        proof {
            lemma_due_seq_sorted(old_tasks, now);
            lemma_total_spawned_mono(outs, 0, due.len() as int);
        }
        let due_ids = self.due_tasks(now);
        let nd = due_ids.len();
        let mut report: Vec<InnerScheduledTask> = Vec::new();
        let mut k: usize = 0;
        while k < nd
            invariant
                self.wf(),
                nd == due.len(),
                0 <= k <= nd,
                due == due_seq(old_tasks, now),
                outs == outcomes_view(outcomes@),
                due_ids@ == due.map(|q: int, t: InnerTaskV| t.id),
                old_next + total_spawned(outs, due.len() as int) <= u32::MAX,
                forall|a: int, b: int| 0 <= a < b < due.len() ==> (#[trigger] due[a]).id < (
                #[trigger] due[b]).id,
                forall|a: int, b: int|
                    0 <= a < b < old_tasks.len() ==> (#[trigger] old_tasks[a]).id < (
                    #[trigger] old_tasks[b]).id,
                forall|a: int| 0 <= a < due.len() ==> (#[trigger] due[a]).id < old_next,
                forall|a: int| 0 <= a < due.len() ==> is_due(#[trigger] due[a], now),
                forall|a: int|
                    #![trigger due[a]]
                    0 <= a < due.len() ==> exists|i: int|
                        0 <= i < old_tasks.len() && (#[trigger] old_tasks[i]) == due[a],
                forall|a: int|
                    0 <= a < due.len() ==> Scheduler::bounded_failures(#[trigger] due[a]),
                self.spec_next_id() == old_next + total_spawned(outs, k as int),
                report@.map(|q: int, t: InnerScheduledTask| t@) == terminal_records(
                    due,
                    outs,
                    now,
                    k as int,
                ),
                forall|i: int|
                    0 <= i < old_tasks.len() && !is_due(#[trigger] old_tasks[i], now)
                        ==> in_queue(self.tasks(), old_tasks[i]),
                forall|r: int| k <= r < due.len() ==> in_queue(self.tasks(), #[trigger] due[r]),
                forall|r: int|
                    0 <= r < k ==> match apply_outcome(
                        #[trigger] due[r],
                        outcome_result(outs, r),
                        now,
                    ).0 {
                        Some(surv) => in_queue(self.tasks(), surv),
                        None => absent_id(self.tasks(), due[r].id),
                    },
                forall|r: int, m: int|
                    0 <= r < k && 0 <= m < outcome_spawned(outs, r).len() ==> in_queue(
                        self.tasks(),
                        make_inner(
                            outcome_spawned(outs, r)[m],
                            (old_next + total_spawned(outs, r) + m) as u32,
                        ),
                    ),
                self.tasks().len() == old_tasks.len() - terminal_records(
                    due,
                    outs,
                    now,
                    k as int,
                ).len() + total_spawned(outs, k as int),
            decreases nd - k,
        {
            proof {
                lemma_total_spawned_mono(outs, k as int, due.len() as int);
                lemma_total_spawned_mono(outs, k + 1 as int, due.len() as int);
                lemma_total_spawned_mono(outs, k as int, k + 1 as int);
                if (k as int) < outs.len() {
                    assert(outs[k as int] == outcomes@[k as int]@);
                }
            }
            let id = due_ids[k];
            proof {
                assert(due[k as int].id == id);
                assert(in_queue(self.tasks(), due[k as int]));
            }
            let idx = match self.position_of(id) {
                Some(idx) => idx,
                None => {
                    proof {
                        let j = choose|j: int|
                            0 <= j < self.tasks().len() && (#[trigger] self.tasks()[j])
                                == due[k as int];
                        assert(false);
                    }
                    0
                },
            };
            proof {
                // Queue ids are unique (they grow strictly), so the found
                // slot holds exactly the task of rank k.
                let j = choose|j: int|
                    0 <= j < self.tasks().len() && (#[trigger] self.tasks()[j]) == due[k as int];
                if j != idx {
                    assert(self.tasks()[j].id == self.tasks()[idx as int].id);
                    assert(false);
                }
                assert(self.tasks()[idx as int] == due[k as int]);
            }
            let ghost before = self.tasks();
            // Decide the fate of the due entry from the reported result.
            let has_outcome = k < outcomes.len();
            let retryable = if has_outcome {
                match &outcomes[k].result {
                    TaskExecutionResult::Failure(_) => {
                        let t = &self.queue[idx];
                        proof {
                            assert(t@ == due[k as int]);
                            assert(outcome_result(outs, k as int) is Failure);
                        }
                        match &t.options.retry_policy {
                            RetryPolicy::Infinite => true,
                            RetryPolicy::MaxRetries { retries } => t.failures < *retries,
                        }
                    },
                    _ => false,
                }
            } else {
                false
            };
            proof {
                assert(retryable == (outcome_result(outs, k as int) is Failure
                    && retries_remain(due[k as int].options.retry_policy, due[k as int].failures)));
            }
            if retryable {
                // Count the failure and wait out the backoff delay.
                let t = &self.queue[idx];
                let failures = if t.failures == u32::MAX {
                    u32::MAX
                } else {
                    t.failures + 1
                };
                let delay = backoff_secs(t.options.backoff_policy, failures);
                let updated = InnerScheduledTask {
                    id: t.id,
                    task: clone_task(&t.task),
                    options: t.options,
                    status: TaskStatus::Waiting { timestamp_secs: now },
                    failures,
                    execute_after_secs: now.saturating_add(delay),
                };
                proof {
                    assert(updated@ == retried_task(due[k as int], now));
                    assert(apply_outcome(due[k as int], outcome_result(outs, k as int), now).0
                        == Some(retried_task(due[k as int], now)));
                }
                self.queue[idx] = updated;
                proof {
                    let ghost x = retried_task(due[k as int], now);
                    assert(self.tasks() =~= before.update(idx as int, x));
                    assert(terminal_records(due, outs, now, k + 1 as int) =~= terminal_records(
                        due,
                        outs,
                        now,
                        k as int,
                    ));
                    // Ids are unchanged entry by entry, so well-formedness
                    // carries over; the edited entry waits within bounds.
                    assert(forall|a: int|
                        0 <= a < self.tasks().len() ==> (#[trigger] self.tasks()[a]).id
                            == before[a].id);
                    assert(x.status is Waiting);
                    assert(Scheduler::bounded_failures(x));
                    assert(in_queue(self.tasks(), x)) by {
                        assert(self.tasks()[idx as int] == x);
                    }
                }
            } else {
                // Terminal: remove from the queue and emit the record.
                let removed = self.queue.remove(idx);
                let record = if has_outcome {
                    match &outcomes[k].result {
                        TaskExecutionResult::Success => InnerScheduledTask {
                            status: TaskStatus::Completed { timestamp_secs: now },
                            ..removed
                        },
                        TaskExecutionResult::Failure(msg) => InnerScheduledTask {
                            status: TaskStatus::Failed {
                                timestamp_secs: now,
                                error: msg.clone(),
                            },
                            failures: if removed.failures == u32::MAX {
                                u32::MAX
                            } else {
                                removed.failures + 1
                            },
                            ..removed
                        },
                        TaskExecutionResult::Panicked => InnerScheduledTask {
                            status: TaskStatus::TimeoutOrPanic { timestamp_secs: now },
                            ..removed
                        },
                    }
                } else {
                    InnerScheduledTask {
                        status: TaskStatus::TimeoutOrPanic { timestamp_secs: now },
                        ..removed
                    }
                };
                proof {
                    assert(self.tasks() =~= before.remove(idx as int));
                    assert(apply_outcome(due[k as int], outcome_result(outs, k as int), now).1
                        == Some(record@));
                    assert(terminal_records(due, outs, now, k + 1 as int) =~= terminal_records(
                        due,
                        outs,
                        now,
                        k as int,
                    ).push(record@));
                    // The queue after removal holds the other entries, in
                    // order, so sortedness carries over and the removed id
                    // is gone.
                    assert(forall|a: int|
                        0 <= a < idx ==> #[trigger] self.tasks()[a] == before[a]);
                    assert(forall|a: int|
                        idx <= a < self.tasks().len() ==> #[trigger] self.tasks()[a] == before[a
                            + 1]);
                    assert forall|a: int|
                        0 <= a < self.tasks().len() implies (#[trigger] self.tasks()[a]).id
                        != due[k as int].id by {
                        if a < idx {
                            assert(before[a].id < before[idx as int].id);
                        } else {
                            assert(before[idx as int].id < before[a + 1].id);
                        }
                    }
                }
                report.push(record);
                proof {
                    assert(report@.map(|q: int, t: InnerScheduledTask| t@) =~= terminal_records(
                        due,
                        outs,
                        now,
                        k + 1 as int,
                    ));
                }
            }
            proof {
                // A task other than the one of rank k keeps its id distinct
                // from it, so its witness survives the edit at idx.
                assert forall|i: int|
                    0 <= i < old_tasks.len() && !is_due(#[trigger] old_tasks[i], now) implies
                    in_queue(self.tasks(), old_tasks[i]) by {
                    if old_tasks[i].id == due[k as int].id {
                        let i2 = choose|i2: int|
                            0 <= i2 < old_tasks.len() && (#[trigger] old_tasks[i2])
                                == due[k as int];
                        assert(i == i2);
                        assert(false);
                    }
                    if retryable {
                        lemma_update_keeps_others(
                            before,
                            idx as int,
                            retried_task(due[k as int], now),
                            old_tasks[i],
                            self.tasks(),
                        );
                    } else {
                        lemma_remove_keeps_others(
                            before,
                            idx as int,
                            old_tasks[i],
                            self.tasks(),
                        );
                    }
                }
                assert forall|r: int| k + 1 <= r < due.len() implies in_queue(
                    self.tasks(),
                    #[trigger] due[r],
                ) by {
                    if retryable {
                        lemma_update_keeps_others(
                            before,
                            idx as int,
                            retried_task(due[k as int], now),
                            due[r],
                            self.tasks(),
                        );
                    } else {
                        lemma_remove_keeps_others(before, idx as int, due[r], self.tasks());
                    }
                }
                assert forall|r: int|
                    0 <= r < k + 1 implies match apply_outcome(
                    #[trigger] due[r],
                    outcome_result(outs, r),
                    now,
                ).0 {
                    Some(surv) => in_queue(self.tasks(), surv),
                    None => absent_id(self.tasks(), due[r].id),
                } by {
                    if r == k as int {
                        // Established directly by the edit above.
                    } else {
                        match apply_outcome(due[r], outcome_result(outs, r), now).0 {
                            Some(surv) => {
                                assert(surv.id == due[r].id);
                                if retryable {
                                    lemma_update_keeps_others(
                                        before,
                                        idx as int,
                                        retried_task(due[k as int], now),
                                        surv,
                                        self.tasks(),
                                    );
                                } else {
                                    lemma_remove_keeps_others(
                                        before,
                                        idx as int,
                                        surv,
                                        self.tasks(),
                                    );
                                }
                            },
                            None => {
                                assert forall|j: int|
                                    0 <= j < self.tasks().len() implies (
                                #[trigger] self.tasks()[j]).id != due[r].id by {
                                    if retryable {
                                        if j == idx {
                                            assert(self.tasks()[j].id == due[k as int].id);
                                        } else {
                                            assert(self.tasks()[j] == before[j]);
                                        }
                                    } else {
                                        if j < idx {
                                            assert(self.tasks()[j] == before[j]);
                                        } else {
                                            assert(self.tasks()[j] == before[j + 1]);
                                        }
                                    }
                                }
                            },
                        }
                    }
                }
                assert forall|r: int, m: int|
                    0 <= r < k && 0 <= m < outcome_spawned(outs, r).len() implies in_queue(
                    self.tasks(),
                    make_inner(
                        outcome_spawned(outs, r)[m],
                        (old_next + total_spawned(outs, r) + m) as u32,
                    ),
                ) by {
                    lemma_total_spawned_mono(outs, r, k as int);
                    lemma_total_spawned_mono(outs, r + 1, k as int);
                    let t = make_inner(
                        outcome_spawned(outs, r)[m],
                        (old_next + total_spawned(outs, r) + m) as u32,
                    );
                    assert(old_next + total_spawned(outs, r) + m < old_next + total_spawned(
                        outs,
                        r + 1,
                    ));
                    assert(t.id >= old_next);
                    assert(t.id != due[k as int].id);
                    if retryable {
                        lemma_update_keeps_others(
                            before,
                            idx as int,
                            retried_task(due[k as int], now),
                            t,
                            self.tasks(),
                        );
                    } else {
                        lemma_remove_keeps_others(before, idx as int, t, self.tasks());
                    }
                }
            }
            // Enqueue the follow-up tasks this handler spawned.
            if has_outcome {
                let spawned = &outcomes[k].spawned;
                let ns = spawned.len();
                let mut m: usize = 0;
                proof {
                    assert(outcome_spawned(outs, k as int) =~= spawned@.map(
                        |q: int, st: ScheduledTask| st@,
                    ));
                }
                while m < ns
                    invariant
                        self.wf(),
                        0 <= m <= ns,
                        0 <= k < due.len(),
                        due == due_seq(old_tasks, now),
                        outs == outcomes_view(outcomes@),
                        (k as int) < outcomes@.len(),
                        spawned == &outcomes@[k as int].spawned,
                        ns == outcome_spawned(outs, k as int).len(),
                        forall|q: int|
                            0 <= q < ns ==> outcome_spawned(outs, k as int)[q]
                                == (#[trigger] spawned@[q])@,
                        old_next + total_spawned(outs, due.len() as int) <= u32::MAX,
                        total_spawned(outs, k as int) >= 0,
                        total_spawned(outs, k + 1 as int) <= total_spawned(
                            outs,
                            due.len() as int,
                        ),
                        total_spawned(outs, k + 1 as int) == total_spawned(outs, k as int) + ns,
                        self.spec_next_id() == old_next + total_spawned(outs, k as int) + m,
                        forall|a: int| 0 <= a < due.len() ==> (#[trigger] due[a]).id < old_next,
                        forall|i: int|
                            0 <= i < old_tasks.len() && !is_due(#[trigger] old_tasks[i], now)
                                ==> in_queue(self.tasks(), old_tasks[i]),
                        forall|r: int|
                            k + 1 <= r < due.len() ==> in_queue(self.tasks(), #[trigger] due[r]),
                        forall|r: int|
                            0 <= r < k + 1 ==> match apply_outcome(
                                #[trigger] due[r],
                                outcome_result(outs, r),
                                now,
                            ).0 {
                                Some(surv) => in_queue(self.tasks(), surv),
                                None => absent_id(self.tasks(), due[r].id),
                            },
                        forall|r: int, q: int|
                            0 <= r < k && 0 <= q < outcome_spawned(outs, r).len() ==> in_queue(
                                self.tasks(),
                                make_inner(
                                    outcome_spawned(outs, r)[q],
                                    (old_next + total_spawned(outs, r) + q) as u32,
                                ),
                            ),
                        forall|q: int|
                            0 <= q < m ==> in_queue(
                                self.tasks(),
                                make_inner(
                                    outcome_spawned(outs, k as int)[q],
                                    (old_next + total_spawned(outs, k as int) + q) as u32,
                                ),
                            ),
                        self.tasks().len() == old_tasks.len() - terminal_records(
                            due,
                            outs,
                            now,
                            k + 1 as int,
                        ).len() + total_spawned(outs, k as int) + m,
                        report@.map(|q: int, t: InnerScheduledTask| t@) == terminal_records(
                            due,
                            outs,
                            now,
                            k + 1 as int,
                        ),
                    decreases ns - m,
                {
                    let ghost prev = self.tasks();
                    let st = ScheduledTask {
                        task: clone_task(&spawned[m].task),
                        options: spawned[m].options,
                    };
                    let fresh = self.append(st);
                    proof {
                        assert(st@ == outcome_spawned(outs, k as int)[m as int]);
                        assert(fresh == old_next + total_spawned(outs, k as int) + m);
                        assert(self.tasks() == prev.push(make_inner(st@, fresh)));
                        assert forall|q: int| 0 <= q < m + 1 implies in_queue(
                            self.tasks(),
                            make_inner(
                                outcome_spawned(outs, k as int)[q],
                                (old_next + total_spawned(outs, k as int) + q) as u32,
                            ),
                        ) by {
                            if q < m {
                                lemma_push_keeps(
                                    prev,
                                    make_inner(st@, fresh),
                                    make_inner(
                                        outcome_spawned(outs, k as int)[q],
                                        (old_next + total_spawned(outs, k as int) + q) as u32,
                                    ),
                                );
                            } else {
                                assert(self.tasks()[self.tasks().len() - 1] == make_inner(
                                    st@,
                                    fresh,
                                ));
                            }
                        }
                        assert forall|i: int|
                            0 <= i < old_tasks.len() && !is_due(#[trigger] old_tasks[i], now)
                            implies in_queue(self.tasks(), old_tasks[i]) by {
                            lemma_push_keeps(prev, make_inner(st@, fresh), old_tasks[i]);
                        }
                        assert forall|r: int| k + 1 <= r < due.len() implies in_queue(
                            self.tasks(),
                            #[trigger] due[r],
                        ) by {
                            lemma_push_keeps(prev, make_inner(st@, fresh), due[r]);
                        }
                        assert forall|r: int|
                            0 <= r < k + 1 implies match apply_outcome(
                            #[trigger] due[r],
                            outcome_result(outs, r),
                            now,
                        ).0 {
                            Some(surv) => in_queue(self.tasks(), surv),
                            None => absent_id(self.tasks(), due[r].id),
                        } by {
                            match apply_outcome(due[r], outcome_result(outs, r), now).0 {
                                Some(surv) => {
                                    lemma_push_keeps(prev, make_inner(st@, fresh), surv);
                                },
                                None => {
                                    assert forall|j: int|
                                        0 <= j < self.tasks().len() implies (
                                    #[trigger] self.tasks()[j]).id != due[r].id by {
                                        if j < prev.len() {
                                            assert(self.tasks()[j] == prev[j]);
                                        } else {
                                            assert(self.tasks()[j].id == fresh);
                                        }
                                    }
                                },
                            }
                        }
                        assert forall|r: int, q: int|
                            0 <= r < k && 0 <= q < outcome_spawned(outs, r).len() implies
                            in_queue(
                            self.tasks(),
                            make_inner(
                                outcome_spawned(outs, r)[q],
                                (old_next + total_spawned(outs, r) + q) as u32,
                            ),
                        ) by {
                            lemma_push_keeps(
                                prev,
                                make_inner(st@, fresh),
                                make_inner(
                                    outcome_spawned(outs, r)[q],
                                    (old_next + total_spawned(outs, r) + q) as u32,
                                ),
                            );
                        }
                    }
                    m = m + 1;
                }
            } else {
                proof {
                    assert(outcome_spawned(outs, k as int) =~= Seq::<ScheduledTaskV>::empty());
                    assert(total_spawned(outs, k + 1 as int) == total_spawned(outs, k as int));
                }
            }
            k = k + 1;
        }
        report
    }
}

/// A queued task whose id differs from the one edited at `idx` survives an
/// in-place update there.
proof fn lemma_update_keeps_others(
    before: Seq<InnerTaskV>,
    idx: int,
    x: InnerTaskV,
    t: InnerTaskV,
    after: Seq<InnerTaskV>,
)
    requires
        0 <= idx < before.len(),
        in_queue(before, t),
        t.id != before[idx].id,
        after == before.update(idx, x),
    ensures
        in_queue(after, t),
{
    let j = choose|j: int| 0 <= j < before.len() && (#[trigger] before[j]) == t;
    assert(j != idx);
    assert(after[j] == t);
}

/// A queued task whose id differs from the one removed at `idx` survives
/// the removal.
proof fn lemma_remove_keeps_others(
    before: Seq<InnerTaskV>,
    idx: int,
    t: InnerTaskV,
    after: Seq<InnerTaskV>,
)
    requires
        0 <= idx < before.len(),
        in_queue(before, t),
        t.id != before[idx].id,
        after == before.remove(idx),
    ensures
        in_queue(after, t),
{
    let j = choose|j: int| 0 <= j < before.len() && (#[trigger] before[j]) == t;
    assert(j != idx);
    if j < idx {
        assert(after[j] == t);
    } else {
        assert(after[j - 1] == t);
    }
}

/// A queued task survives appending another.
proof fn lemma_push_keeps(s: Seq<InnerTaskV>, x: InnerTaskV, t: InnerTaskV)
    requires
        in_queue(s, t),
    ensures
        in_queue(s.push(x), t),
{
    let j = choose|j: int| 0 <= j < s.len() && (#[trigger] s[j]) == t;
    assert(s.push(x)[j] == t);
}

/// How many times the EVM bootstrap task is retried, and its backoff.
pub const EVM_INFO_INITIALIZATION_RETRIES: u32 = 5;

/// Seconds before the first EVM bootstrap retry.
pub const EVM_INFO_INITIALIZATION_RETRY_DELAY_SEC: u32 = 2;

/// Growth factor between EVM bootstrap retries.
pub const EVM_INFO_INITIALIZATION_RETRY_MULTIPLIER: u32 = 2;

/// Seconds between polls of the bridge contract's logs.
pub const EVM_EVENTS_COLLECTING_DELAY: u32 = 1;

/// The bootstrap task that initializes the EVM parameters: a bounded
/// number of attempts with exponential backoff.
pub fn init_evm_info_task() -> (r: ScheduledTask)
    ensures
        r@.task == RuneBridgeTaskV::InitEvmState,
        r@.options == (TaskOptions {
            retry_policy: RetryPolicy::MaxRetries { retries: EVM_INFO_INITIALIZATION_RETRIES },
            backoff_policy: BackoffPolicy::Exponential {
                secs: EVM_INFO_INITIALIZATION_RETRY_DELAY_SEC,
                multiplier: EVM_INFO_INITIALIZATION_RETRY_MULTIPLIER,
            },
            execute_after_timestamp_in_secs: 0,
        }),
{
    let init_options = TaskOptions::default().with_max_retries_policy(
        EVM_INFO_INITIALIZATION_RETRIES,
    ).with_backoff_policy(
        BackoffPolicy::Exponential {
            secs: EVM_INFO_INITIALIZATION_RETRY_DELAY_SEC,
            multiplier: EVM_INFO_INITIALIZATION_RETRY_MULTIPLIER,
        },
    );
    RuneBridgeTask::InitEvmState.into_scheduled(init_options)
}

/// The polling task that collects bridge contract logs: retried forever
/// on a fixed delay, so polling never stops.
pub fn collect_evm_events_task() -> (r: ScheduledTask)
    ensures
        r@.task == RuneBridgeTaskV::CollectEvmEvents,
        r@.options == (TaskOptions {
            retry_policy: RetryPolicy::Infinite,
            backoff_policy: BackoffPolicy::Fixed { secs: EVM_EVENTS_COLLECTING_DELAY },
            execute_after_timestamp_in_secs: 0,
        }),
{
    let options = TaskOptions::default().with_retry_policy(RetryPolicy::Infinite)
        .with_backoff_policy(BackoffPolicy::Fixed { secs: EVM_EVENTS_COLLECTING_DELAY });
    RuneBridgeTask::CollectEvmEvents.into_scheduled(options)
}

/// The completion hook's decision: which terminal records deserve an
/// error message. It only reads the record, so it cannot affect
/// scheduling.
pub fn log_task_execution_error(task: &InnerScheduledTask) -> (r: Option<String>)
    ensures
        match task.status@ {
            TaskStatusV::Failed { timestamp_secs, error } => {
                r matches Some(msg) && msg@ == error
            },
            TaskStatusV::TimeoutOrPanic { timestamp_secs } => r is Some,
            _ => r is None,
        },
{
    match &task.status {
        TaskStatus::Failed { timestamp_secs: _, error } => Some(error.clone()),
        TaskStatus::TimeoutOrPanic { timestamp_secs: _ } => Some(
            String::from_str("task timed out or panicked"),
        ),
        _ => None,
    }
}

/// Law: a task under `MaxRetries { retries }` is attempted at most
/// `retries + 1` times. A queued task's failure count never exceeds
/// `retries` (appending starts it at zero, and a re-queue both counts the
/// failure and requires that retries remained), so at most `retries`
/// failing attempts are followed by another one; and any attempt made
/// with the count already at `retries` ends the task with a terminal
/// record, whatever the handler reported.
pub proof fn law_bounded_attempts(t: InnerTaskV, r: TaskResultV, now: u64, retries: u32)
    requires
        t.options.retry_policy == (RetryPolicy::MaxRetries { retries }),
        Scheduler::bounded_failures(t),
    ensures
        apply_outcome(t, r, now).0 matches Some(surv) ==> surv.failures <= retries
            && surv.failures == t.failures + 1,
        t.failures == retries ==> apply_outcome(t, r, now).0 is None,
        apply_outcome(t, r, now).0 is None <==> apply_outcome(t, r, now).1 is Some,
{
}

/// Law: a task under the `Infinite` retry policy is never dropped by a
/// failing attempt: whatever error the handler reports, it is re-queued
/// to wait for its next attempt, and only a successful attempt completes
/// it. (A handler that panics or never reports is terminal by the status
/// machine, for every policy.)
pub proof fn law_infinite_never_dropped(t: InnerTaskV, e: Seq<char>, now: u64)
    requires
        t.options.retry_policy == RetryPolicy::Infinite,
    ensures
        apply_outcome(t, TaskResultV::Failure(e), now).0 == Some(retried_task(t, now)),
        apply_outcome(t, TaskResultV::Failure(e), now).1 is None,
        retried_task(t, now).status is Waiting,
        apply_outcome(t, TaskResultV::Success, now).1 matches Some(rec) && rec.status
            is Completed,
{
}

} // verus!

