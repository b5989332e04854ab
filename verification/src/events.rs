//! The event collector: turns the bridge contract's Burnt / Minted logs
//! into follow-up scheduler tasks and advances the finality cursor.
//!
//! The host fetches the raw logs and decodes them; the rules here decide
//! how far the cursor moves and which tasks are enqueued.

use vstd::prelude::*;

use crate::scheduler::{sat_add64, BackoffPolicy, RetryPolicy, RuneBridgeTask, RuneBridgeTaskV,
    ScheduledTask, ScheduledTaskV, Scheduler, TaskOptions, make_inner};
use crate::state::{BridgeState, EvmParams};
use crate::types::{clone_burnt_event, clone_minted_event, BridgeError, BurntEventData, Id256,
    MintedEventData};

verus! {

/// Seconds between retries of a task spawned from a log.
pub const TASK_RETRY_DELAY_SECS: u32 = 5;

/// What a log of the bridge contract turned out to carry.
#[derive(Debug)]
pub enum BridgeEvent {
    /// Wrapped tokens were burned; an outbound transfer is owed.
    Burnt(BurntEventData),
    /// A mint order was executed on chain.
    Minted(MintedEventData),
    /// The log matches no known event signature.
    Other,
}

/// The mathematical contents of a `BridgeEvent`.
pub enum BridgeEventV {
    Burnt(crate::types::BurntEventV),
    Minted(crate::types::MintedEventV),
    Other,
}

impl View for BridgeEvent {
    type V = BridgeEventV;

    open spec fn view(&self) -> BridgeEventV {
        match self {
            BridgeEvent::Burnt(e) => BridgeEventV::Burnt(e@),
            BridgeEvent::Minted(e) => BridgeEventV::Minted(e@),
            BridgeEvent::Other => BridgeEventV::Other,
        }
    }
}

/// One log as the host decoded it: its block number, absent while the
/// block is not finalized, and the event it carries.
#[derive(Debug)]
pub struct BridgeLog {
    pub block_number: Option<u64>,
    pub event: BridgeEvent,
}

/// The mathematical contents of a `BridgeLog`.
pub struct BridgeLogV {
    pub block_number: Option<u64>,
    pub event: BridgeEventV,
}

impl View for BridgeLog {
    type V = BridgeLogV;

    open spec fn view(&self) -> BridgeLogV {
        BridgeLogV { block_number: self.block_number, event: self.event@ }
    }
}

/// The scheduling choices of every task spawned from a log.
pub open spec fn spec_log_task_options() -> TaskOptions {
    TaskOptions {
        retry_policy: RetryPolicy::MaxRetries { retries: u32::MAX },
        backoff_policy: BackoffPolicy::Fixed { secs: TASK_RETRY_DELAY_SECS },
        execute_after_timestamp_in_secs: 0,
    }
}

/// The follow-up task a log demands: a payout for a Burnt event, an order
/// removal for a Minted event, nothing for an unknown event.
pub open spec fn spec_task_by_log(log: BridgeLogV) -> Option<ScheduledTaskV> {
    match log.event {
        BridgeEventV::Burnt(burnt) => Some(
            ScheduledTaskV {
                task: RuneBridgeTaskV::MintBtc(burnt),
                options: spec_log_task_options(),
            },
        ),
        BridgeEventV::Minted(minted) => Some(
            ScheduledTaskV {
                task: RuneBridgeTaskV::RemoveMintOrder(minted),
                options: spec_log_task_options(),
            },
        ),
        BridgeEventV::Other => None,
    }
}

/// The follow-up tasks of a batch of logs, finalized or not, in log order.
pub open spec fn tasks_of_logs(logs: Seq<BridgeLogV>) -> Seq<ScheduledTaskV>
    decreases logs.len(),
{
    if logs.len() == 0 {
        Seq::empty()
    } else {
        let rest = tasks_of_logs(logs.drop_last());
        match spec_task_by_log(logs.last()) {
            Some(t) => rest.push(t),
            None => rest,
        }
    }
}

/// How many logs, from the front, carry a block number: the cursor may
/// advance only over this contiguous finalized prefix.
pub open spec fn contiguous_prefix_len(logs: Seq<BridgeLogV>) -> int
    decreases logs.len(),
{
    if logs.len() == 0 {
        0
    } else if logs[0].block_number is None {
        0
    } else {
        1 + contiguous_prefix_len(logs.drop_first())
    }
}

/// A batch never demands more tasks than it has logs.
pub proof fn lemma_tasks_of_logs_len(logs: Seq<BridgeLogV>)
    ensures
        tasks_of_logs(logs).len() <= logs.len(),
    decreases logs.len(),
{
    if logs.len() > 0 {
        lemma_tasks_of_logs_len(logs.drop_last());
    }
}

/// Builds the follow-up task for one log, if its event is known.
pub fn task_by_log(log: &BridgeLog) -> (r: Option<ScheduledTask>)
    ensures
        match r {
            Some(t) => spec_task_by_log(log@) == Some(t@),
            None => spec_task_by_log(log@) is None,
        },
{
    let options = TaskOptions::default().with_backoff_policy(
        BackoffPolicy::Fixed { secs: TASK_RETRY_DELAY_SECS },
    ).with_max_retries_policy(u32::MAX);
    match &log.event {
        BridgeEvent::Burnt(burnt) => Some(
            RuneBridgeTask::MintBtc(clone_burnt_event(burnt)).into_scheduled(options),
        ),
        BridgeEvent::Minted(minted) => Some(
            RuneBridgeTask::RemoveMintOrder(clone_minted_event(minted)).into_scheduled(options),
        ),
        BridgeEvent::Other => None,
    }
}

/// Applies one batch of collected logs to the state alone: advances the
/// cursor to one past the last log of the contiguous finalized prefix
/// and returns the follow-up task of every log whose event is known,
/// finalized or not, for the caller to enqueue -- directly, or through
/// the outcome of the task that collected the batch. Without
/// initialized EVM parameters nothing changes and nothing is owed.
pub fn collect_evm_events_plan(state: &mut BridgeState, logs: &Vec<BridgeLog>) -> (r: Vec<
    ScheduledTask,
>)
    ensures
        r@.len() <= logs@.len(),
        *final(state) == (BridgeState {
            evm_params: final(state).evm_params,
            ..*old(state)
        }),
        match old(state).evm_params {
            None => {
                &&& final(state).evm_params is None
                &&& r@.len() == 0
            },
            Some(params) => {
                &&& r@.map(|k: int, t: ScheduledTask| t@) == tasks_of_logs(
                    logs@.map(|i: int, l: BridgeLog| l@),
                )
                &&& (if logs@.len() == 0 || contiguous_prefix_len(
                    logs@.map(|i: int, l: BridgeLog| l@),
                ) == 0 {
                    final(state).evm_params == Some(params)
                } else {
                    final(state).evm_params == Some(
                        EvmParams {
                            next_block: sat_add64(
                                logs@.map(|i: int, l: BridgeLog| l@)[contiguous_prefix_len(
                                    logs@.map(|i: int, l: BridgeLog| l@),
                                ) - 1].block_number->Some_0,
                                1,
                            ),
                            ..params
                        },
                    )
                })
            },
        },
{
    let ghost log_views = logs@.map(|i: int, l: BridgeLog| l@);
    let params = match &state.evm_params {
        None => {
            return Vec::new();
        },
        Some(p) => *p,
    };
    // Advance the cursor over the contiguous prefix of finalized logs.
    let n = logs.len();
    let mut p: usize = 0;
    proof {
        assert(log_views.skip(0) =~= log_views);
    }
    while p < n && logs[p].block_number.is_some()
        invariant
            0 <= p <= n,
            n == log_views.len(),
            log_views == logs@.map(|i: int, l: BridgeLog| l@),
            contiguous_prefix_len(log_views.skip(p as int)) + p == contiguous_prefix_len(
                log_views,
            ),
            forall|i: int| 0 <= i < p ==> (#[trigger] log_views[i]).block_number is Some,
        decreases n - p,
    {
        proof {
            assert(log_views.skip(p as int)[0] == log_views[p as int]);
            assert(log_views.skip(p as int).drop_first() =~= log_views.skip(p + 1 as int));
        }
        p = p + 1;
    }
    proof {
        if p < n {
            assert(log_views.skip(p as int)[0] == log_views[p as int]);
            assert(contiguous_prefix_len(log_views.skip(p as int)) == 0);
        } else {
            assert(log_views.skip(n as int).len() == 0);
        }
        assert(contiguous_prefix_len(log_views) == p);
    }
    if n > 0 && p > 0 {
        let last_block = match &logs[p - 1].block_number {
            Some(b) => *b,
            None => {
                proof {
                    assert(log_views[p - 1].block_number is Some);
                }
                0
            },
        };
        let next_block = last_block.saturating_add(1);
        state.evm_params = Some(EvmParams { next_block, ..params });
    }
    // Every log maps to its follow-up task, finalized or not.
    let mut spawned: Vec<ScheduledTask> = Vec::new();
    let mut i: usize = 0;
    while i < n
        invariant
            0 <= i <= n,
            n == log_views.len(),
            log_views == logs@.map(|q: int, l: BridgeLog| l@),
            spawned@.map(|q: int, t: ScheduledTask| t@) == tasks_of_logs(
                log_views.subrange(0, i as int),
            ),
        decreases n - i,
    {
        proof {
            assert(log_views.subrange(0, i + 1 as int).drop_last() =~= log_views.subrange(
                0,
                i as int,
            ));
            assert(log_views.subrange(0, i + 1 as int).last() == log_views[i as int]);
        }
        match task_by_log(&logs[i]) {
            Some(t) => {
                spawned.push(t);
                proof {
                    assert(spawned@.map(|q: int, t2: ScheduledTask| t2@) =~= tasks_of_logs(
                        log_views.subrange(0, i + 1 as int),
                    ));
                }
            },
            None => {},
        }
        i = i + 1;
    }
    proof {
        assert(log_views.subrange(0, n as int) =~= log_views);
        lemma_tasks_of_logs_len(log_views);
    }
    spawned
}

/// Applies one batch of collected logs: advances the cursor as
/// `collect_evm_events_plan` does and appends the follow-up tasks to the
/// scheduler under fresh ids.
pub fn collect_evm_events(
    state: &mut BridgeState,
    scheduler: &mut Scheduler,
    logs: &Vec<BridgeLog>,
) -> (r: Result<(), BridgeError>)
    requires
        old(scheduler).wf(),
        old(scheduler).spec_next_id() + logs@.len() <= u32::MAX,
    ensures
        final(scheduler).wf(),
        r is Ok,
        *final(state) == (BridgeState {
            evm_params: final(state).evm_params,
            ..*old(state)
        }),
        match old(state).evm_params {
            None => {
                &&& final(state).evm_params is None
                &&& final(scheduler).tasks() == old(scheduler).tasks()
                &&& final(scheduler).spec_next_id() == old(scheduler).spec_next_id()
            },
            Some(params) => {
                &&& final(scheduler).tasks() == old(scheduler).tasks() + tasks_of_logs(
                    logs@.map(|i: int, l: BridgeLog| l@),
                ).map(
                    |k: int, t: ScheduledTaskV| make_inner(
                        t,
                        (old(scheduler).spec_next_id() + k) as u32,
                    ),
                )
                &&& (if logs@.len() == 0 || contiguous_prefix_len(
                    logs@.map(|i: int, l: BridgeLog| l@),
                ) == 0 {
                    final(state).evm_params == Some(params)
                } else {
                    final(state).evm_params == Some(
                        EvmParams {
                            next_block: sat_add64(
                                logs@.map(|i: int, l: BridgeLog| l@)[contiguous_prefix_len(
                                    logs@.map(|i: int, l: BridgeLog| l@),
                                ) - 1].block_number->Some_0,
                                1,
                            ),
                            ..params
                        },
                    )
                })
            },
        },
{
    let had_params = state.evm_params.is_some();
    let spawned = collect_evm_events_plan(state, logs);
    if had_params {
        scheduler.append_many(spawned);
        proof {
            assert(final(scheduler).tasks() == old(scheduler).tasks() + tasks_of_logs(
                logs@.map(|i: int, l: BridgeLog| l@),
            ).map(
                |k: int, t: ScheduledTaskV| make_inner(
                    t,
                    (old(scheduler).spec_next_id() + k) as u32,
                ),
            ) ==> true);
        }
    }
    Ok(())
}

/// Applies a Minted log: decodes the order's sender id and drops the
/// stored mint order it confirms. A sender id that is not 32 bytes is a
/// task failure and changes nothing.
pub fn remove_mint_order(state: &mut BridgeState, minted: &MintedEventData) -> (r: Result<
    (),
    BridgeError,
>)
    requires
        old(state).wf(),
    ensures
        final(state).wf(),
        minted.sender_id@.len() == 32 ==> {
            &&& r is Ok
            &&& final(state).mint_orders@ == old(state).mint_orders@.remove(
                (minted.sender_id@, minted.nonce),
            )
            &&& *final(state) == (BridgeState {
                mint_orders: final(state).mint_orders,
                ..*old(state)
            })
        },
        minted.sender_id@.len() != 32 ==> (r matches Err(BridgeError::TaskExecutionFailed(m))
            && *final(state) == *old(state)),
{
    let sender_id = match Id256::from_slice(minted.sender_id.as_slice()) {
        Some(id) => id,
        None => {
            return Err(
                BridgeError::TaskExecutionFailed(
                    String::from_str("failed to decode sender id256 from minted event"),
                ),
            );
        },
    };
    remove_order_entry(state, sender_id, minted.nonce);
    Ok(())
}

fn remove_order_entry(state: &mut BridgeState, sender: Id256, nonce: u32)
    requires
        old(state).wf(),
    ensures
        final(state).wf(),
        final(state).mint_orders@ == old(state).mint_orders@.remove((sender.bytes@, nonce)),
        *final(state) == (BridgeState { mint_orders: final(state).mint_orders, ..*old(state) }),
{
    state.mint_orders.remove(sender, nonce);
}

/// Applies the result of the EVM bootstrap query: a fetched parameter set
/// is stored; a query error is a task failure and changes nothing.
pub fn init_evm_state(state: &mut BridgeState, fetched: Result<EvmParams, String>) -> (r: Result<
    (),
    BridgeError,
>)
    ensures
        match fetched {
            Ok(params) => r is Ok && *final(state) == (BridgeState {
                evm_params: Some(params),
                ..*old(state)
            }),
            Err(e) => (r matches Err(BridgeError::TaskExecutionFailed(m)) && m@ == e@
                && *final(state) == *old(state)),
        },
{
    match fetched {
        Ok(params) => {
            state.update_evm_params(Some(params));
            Ok(())
        },
        Err(e) => Err(BridgeError::TaskExecutionFailed(e)),
    }
}

} // verus!
