use btc_bridge::scheduler::{
    backoff_secs, collect_evm_events_task, init_evm_info_task, log_task_execution_error,
    BackoffPolicy, RetryPolicy, RuneBridgeTask, ScheduledTask, Scheduler, TaskExecutionResult,
    TaskOptions, TaskOutcome, TaskStatus,
};

fn outcome(result: TaskExecutionResult) -> TaskOutcome {
    TaskOutcome { result, spawned: Vec::new() }
}

#[test]
fn append_assigns_growing_ids() {
    let mut sched = Scheduler::new();
    let a = sched.append(ScheduledTask::with_options(
        RuneBridgeTask::InitEvmState,
        TaskOptions::default(),
    ));
    let b = sched.append(ScheduledTask::with_options(
        RuneBridgeTask::CollectEvmEvents,
        TaskOptions::default(),
    ));
    assert_eq!(a, 0);
    assert_eq!(b, 1);
    assert_eq!(sched.due_tasks(0), vec![0, 1]);
}

#[test]
fn task_with_max_retries_reaches_terminal_within_bound() {
    // A task allowed two retries is attempted at most three times.
    let mut sched = Scheduler::new();
    let options = TaskOptions::default()
        .with_max_retries_policy(2)
        .with_backoff_policy(BackoffPolicy::Fixed { secs: 1 });
    sched.append(ScheduledTask::with_options(RuneBridgeTask::InitEvmState, options));

    let mut attempts = 0;
    let mut now = 0u64;
    let mut terminal = Vec::new();
    while terminal.is_empty() {
        let due = sched.due_tasks(now);
        if !due.is_empty() {
            attempts += 1;
            let outcomes = vec![outcome(TaskExecutionResult::Failure(String::from("boom")))];
            terminal = sched.run(now, &outcomes);
        }
        now += 1;
        assert!(now < 100, "the task must reach a terminal status");
    }
    assert_eq!(attempts, 3);
    assert_eq!(terminal.len(), 1);
    assert!(matches!(terminal[0].status, TaskStatus::Failed { .. }));
    // Terminal means gone: nothing is ever due again.
    assert!(sched.due_tasks(1_000_000).is_empty());
}

#[test]
fn infinite_task_is_never_dropped() {
    let mut sched = Scheduler::new();
    let options = TaskOptions::default()
        .with_retry_policy(RetryPolicy::Infinite)
        .with_backoff_policy(BackoffPolicy::Fixed { secs: 1 });
    sched.append(ScheduledTask::with_options(RuneBridgeTask::CollectEvmEvents, options));

    let mut now = 0u64;
    for _ in 0..25 {
        let due = sched.due_tasks(now);
        if !due.is_empty() {
            let outcomes = vec![outcome(TaskExecutionResult::Failure(String::from("again")))];
            let terminal = sched.run(now, &outcomes);
            assert!(terminal.is_empty(), "a failing infinite task is re-queued, not dropped");
        }
        now += 1;
    }
    // It is still there, and success finally completes it.
    while sched.due_tasks(now).is_empty() {
        now += 1;
    }
    let terminal = sched.run(now, &vec![outcome(TaskExecutionResult::Success)]);
    assert_eq!(terminal.len(), 1);
    assert!(matches!(terminal[0].status, TaskStatus::Completed { .. }));
    assert!(sched.due_tasks(now + 1_000).is_empty());
}

#[test]
fn missing_outcome_is_a_panic_and_terminal() {
    let mut sched = Scheduler::new();
    sched.append(ScheduledTask::with_options(
        RuneBridgeTask::InitEvmState,
        TaskOptions::default().with_retry_policy(RetryPolicy::Infinite),
    ));
    let terminal = sched.run(0, &Vec::new());
    assert_eq!(terminal.len(), 1);
    assert!(matches!(terminal[0].status, TaskStatus::TimeoutOrPanic { .. }));
}

#[test]
fn spawned_tasks_wait_for_the_next_tick() {
    let mut sched = Scheduler::new();
    sched.append(ScheduledTask::with_options(
        RuneBridgeTask::CollectEvmEvents,
        TaskOptions::default(),
    ));
    let spawned = vec![
        ScheduledTask::with_options(RuneBridgeTask::InitEvmState, TaskOptions::default()),
        ScheduledTask::with_options(RuneBridgeTask::CollectEvmEvents, TaskOptions::default()),
    ];
    let outcomes = vec![TaskOutcome { result: TaskExecutionResult::Success, spawned }];
    let terminal = sched.run(5, &outcomes);
    assert_eq!(terminal.len(), 1);
    // The spawned tasks carry fresh ids and run on a later tick.
    assert_eq!(sched.due_tasks(5), vec![1, 2]);
}

#[test]
fn backoff_fixed_and_exponential() {
    assert_eq!(backoff_secs(BackoffPolicy::Fixed { secs: 7 }, 3), 7);
    let exp = BackoffPolicy::Exponential { secs: 2, multiplier: 3 };
    assert_eq!(backoff_secs(exp, 1), 2);
    assert_eq!(backoff_secs(exp, 2), 6);
    assert_eq!(backoff_secs(exp, 3), 18);
    // A delay past the representable range stops at the cap.
    let huge = BackoffPolicy::Exponential { secs: u32::MAX, multiplier: u32::MAX };
    assert_eq!(backoff_secs(huge, 40), u64::MAX);
}

#[test]
fn failed_task_waits_out_its_backoff() {
    let mut sched = Scheduler::new();
    let options = TaskOptions::default()
        .with_max_retries_policy(5)
        .with_backoff_policy(BackoffPolicy::Fixed { secs: 10 });
    sched.append(ScheduledTask::with_options(RuneBridgeTask::InitEvmState, options));
    let terminal =
        sched.run(100, &vec![outcome(TaskExecutionResult::Failure(String::from("later")))]);
    assert!(terminal.is_empty());
    assert!(sched.due_tasks(105).is_empty());
    assert_eq!(sched.due_tasks(110), vec![0]);
}

#[test]
fn bootstrap_task_options() {
    let init = init_evm_info_task();
    assert_eq!(init.options.retry_policy, RetryPolicy::MaxRetries { retries: 5 });
    assert_eq!(
        init.options.backoff_policy,
        BackoffPolicy::Exponential { secs: 2, multiplier: 2 }
    );
    assert!(matches!(init.task, RuneBridgeTask::InitEvmState));

    let collect = collect_evm_events_task();
    assert_eq!(collect.options.retry_policy, RetryPolicy::Infinite);
    assert_eq!(collect.options.backoff_policy, BackoffPolicy::Fixed { secs: 1 });
    assert!(matches!(collect.task, RuneBridgeTask::CollectEvmEvents));
}

#[test]
fn completion_hook_reports_failures_only() {
    let mut sched = Scheduler::new();
    sched.append(ScheduledTask::with_options(
        RuneBridgeTask::InitEvmState,
        TaskOptions::default(),
    ));
    sched.append(ScheduledTask::with_options(
        RuneBridgeTask::CollectEvmEvents,
        TaskOptions::default(),
    ));
    let outcomes = vec![
        outcome(TaskExecutionResult::Success),
        outcome(TaskExecutionResult::Failure(String::from("broken"))),
    ];
    let terminal = sched.run(0, &outcomes);
    assert_eq!(terminal.len(), 2);
    assert!(log_task_execution_error(&terminal[0]).is_none());
    assert_eq!(log_task_execution_error(&terminal[1]), Some(String::from("broken")));
}
