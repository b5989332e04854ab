use btc_bridge::events::{
    collect_evm_events, init_evm_state, remove_mint_order, task_by_log, BridgeEvent, BridgeLog,
};
use btc_bridge::scheduler::{RuneBridgeTask, Scheduler};
use btc_bridge::state::{get_state, BridgeState, EvmParams};
use btc_bridge::types::{BridgeError, BurntEventData, H160, Id256, MintedEventData};

fn fresh_state() -> BridgeState {
    get_state(
        vec![0xad; 29],
        Id256 { bytes: [9; 32] },
        7,
        355113,
        b"Wrapped Rune".to_vec(),
        b"WRUNE".to_vec(),
        8,
        10,
    )
}

fn params(next_block: u64) -> EvmParams {
    EvmParams {
        next_block,
        nonce: 1,
        gas_price: 10,
        chain_id: 355113,
        bridge_contract: H160 { bytes: [0xbb; 20] },
    }
}

fn burnt(op: u32) -> BurntEventData {
    BurntEventData {
        operation_id: op,
        amount: 100,
        recipient_id: b"addr".to_vec(),
        to_token: vec![2; 32],
    }
}

fn minted(nonce: u32) -> MintedEventData {
    MintedEventData { amount: 100, sender_id: vec![1; 32], nonce }
}

fn log(block: Option<u64>, event: BridgeEvent) -> BridgeLog {
    BridgeLog { block_number: block, event }
}

#[test]
fn cursor_advances_over_the_contiguous_finalized_prefix() {
    // Five logs; the last two are not finalized. The cursor moves to one
    // past the third log's block, and all five still become tasks.
    let mut state = fresh_state();
    state.evm_params = Some(params(1));
    let mut sched = Scheduler::new();
    let logs = vec![
        log(Some(10), BridgeEvent::Burnt(burnt(1))),
        log(Some(11), BridgeEvent::Minted(minted(2))),
        log(Some(12), BridgeEvent::Burnt(burnt(3))),
        log(None, BridgeEvent::Minted(minted(4))),
        log(None, BridgeEvent::Burnt(burnt(5))),
    ];
    collect_evm_events(&mut state, &mut sched, &logs).expect("collection settles");
    assert_eq!(state.evm_params.as_ref().unwrap().next_block, 13);
    assert_eq!(sched.due_tasks(u64::MAX).len(), 5);
}

#[test]
fn unknown_events_are_dropped_not_errors() {
    let mut state = fresh_state();
    state.evm_params = Some(params(1));
    let mut sched = Scheduler::new();
    let logs = vec![
        log(Some(10), BridgeEvent::Other),
        log(Some(11), BridgeEvent::Burnt(burnt(1))),
    ];
    collect_evm_events(&mut state, &mut sched, &logs).expect("unknown events do not fail");
    assert_eq!(state.evm_params.as_ref().unwrap().next_block, 12);
    assert_eq!(sched.due_tasks(u64::MAX).len(), 1);
}

#[test]
fn collection_without_bootstrap_changes_nothing() {
    let mut state = fresh_state();
    let mut sched = Scheduler::new();
    let logs = vec![log(Some(10), BridgeEvent::Burnt(burnt(1)))];
    collect_evm_events(&mut state, &mut sched, &logs).expect("it settles quietly");
    assert!(state.evm_params.is_none());
    assert!(sched.due_tasks(u64::MAX).is_empty());
}

#[test]
fn unfinalized_head_keeps_the_cursor() {
    let mut state = fresh_state();
    state.evm_params = Some(params(5));
    let mut sched = Scheduler::new();
    let logs = vec![
        log(None, BridgeEvent::Burnt(burnt(1))),
        log(Some(11), BridgeEvent::Burnt(burnt(2))),
    ];
    collect_evm_events(&mut state, &mut sched, &logs).expect("collection settles");
    assert_eq!(state.evm_params.as_ref().unwrap().next_block, 5);
    assert_eq!(sched.due_tasks(u64::MAX).len(), 2);
}

#[test]
fn tasks_mirror_their_events() {
    let t = task_by_log(&log(Some(1), BridgeEvent::Burnt(burnt(1)))).expect("a task");
    assert!(matches!(t.task, RuneBridgeTask::MintBtc(_)));
    let t = task_by_log(&log(None, BridgeEvent::Minted(minted(1)))).expect("a task");
    assert!(matches!(t.task, RuneBridgeTask::RemoveMintOrder(_)));
    assert!(task_by_log(&log(Some(1), BridgeEvent::Other)).is_none());
}

#[test]
fn minted_event_removes_the_stored_order() {
    let mut state = fresh_state();
    let sender = Id256 { bytes: [1; 32] };
    let token = state.src_token;
    state.mint_orders.push(
        sender,
        2,
        btc_bridge::orders::SignedMintOrder {
            order: btc_bridge::orders::MintOrder {
                amount: 990,
                sender,
                src_token: token,
                recipient: H160 { bytes: [3; 20] },
                dst_token: H160::zero(),
                nonce: 2,
                sender_chain_id: 7,
                recipient_chain_id: 355113,
                name: b"n".to_vec(),
                symbol: b"s".to_vec(),
                decimals: 8,
                approve_spender: H160::zero(),
                approve_amount: 0,
                fee_payer: H160::zero(),
            },
            signature: vec![1],
        },
    );
    remove_mint_order(&mut state, &minted(2)).expect("a well-formed event settles");
    assert!(state.mint_orders.get(&sender, &token, 2).is_none());

    // A sender id of the wrong width fails the task.
    let bad = MintedEventData { amount: 1, sender_id: vec![1; 5], nonce: 2 };
    assert!(matches!(
        remove_mint_order(&mut state, &bad),
        Err(BridgeError::TaskExecutionFailed(_))
    ));
}

#[test]
fn bootstrap_stores_fetched_parameters() {
    let mut state = fresh_state();
    init_evm_state(&mut state, Ok(params(77))).expect("a fetched parameter set settles");
    assert_eq!(state.evm_params.as_ref().unwrap().next_block, 77);

    let mut state2 = fresh_state();
    let r = init_evm_state(&mut state2, Err(String::from("rpc down")));
    assert!(matches!(r, Err(BridgeError::TaskExecutionFailed(_))));
    assert!(state2.evm_params.is_none());
}

#[test]
fn collection_plan_returns_the_follow_ups() {
    // The plan form advances the cursor and hands the follow-up tasks
    // back for the scheduler's outcome channel instead of appending.
    let mut state = fresh_state();
    state.evm_params = Some(params(1));
    let logs = vec![
        log(Some(10), BridgeEvent::Burnt(burnt(1))),
        log(Some(11), BridgeEvent::Other),
        log(None, BridgeEvent::Minted(minted(2))),
    ];
    let spawned = btc_bridge::events::collect_evm_events_plan(&mut state, &logs);
    assert_eq!(spawned.len(), 2);
    assert!(matches!(spawned[0].task, RuneBridgeTask::MintBtc(_)));
    assert!(matches!(spawned[1].task, RuneBridgeTask::RemoveMintOrder(_)));
    assert_eq!(state.evm_params.as_ref().unwrap().next_block, 12);

    // Without bootstrap the plan is empty and nothing changes.
    let mut bare = fresh_state();
    assert!(btc_bridge::events::collect_evm_events_plan(&mut bare, &logs).is_empty());
    assert!(bare.evm_params.is_none());
}
