use btc_bridge::ledger::{Outpoint, Utxo};
use btc_bridge::ops::{
    decode_rune_id, decode_withdrawal_request, mint_erc20, send_mint_order, withdraw_begin,
    withdraw_brc20, withdraw_complete, Erc20MintStatus,
};
use btc_bridge::state::{get_state, BridgeState, EvmParams};
use btc_bridge::types::{BridgeError, BurntEventData, H160, H256, Id256, Network};

fn fresh_state(fee: u64) -> BridgeState {
    get_state(
        vec![0xad; 29],
        Id256 { bytes: [9; 32] },
        7,
        355113,
        b"Wrapped Rune".to_vec(),
        b"WRUNE".to_vec(),
        8,
        fee,
    )
}

fn params() -> EvmParams {
    EvmParams {
        next_block: 1,
        nonce: 41,
        gas_price: 10,
        chain_id: 355113,
        bridge_contract: H160 { bytes: [0xbb; 20] },
    }
}

fn recipient() -> H160 {
    H160 { bytes: [0x42; 20] }
}

#[test]
fn deposit_mints_amount_minus_fee() {
    // A deposit of 1000 with fee 10 yields an order for 990; a successful
    // broadcast reports it as minted.
    let mut state = fresh_state(10);
    state.evm_params = Some(params());
    let nonce = state.next_nonce();
    let tx = H256 { bytes: [0xcc; 32] };
    let status = mint_erc20(
        &mut state,
        recipient(),
        1000,
        nonce,
        Ok(vec![0x77; 65]),
        Ok(tx),
    )
    .expect("the deposit settles");
    match status {
        Erc20MintStatus::Minted { amount, tx_id } => {
            assert_eq!(amount, 990);
            assert_eq!(tx_id.bytes, [0xcc; 32]);
        },
        _ => panic!("a successful send reports Minted"),
    }
    // The successful send advanced the EVM account nonce.
    assert_eq!(state.evm_params.as_ref().unwrap().nonce, 42);
}

#[test]
fn deposit_send_failure_leaves_signed_order_retrievable() {
    let mut state = fresh_state(10);
    state.evm_params = Some(params());
    let nonce = state.next_nonce();
    let status = mint_erc20(
        &mut state,
        recipient(),
        1000,
        nonce,
        Ok(vec![0x77; 65]),
        Err(String::from("the chain refused")),
    )
    .expect("a failed send still settles");
    let signed = match status {
        Erc20MintStatus::Signed(signed) => signed,
        _ => panic!("a failed send reports Signed"),
    };
    assert_eq!(signed.order.amount, 990);
    // The account nonce did not move.
    assert_eq!(state.evm_params.as_ref().unwrap().nonce, 41);
    // The order stays retrievable under (sender, source token, nonce).
    let sender = Id256::from_evm_address(&recipient(), state.btc_chain_id);
    let got = state
        .mint_orders
        .get(&sender, &state.src_token.clone(), nonce)
        .expect("the signed order is stored");
    assert_eq!(got.order.amount, 990);
    assert_eq!(got.order.nonce, nonce);
}

#[test]
fn deposit_below_fee_is_too_small() {
    let mut state = fresh_state(100);
    state.evm_params = Some(params());
    let r = mint_erc20(
        &mut state,
        recipient(),
        99,
        0,
        Ok(vec![0x77; 65]),
        Ok(H256 { bytes: [0; 32] }),
    );
    assert!(matches!(r, Err(BridgeError::ValueTooSmall(_))));
}

#[test]
fn deposit_signing_failure_stores_nothing() {
    let mut state = fresh_state(10);
    state.evm_params = Some(params());
    let r = mint_erc20(
        &mut state,
        recipient(),
        1000,
        0,
        Err(String::from("signer down")),
        Ok(H256 { bytes: [0; 32] }),
    );
    assert!(matches!(r, Err(BridgeError::SigningFailed(_))));
    let sender = Id256::from_evm_address(&recipient(), state.btc_chain_id);
    assert!(state.mint_orders.get(&sender, &state.src_token.clone(), 0).is_none());
}

#[test]
fn send_without_bootstrap_is_not_initialized() {
    let mut state = fresh_state(10);
    let r = send_mint_order(&mut state, Ok(H256 { bytes: [0; 32] }));
    assert!(matches!(r, Err(BridgeError::NotInitialized(_))));
}

#[test]
fn sequential_deposits_never_collide_on_nonce() {
    let mut state = fresh_state(10);
    state.evm_params = Some(params());
    let first = state.next_nonce();
    let second = state.next_nonce();
    assert_eq!(second, first + 1);
}

#[test]
fn failed_broadcast_releases_reserved_utxos() {
    // A withdrawal reserves two UTXOs, the broadcast fails, both are
    // released, and a second attempt may select them again.
    let mut state = fresh_state(10);
    let utxos = vec![
        Utxo { outpoint: Outpoint { txid: vec![1; 32], vout: 0 }, value: 600, height: 1 },
        Utxo { outpoint: Outpoint { txid: vec![2; 32], vout: 1 }, value: 700, height: 1 },
    ];
    state.ledger.deposit(&utxos, &vec![0x51], &Vec::new());

    let (keys, inputs) =
        withdraw_begin(&mut state, 1000, 100, String::from("bc1qchange"), 5)
            .expect("the two UTXOs cover the target");
    assert_eq!(keys.len(), 2);
    assert_eq!(inputs[0].value, 600);
    assert_eq!(inputs[1].value, 700);
    assert!(state.ledger.is_reserved(&keys[0]));
    assert!(state.ledger.is_reserved(&keys[1]));

    let r = withdraw_complete(&mut state, 3, &keys, false);
    assert!(matches!(r, Err(BridgeError::ChainSendFailed(_))));
    assert!(!state.ledger.is_reserved(&keys[0]));
    assert!(!state.ledger.is_reserved(&keys[1]));

    // The same UTXOs are selectable again.
    let (keys2, _) = withdraw_begin(&mut state, 1000, 100, String::from("bc1qchange"), 9)
        .expect("the released UTXOs cover the target again");
    assert_eq!(keys2.len(), 2);
}

#[test]
fn successful_broadcast_finalizes_spent_utxos() {
    let mut state = fresh_state(10);
    let utxos = vec![
        Utxo { outpoint: Outpoint { txid: vec![1; 32], vout: 0 }, value: 600, height: 1 },
        Utxo { outpoint: Outpoint { txid: vec![2; 32], vout: 1 }, value: 700, height: 1 },
    ];
    state.ledger.deposit(&utxos, &vec![0x51], &Vec::new());
    state.burn_requests.insert(3, String::from("bc1qdest"), String::from("ref"));

    let (keys, _) = withdraw_begin(&mut state, 1100, 100, String::from("bc1qchange"), 5)
        .expect("covered");
    withdraw_complete(&mut state, 3, &keys, true).expect("a sent withdrawal settles");

    let (left, _) = state.ledger.load_all();
    assert!(left.is_empty());
    assert!(state.ledger.load_used_utxos().is_empty());
    assert!(!state.burn_requests.is_transferred(3));
}

#[test]
fn withdrawal_without_cover_is_refused() {
    let mut state = fresh_state(10);
    let utxos = vec![Utxo {
        outpoint: Outpoint { txid: vec![1; 32], vout: 0 },
        value: 50,
        height: 1,
    }];
    state.ledger.deposit(&utxos, &vec![0x51], &Vec::new());
    let r = withdraw_begin(&mut state, 1000, 100, String::from("bc1qchange"), 5);
    assert!(matches!(r, Err(BridgeError::UtxoUnavailable(_))));
    // Nothing was reserved by the failed attempt.
    assert!(state.ledger.load_used_utxos().is_empty());
}

#[test]
fn selection_skips_reserved_utxos() {
    let mut state = fresh_state(10);
    let utxos = vec![
        Utxo { outpoint: Outpoint { txid: vec![1; 32], vout: 0 }, value: 600, height: 1 },
        Utxo { outpoint: Outpoint { txid: vec![2; 32], vout: 1 }, value: 700, height: 1 },
    ];
    state.ledger.deposit(&utxos, &vec![0x51], &Vec::new());
    let (keys, _) = withdraw_begin(&mut state, 500, 50, String::from("a"), 1).expect("covered");
    assert_eq!(keys.len(), 1);
    // The first UTXO is reserved now, so only the second can cover more.
    let r = withdraw_begin(&mut state, 600, 50, String::from("a"), 2);
    let (keys2, inputs2) = r.expect("the unreserved UTXO covers the target");
    assert_eq!(keys2.len(), 1);
    assert_eq!(inputs2[0].value, 700);
}

#[test]
fn withdraw_brc20_paths() {
    let mut state = fresh_state(10);
    let iid = String::from("abcdi0");
    let r = withdraw_brc20(&mut state, 4, &iid, true);
    match r {
        Err(BridgeError::NotFound(message)) => {
            // The error names the inscription id it could not find.
            assert_eq!(message, format!("inscription id not found: {}", iid));
        },
        _ => panic!("an unknown inscription id is NotFound"),
    }

    state.inscriptions.write(iid.clone(), vec![1, 2, 3]);
    state.burn_requests.insert(4, String::from("addr"), String::from("ref"));
    let r = withdraw_brc20(&mut state, 4, &iid, false);
    assert!(matches!(r, Err(BridgeError::ChainSendFailed(_))));
    assert!(state.inscriptions.has(&iid));

    withdraw_brc20(&mut state, 4, &iid, true).expect("a transferred withdrawal settles");
    assert!(!state.inscriptions.has(&iid));
    assert!(!state.burn_requests.is_transferred(4));
}

#[test]
fn rune_id_round_trip() {
    let mut bytes = [0u8; 32];
    bytes[0] = 2;
    bytes[7] = 1;
    bytes[8] = 0x2c;
    bytes[12] = 9;
    let (block, tx) = decode_rune_id(&Id256 { bytes }).expect("a well-formed rune id");
    assert_eq!(block, 0x12c);
    assert_eq!(tx, 9);
    // A wrong mark or dirty padding is rejected.
    let mut wrong = bytes;
    wrong[0] = 1;
    assert!(decode_rune_id(&Id256 { bytes: wrong }).is_none());
    let mut dirty = bytes;
    dirty[20] = 1;
    assert!(decode_rune_id(&Id256 { bytes: dirty }).is_none());
}

#[test]
fn burnt_event_decoding() {
    let mut token = [0u8; 32];
    token[0] = 2;
    token[8] = 5;
    token[12] = 1;
    let event = BurntEventData {
        operation_id: 1,
        amount: 4242,
        recipient_id: b"1Q9ioXoxA7xMCHxsMz8z8MMn99kogyo3FS".to_vec(),
        to_token: token.to_vec(),
    };
    let req = decode_withdrawal_request(&event, Network::Bitcoin)
        .expect("a well-formed burnt event decodes");
    assert_eq!(req.amount, 4242);
    assert_eq!(req.address, String::from("1Q9ioXoxA7xMCHxsMz8z8MMn99kogyo3FS"));
    assert_eq!(req.rune_block, 5);
    assert_eq!(req.rune_tx, 1);

    // Recipient bytes that are not text are a malformed address.
    let bad_utf8 = BurntEventData {
        operation_id: 1,
        amount: 1,
        recipient_id: vec![0xff, 0xfe],
        to_token: token.to_vec(),
    };
    assert!(matches!(
        decode_withdrawal_request(&bad_utf8, Network::Bitcoin),
        Err(BridgeError::MalformedAddress(_))
    ));

    // A mainnet address is not valid on the test network.
    assert!(matches!(
        decode_withdrawal_request(&event, Network::Testnet),
        Err(BridgeError::MalformedAddress(_))
    ));

    // A token field that is not thirty-two bytes fails the task.
    let short_token = BurntEventData {
        operation_id: 1,
        amount: 1,
        recipient_id: b"1Q9ioXoxA7xMCHxsMz8z8MMn99kogyo3FS".to_vec(),
        to_token: vec![2, 0, 0],
    };
    assert!(matches!(
        decode_withdrawal_request(&short_token, Network::Bitcoin),
        Err(BridgeError::TaskExecutionFailed(_))
    ));
}

#[test]
fn deposit_flow_with_inscriptions() {
    let mut state = fresh_state(10);
    state.evm_params = Some(params());

    // An empty batch of validated inscriptions is rejected.
    let r = btc_bridge::ops::brc20_to_erc20(
        &mut state,
        recipient(),
        &Vec::new(),
        1000,
        b"ordi".to_vec(),
        Ok(vec![0x77; 65]),
        Ok(H256 { bytes: [0xcc; 32] }),
    );
    assert!(matches!(r, Err(BridgeError::InvalidInscription(_))));

    // A non-empty batch is persisted, the symbol is taken from the
    // inscription, and the deposit mints at the allocated nonce.
    let inscriptions = vec![(String::from("insc-one"), vec![1u8, 2, 3])];
    let status = btc_bridge::ops::brc20_to_erc20(
        &mut state,
        recipient(),
        &inscriptions,
        1000,
        b"ordi".to_vec(),
        Ok(vec![0x77; 65]),
        Ok(H256 { bytes: [0xcc; 32] }),
    )
    .expect("the deposit settles");
    assert!(matches!(status, Erc20MintStatus::Minted { amount: 990, .. }));
    assert!(state.inscriptions.has(&String::from("insc-one")));
    assert_eq!(state.inscriptions.read(&String::from("insc-one")), Some(vec![1, 2, 3]));
    assert_eq!(state.token_symbol, b"ordi".to_vec());
    assert_eq!(state.nonce_counter, 1);
}

#[test]
fn admin_gate_on_reconfiguration() {
    let mut state = fresh_state(10);
    let config = btc_bridge::state::BftBridgeConfig {
        bridge_address: H160 { bytes: [1; 20] },
        token_address: H160 { bytes: [2; 20] },
    };
    assert!(!state.admin_configure_bft_bridge(&vec![1, 2, 3], config));
    assert!(state.bft_config.is_none());
    assert!(state.admin_configure_bft_bridge(&vec![0xad; 29], config));
    assert!(state.bft_config.is_some());
}
