use btc_bridge::orders::{
    BurnRequestStore, MintOrder, MintOrdersStore, SignedMintOrder,
};
use btc_bridge::types::{H160, Id256};

fn id(tag: u8) -> Id256 {
    Id256 { bytes: [tag; 32] }
}

fn order(src_token: Id256, nonce: u32, amount: u128) -> SignedMintOrder {
    SignedMintOrder {
        order: MintOrder {
            amount,
            sender: id(1),
            src_token,
            recipient: H160 { bytes: [3; 20] },
            dst_token: H160::zero(),
            nonce,
            sender_chain_id: 7,
            recipient_chain_id: 355113,
            name: b"wrapped".to_vec(),
            symbol: b"WRP".to_vec(),
            decimals: 8,
            approve_spender: H160::zero(),
            approve_amount: 0,
            fee_payer: H160::zero(),
        },
        signature: vec![0xaa; 65],
    }
}

#[test]
fn push_then_get_returns_the_order() {
    let mut store = MintOrdersStore::new();
    let sender = id(1);
    let token = id(2);
    store.push(sender, 4, order(token, 4, 990));
    let got = store.get(&sender, &token, 4).expect("the stored order");
    assert_eq!(got.order.amount, 990);
    assert_eq!(got.order.nonce, 4);
    assert_eq!(got.signature, vec![0xaa; 65]);
}

#[test]
fn get_with_wrong_token_or_nonce_is_absent() {
    let mut store = MintOrdersStore::new();
    let sender = id(1);
    let token = id(2);
    store.push(sender, 4, order(token, 4, 990));
    assert!(store.get(&sender, &id(9), 4).is_none());
    assert!(store.get(&sender, &token, 5).is_none());
    assert!(store.get(&id(8), &token, 4).is_none());
}

#[test]
fn remove_makes_the_order_absent() {
    let mut store = MintOrdersStore::new();
    let sender = id(1);
    let token = id(2);
    store.push(sender, 4, order(token, 4, 990));
    store.remove(sender, 4);
    assert!(store.get(&sender, &token, 4).is_none());
}

#[test]
fn get_all_is_ordered_by_ascending_nonce() {
    let mut store = MintOrdersStore::new();
    let sender = id(1);
    let token = id(2);
    store.push(sender, 5, order(token, 5, 50));
    store.push(sender, 1, order(token, 1, 10));
    store.push(sender, 3, order(token, 3, 30));
    // Another sender and another token must not appear.
    store.push(id(8), 2, order(token, 2, 20));
    store.push(sender, 4, order(id(9), 4, 40));

    let all = store.get_all(&sender, &token);
    let nonces: Vec<u32> = all.iter().map(|e| e.0).collect();
    assert_eq!(nonces, vec![1, 3, 5]);
    let amounts: Vec<u128> = all.iter().map(|e| e.1.order.amount).collect();
    assert_eq!(amounts, vec![10, 30, 50]);
}

#[test]
fn burn_requests_track_transfer_state() {
    let mut store = BurnRequestStore::new();
    store.insert(7, String::from("bc1qdest"), String::from("reveal"));
    assert!(!store.is_transferred(7));
    store.set_transferred(7);
    assert!(store.is_transferred(7));
    store.remove(7);
    assert!(!store.is_transferred(7));
}

#[test]
fn burn_request_operations_on_absent_ids_do_nothing() {
    let mut store = BurnRequestStore::new();
    store.set_transferred(3);
    assert!(!store.is_transferred(3));
    store.remove(3);
    assert!(!store.is_transferred(3));
}
