use btc_bridge::ledger::{Outpoint, Utxo, UtxoKey, UtxoLedger};

fn utxo(tag: u8, vout: u32, value: u64) -> Utxo {
    Utxo { outpoint: Outpoint { txid: vec![tag; 32], vout }, value, height: 1 }
}

fn key(tag: u8, vout: u32) -> UtxoKey {
    UtxoKey { tx_id: [tag; 32], vout }
}

#[test]
fn load_all_returns_exactly_the_deposited_set() {
    let mut ledger = UtxoLedger::new();
    let script = vec![0x51u8];
    let path = vec![vec![1u8, 2u8]];
    ledger.deposit(&vec![utxo(1, 0, 1_000), utxo(2, 7, 2_000)], &script, &path);

    let (keys, infos) = ledger.load_all();
    assert_eq!(keys.len(), 2);
    assert_eq!(infos.len(), 2);
    assert_eq!(keys[0], key(1, 0));
    assert_eq!(keys[1], key(2, 7));
    assert_eq!(infos[0].value, 1_000);
    assert_eq!(infos[1].value, 2_000);
    assert_eq!(infos[0].script_pubkey, script);
    assert_eq!(infos[0].derivation_path, path);
    assert_eq!(infos[1].outpoint.txid, vec![2u8; 32]);
    assert_eq!(infos[1].outpoint.vout, 7);
}

#[test]
fn redeposit_overwrites_the_record() {
    let mut ledger = UtxoLedger::new();
    let path: Vec<Vec<u8>> = Vec::new();
    ledger.deposit(&vec![utxo(1, 0, 1_000)], &vec![0x51u8], &path);
    ledger.deposit(&vec![utxo(1, 0, 3_000)], &vec![0x52u8], &path);
    let (keys, infos) = ledger.load_all();
    assert_eq!(keys.len(), 1);
    assert_eq!(infos[0].value, 3_000);
    assert_eq!(infos[0].script_pubkey, vec![0x52u8]);
}

#[test]
fn reservation_keeps_the_spendable_set() {
    let mut ledger = UtxoLedger::new();
    ledger.deposit(&vec![utxo(1, 0, 500), utxo(2, 1, 700)], &vec![0x51u8], &Vec::new());
    assert!(ledger.mark_as_used(key(1, 0), String::from("bc1qspender"), 99));
    // The reserved UTXO is still listed as a spendable candidate.
    let (keys, _) = ledger.load_all();
    assert_eq!(keys.len(), 2);
    let used = ledger.load_used_utxos();
    assert_eq!(used.len(), 1);
    assert_eq!(used[0].0, key(1, 0));
    assert_eq!(used[0].1.used_at, 99);
    assert_eq!(used[0].1.owner_address, String::from("bc1qspender"));
}

#[test]
fn reserve_then_release_restores_the_ledger() {
    let mut ledger = UtxoLedger::new();
    ledger.deposit(&vec![utxo(1, 0, 500), utxo(2, 1, 700)], &vec![0x51u8], &Vec::new());
    let (keys_before, infos_before) = ledger.load_all();

    assert!(ledger.mark_as_used(key(2, 1), String::from("addr"), 5));
    assert!(ledger.is_reserved(&key(2, 1)));
    ledger.remove_unspent_utxo(&key(2, 1));

    let (keys_after, infos_after) = ledger.load_all();
    assert_eq!(keys_before, keys_after);
    assert_eq!(infos_before.len(), infos_after.len());
    for i in 0..infos_before.len() {
        assert_eq!(infos_before[i].value, infos_after[i].value);
        assert_eq!(infos_before[i].script_pubkey, infos_after[i].script_pubkey);
    }
    assert!(!ledger.is_reserved(&key(2, 1)));
    assert!(ledger.load_used_utxos().is_empty());
}

#[test]
fn reserve_then_finalize_removes_the_key_for_good() {
    let mut ledger = UtxoLedger::new();
    ledger.deposit(&vec![utxo(1, 0, 500), utxo(2, 1, 700)], &vec![0x51u8], &Vec::new());
    assert!(ledger.mark_as_used(key(1, 0), String::from("addr"), 5));
    ledger.remove_spent_utxo(&key(1, 0));

    let (keys, _) = ledger.load_all();
    assert_eq!(keys, vec![key(2, 1)]);
    assert!(!ledger.is_reserved(&key(1, 0)));
    // Reserving the spent key again fails: there is no record to reserve.
    assert!(!ledger.mark_as_used(key(1, 0), String::from("addr"), 6));
    assert!(ledger.load_used_utxos().is_empty());
}

#[test]
fn reserving_an_unknown_key_is_refused() {
    let mut ledger = UtxoLedger::new();
    assert!(!ledger.mark_as_used(key(9, 9), String::from("addr"), 1));
    assert!(ledger.load_used_utxos().is_empty());
}
