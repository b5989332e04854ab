use btc_bridge::hexstr::{decode_hex, hex_val};
use btc_bridge::ledger::{Outpoint, Utxo};
use btc_bridge::rpc::{
    find_inscription, find_inscription_utxo, is_valid_btc_address, network_as_str,
    try_to_transaction, InscriptionResponse, TxInfo, Vin, Vout,
};
use btc_bridge::types::{BridgeError, Id256, Network};
use btc_bridge::wallet::{
    ecdsa_key_name, fee_per_byte, BitcoinNetwork, CanisterWallet,
};

#[test]
fn hex_encoding_is_two_lowercase_digits_per_byte() {
    let key = btc_bridge::ledger::UtxoKey { tx_id: [0xde; 32], vout: 0 };
    assert_eq!(key.display_txid(), "de".repeat(32));
    let mut mixed = [0u8; 32];
    mixed[0] = 0x01;
    mixed[1] = 0xa2;
    let key = btc_bridge::ledger::UtxoKey { tx_id: mixed, vout: 0 };
    let text = key.display_txid();
    assert!(text.starts_with("01a2"));
    assert_eq!(text.len(), 64);
}

#[test]
fn hex_decoding_round_trips_and_rejects() {
    assert_eq!(decode_hex(b"01023f"), Some(vec![0x01, 0x02, 0x3f]));
    assert_eq!(decode_hex(b"DEADbeef"), Some(vec![0xde, 0xad, 0xbe, 0xef]));
    assert_eq!(decode_hex(b"abc"), None);
    assert_eq!(decode_hex(b"zz"), None);
    // The display of a key decodes back to its transaction id bytes.
    let key = btc_bridge::ledger::UtxoKey { tx_id: [0x7b; 32], vout: 0 };
    let text = key.display_txid();
    assert_eq!(decode_hex(text.as_bytes()), Some(vec![0x7b; 32]));
}

#[test]
fn hex_digit_values() {
    assert_eq!(hex_val(b'0'), Some(0));
    assert_eq!(hex_val(b'9'), Some(9));
    assert_eq!(hex_val(b'a'), Some(10));
    assert_eq!(hex_val(b'F'), Some(15));
    assert_eq!(hex_val(b'g'), None);
}

#[test]
fn address_validation_by_network() {
    let mainnet = "1Q9ioXoxA7xMCHxsMz8z8MMn99kogyo3FS";
    assert!(matches!(is_valid_btc_address(mainnet, Network::Bitcoin), Ok(true)));
    assert!(matches!(
        is_valid_btc_address(mainnet, Network::Testnet),
        Err(BridgeError::MalformedAddress(_))
    ));
    assert!(matches!(
        is_valid_btc_address("not an address", Network::Bitcoin),
        Err(BridgeError::MalformedAddress(_))
    ));
}

#[test]
fn network_path_fragments() {
    assert_eq!(network_as_str(Network::Bitcoin), "");
    assert_eq!(network_as_str(Network::Testnet), "/testnet");
    assert_eq!(network_as_str(Network::Signet), "/signet");
    assert_eq!(network_as_str(Network::Regtest), "/regtest");
}

#[test]
fn inscription_lookup_finds_the_first_match() {
    let results = vec![
        InscriptionResponse {
            id: String::from("aaa"),
            tx_id: String::from("t1"),
            output: String::from("o1"),
            address: String::from("x1"),
        },
        InscriptionResponse {
            id: String::from("bbb"),
            tx_id: String::from("t2"),
            output: String::from("o2"),
            address: String::from("x2"),
        },
    ];
    assert_eq!(find_inscription(&results, &String::from("bbb")), Some(1));
    assert_eq!(find_inscription(&results, &String::from("ccc")), None);
}

#[test]
fn inscription_utxo_lookup_matches_txid_bytes() {
    let utxos = vec![
        Utxo { outpoint: Outpoint { txid: vec![1; 32], vout: 0 }, value: 1, height: 0 },
        Utxo { outpoint: Outpoint { txid: vec![2; 32], vout: 0 }, value: 2, height: 0 },
    ];
    assert_eq!(find_inscription_utxo(&utxos, &vec![2; 32]), Some(1));
    assert_eq!(find_inscription_utxo(&utxos, &vec![3; 32]), None);
}

#[test]
fn transaction_rebuild_decodes_every_hex_field() {
    let txid_hex: Vec<u8> = b"11".repeat(32);
    let info = TxInfo {
        version: 2,
        locktime: 0,
        vin: vec![Vin {
            txid: txid_hex,
            vout: 1,
            sequence: 0xfffffffd,
            witness: vec![b"0102".to_vec(), b"ff".to_vec()],
            prevout_scriptpubkey: b"51".to_vec(),
        }],
        vout: vec![Vout { scriptpubkey: b"00145f".to_vec(), value: 5000 }],
    };
    let tx = try_to_transaction(&info).expect("a well-formed description rebuilds");
    assert_eq!(tx.version, 2);
    assert_eq!(tx.input.len(), 1);
    assert_eq!(tx.input[0].previous_output.txid, vec![0x11; 32]);
    assert_eq!(tx.input[0].previous_output.vout, 1);
    assert_eq!(tx.input[0].script_sig, vec![0x51]);
    assert_eq!(tx.input[0].witness, vec![vec![0x01, 0x02], vec![0xff]]);
    assert_eq!(tx.output[0].value, 5000);
    assert_eq!(tx.output[0].script_pubkey, vec![0x00, 0x14, 0x5f]);
}

#[test]
fn transaction_rebuild_rejects_bad_hex() {
    let info = TxInfo {
        version: 2,
        locktime: 0,
        vin: vec![Vin {
            txid: b"zz".to_vec(),
            vout: 0,
            sequence: 0,
            witness: Vec::new(),
            prevout_scriptpubkey: b"51".to_vec(),
        }],
        vout: Vec::new(),
    };
    assert!(matches!(
        try_to_transaction(&info),
        Err(BridgeError::InvalidInscription(_))
    ));
    // A transaction id of the wrong width is rejected too.
    let short = TxInfo {
        version: 2,
        locktime: 0,
        vin: vec![Vin {
            txid: b"1122".to_vec(),
            vout: 0,
            sequence: 0,
            witness: Vec::new(),
            prevout_scriptpubkey: b"51".to_vec(),
        }],
        vout: Vec::new(),
    };
    assert!(matches!(
        try_to_transaction(&short),
        Err(BridgeError::InvalidInscription(_))
    ));
}

#[test]
fn wallet_network_mapping_and_keys() {
    assert_eq!(CanisterWallet::map_network(BitcoinNetwork::Mainnet), Network::Bitcoin);
    assert_eq!(CanisterWallet::map_network(BitcoinNetwork::Testnet), Network::Testnet);
    assert_eq!(CanisterWallet::map_network(BitcoinNetwork::Regtest), Network::Regtest);
    assert_eq!(ecdsa_key_name(BitcoinNetwork::Regtest), String::from("dfx_test_key"));
    assert_eq!(ecdsa_key_name(BitcoinNetwork::Mainnet), String::from("test_key_1"));
}

#[test]
fn commit_inputs_carry_the_total_value() {
    let wallet = CanisterWallet::new(vec![vec![1]], BitcoinNetwork::Regtest);
    let utxos = vec![
        Utxo { outpoint: Outpoint { txid: vec![1; 32], vout: 0 }, value: 100, height: 0 },
        Utxo { outpoint: Outpoint { txid: vec![2; 32], vout: 3 }, value: 250, height: 0 },
    ];
    let inputs = wallet.build_commit_transaction_inputs(&utxos);
    assert_eq!(inputs.len(), 2);
    assert_eq!(inputs[0].id, vec![1; 32]);
    assert_eq!(inputs[0].index, 0);
    assert_eq!(inputs[0].amount, 350);
    assert_eq!(inputs[1].amount, 350);
}

#[test]
fn fee_rate_selection() {
    assert_eq!(fee_per_byte(&Vec::new()), 2000);
    let mut percentiles: Vec<u64> = (0..100).collect();
    percentiles[90] = 777;
    assert_eq!(fee_per_byte(&percentiles), 777);
}

#[test]
fn id256_encodes_an_evm_address_with_its_chain() {
    let addr = btc_bridge::types::H160 { bytes: [0x42; 20] };
    let id = Id256::from_evm_address(&addr, 0x01020304);
    assert_eq!(id.bytes[0], 1);
    assert_eq!(&id.bytes[1..5], &[1, 2, 3, 4]);
    assert_eq!(&id.bytes[5..25], &[0x42; 20]);
    assert_eq!(&id.bytes[25..32], &[0; 7]);
    assert_eq!(Id256::from_slice(&id.bytes), Some(id));
    assert_eq!(Id256::from_slice(&[1, 2, 3]), None);
}

#[test]
fn key_serialization() {
    let key = btc_bridge::ledger::UtxoKey { tx_id: [123; 32], vout: 544331 };
    let serialized = key.to_bytes();
    assert_eq!(serialized.len(), btc_bridge::codec::UTXO_KEY_SIZE);
    let deserialized = btc_bridge::ledger::UtxoKey::from_bytes(&serialized)
        .expect("an encoded key reads back");
    assert_eq!(deserialized, key);
    assert!(btc_bridge::ledger::UtxoKey::from_bytes(&serialized[1..]).is_none());
}

#[test]
fn value_serialization() {
    let value = btc_bridge::ledger::UtxoDetails {
        value: 100500,
        script_buf: vec![0x51; 25],
        derivation_path: vec![vec![1, 2, 3], vec![4]],
    };
    let serialized = value.to_bytes();
    assert!(serialized.len() <= btc_bridge::codec::UTXO_DETAILS_BOUND);
    // value (8) + script length byte + script + path count byte +
    // per-element length bytes + elements.
    assert_eq!(serialized.len(), 8 + 1 + 25 + 1 + (1 + 3) + (1 + 1));
    assert_eq!(&serialized[0..8], &[0, 0, 0, 0, 0, 1, 0x88, 0x94]);
    assert_eq!(serialized[8], 25);
}

#[test]
fn reservation_serialization() {
    let record = btc_bridge::ledger::UsedUtxoDetails {
        used_at: 7,
        owner_address: String::from("bc1qowner"),
    };
    let serialized = record.to_bytes();
    assert_eq!(&serialized[0..8], &[0, 0, 0, 0, 0, 0, 0, 7]);
    assert!(serialized.len() <= 8 + 1 + 4 * 42);
}

#[test]
fn key_display_is_the_hex_of_its_txid() {
    let key = btc_bridge::ledger::UtxoKey { tx_id: [0xab; 32], vout: 1 };
    assert_eq!(key.display_txid(), "ab".repeat(32));
}

#[test]
fn key_display_is_hex_colon_decimal() {
    let key = btc_bridge::ledger::UtxoKey { tx_id: [0xab; 32], vout: 544331 };
    let expected = format!("{}:{}", "ab".repeat(32), 544331);
    assert_eq!(key.display_string(), expected);
    assert_eq!(btc_bridge::codec::u32_to_decimal(0), "0");
    assert_eq!(btc_bridge::codec::u32_to_decimal(10), "10");
    assert_eq!(btc_bridge::codec::u32_to_decimal(4294967295), "4294967295");
}

#[test]
fn value_round_trip() {
    let value = btc_bridge::ledger::UtxoDetails {
        value: 100500,
        script_buf: vec![0x51; 25],
        derivation_path: vec![vec![1, 2, 3], vec![4]],
    };
    let serialized = value.to_bytes();
    let read = btc_bridge::ledger::UtxoDetails::from_bytes(&serialized)
        .expect("an encoded record reads back");
    assert_eq!(read.value, value.value);
    assert_eq!(read.script_buf, value.script_buf);
    assert_eq!(read.derivation_path, value.derivation_path);
    // Trailing garbage and truncations are rejected.
    let mut longer = serialized.clone();
    longer.push(0);
    assert!(btc_bridge::ledger::UtxoDetails::from_bytes(&longer).is_none());
    assert!(btc_bridge::ledger::UtxoDetails::from_bytes(&serialized[..serialized.len() - 1])
        .is_none());
}
