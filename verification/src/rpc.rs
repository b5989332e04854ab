//! What the bridge does with indexer answers: pick the matching
//! inscription, locate the inscription's UTXO, rebuild the reveal
//! transaction from its JSON description, and validate addresses.
//! The HTTP fetching and JSON framing live in the host; the checks and
//! conversions live here.

use vstd::prelude::*;

use crate::hexstr::{decode_hex, spec_hex_decode, spec_is_hex_text};
use crate::ledger::{Outpoint, Utxo};
use crate::types::{bytes_eq, network_code, BridgeError, Network};

verus! {

/// Whether the string parses as a Bitcoin address usable on the given
/// network; what the bitcoin crate's parser and network check decide.
pub uninterp spec fn spec_addr_valid(s: Seq<char>, network: int) -> bool;

/// Relies on bitcoin::Address::from_str together with
/// bitcoin::Address::<NetworkUnchecked>::is_valid_for_network: the first
/// parses the string, the second accepts the parsed address for the
/// given network; both depend only on the string and the network.
#[verifier::external_body]
fn check_btc_address(addr: &str, network: &Network) -> (r: bool)
    ensures
        r == spec_addr_valid(addr@, network_code(*network)),
{
    let net = match network {
        Network::Bitcoin => bitcoin::Network::Bitcoin,
        Network::Testnet => bitcoin::Network::Testnet,
        Network::Signet => bitcoin::Network::Signet,
        Network::Regtest => bitcoin::Network::Regtest,
    };
    match <bitcoin::Address<bitcoin::address::NetworkUnchecked> as core::str::FromStr>::from_str(
        addr,
    ) {
        Ok(a) => a.is_valid_for_network(net),
        Err(_) => false,
    }
}

/// Accepts a well-formed address of the given network and rejects any
/// other string as malformed.
pub fn is_valid_btc_address(addr: &str, network: Network) -> (r: Result<bool, BridgeError>)
    ensures
        spec_addr_valid(addr@, network_code(network)) ==> (r matches Ok(b) && b),
        !spec_addr_valid(addr@, network_code(network)) ==> (r matches Err(
            BridgeError::MalformedAddress(m),
        ) && m@ == addr@),
{
    if check_btc_address(addr, &network) {
        Ok(true)
    } else {
        Err(BridgeError::MalformedAddress(addr.to_owned()))
    }
}

/// What String::from_utf8 answers on these bytes: the decoded text where
/// the bytes are valid UTF-8, nothing otherwise.
pub uninterp spec fn spec_utf8_decode(bytes: Seq<u8>) -> Option<Seq<char>>;

/// Relies on String::from_utf8: it succeeds exactly on valid UTF-8 and
/// the decoded text depends on the bytes alone.
#[verifier::external_body]
pub(crate) fn string_from_utf8(bytes: Vec<u8>) -> (r: Option<String>)
    ensures
        r is Some == spec_utf8_decode(bytes@) is Some,
        r matches Some(s) ==> spec_utf8_decode(bytes@) == Some(s@),
{
    String::from_utf8(bytes).ok()
}

/// The URL path fragment of each network on the indexer.
pub fn network_as_str(network: Network) -> (r: &'static str)
    ensures
        network == Network::Testnet ==> r@ == "/testnet"@,
        network == Network::Regtest ==> r@ == "/regtest"@,
        network == Network::Signet ==> r@ == "/signet"@,
        network == Network::Bitcoin ==> r@ == ""@,
{
    match network {
        Network::Testnet => "/testnet",
        Network::Regtest => "/regtest",
        Network::Signet => "/signet",
        Network::Bitcoin => "",
    }
}

/// One inscription as the indexer lists it.
#[derive(Debug)]
pub struct InscriptionResponse {
    pub id: String,
    pub tx_id: String,
    pub output: String,
    pub address: String,
}

/// Picks the inscription whose id matches, if the indexer returned one:
/// the first match, with its position.
pub fn find_inscription(results: &Vec<InscriptionResponse>, id: &String) -> (r: Option<usize>)
    ensures
        match r {
            Some(i) => i < results@.len() && results@[i as int].id@ == id@ && forall|k: int|
                0 <= k < i ==> (#[trigger] results@[k]).id@ != id@,
            None => forall|k: int| 0 <= k < results@.len() ==> (#[trigger] results@[k]).id@
                != id@,
        },
{
    let n = results.len();
    let mut i: usize = 0;
    while i < n
        invariant
            0 <= i <= n,
            n == results@.len(),
            forall|k: int| 0 <= k < i ==> (#[trigger] results@[k]).id@ != id@,
        decreases n - i,
    {
        if results[i].id == *id {
            return Some(i);
        }
        i = i + 1;
    }
    None
}

/// Picks the UTXO whose transaction id bytes equal the given reference,
/// if the chain returned one: the first match, with its position.
pub fn find_inscription_utxo(utxos: &Vec<Utxo>, txid: &Vec<u8>) -> (r: Option<usize>)
    ensures
        match r {
            Some(i) => i < utxos@.len() && utxos@[i as int].outpoint.txid@ == txid@ && forall|
                k: int,
            | 0 <= k < i ==> (#[trigger] utxos@[k]).outpoint.txid@ != txid@,
            None => forall|k: int|
                0 <= k < utxos@.len() ==> (#[trigger] utxos@[k]).outpoint.txid@ != txid@,
        },
{
    let n = utxos.len();
    let mut i: usize = 0;
    while i < n
        invariant
            0 <= i <= n,
            n == utxos@.len(),
            forall|k: int| 0 <= k < i ==> (#[trigger] utxos@[k]).outpoint.txid@ != txid@,
        decreases n - i,
    {
        if bytes_eq(utxos[i].outpoint.txid.as_slice(), txid.as_slice()) {
            return Some(i);
        }
        i = i + 1;
    }
    None
}

/// A transaction input as the indexer describes it; hex fields carry the
/// ASCII text the JSON held.
#[derive(Debug)]
pub struct Vin {
    pub txid: Vec<u8>,
    pub vout: u32,
    pub sequence: u32,
    pub witness: Vec<Vec<u8>>,
    pub prevout_scriptpubkey: Vec<u8>,
}

/// A transaction output as the indexer describes it.
#[derive(Debug)]
pub struct Vout {
    pub scriptpubkey: Vec<u8>,
    pub value: u64,
}

/// A transaction as the indexer describes it.
#[derive(Debug)]
pub struct TxInfo {
    pub version: i32,
    pub locktime: u32,
    pub vin: Vec<Vin>,
    pub vout: Vec<Vout>,
}

/// One input of the rebuilt transaction: decoded bytes, not hex text.
#[derive(Debug)]
pub struct TxIn {
    pub previous_output: Outpoint,
    pub script_sig: Vec<u8>,
    pub sequence: u32,
    pub witness: Vec<Vec<u8>>,
}

/// One output of the rebuilt transaction.
#[derive(Debug)]
pub struct TxOut {
    pub value: u64,
    pub script_pubkey: Vec<u8>,
}

/// The reveal transaction, rebuilt from the indexer's description.
#[derive(Debug)]
pub struct Transaction {
    pub version: i32,
    pub lock_time: u32,
    pub input: Vec<TxIn>,
    pub output: Vec<TxOut>,
}

/// Whether one described input is well-formed: its transaction id is hex
/// text of thirty-two bytes and every hex field decodes.
pub open spec fn spec_vin_ok(v: Vin) -> bool {
    &&& spec_is_hex_text(v.txid@)
    &&& spec_hex_decode(v.txid@).len() == 32
    &&& spec_is_hex_text(v.prevout_scriptpubkey@)
    &&& forall|w: int| 0 <= w < v.witness@.len() ==> spec_is_hex_text(
        (#[trigger] v.witness@[w])@,
    )
}

/// Whether a described transaction is well-formed: every hex field of
/// every input and output decodes, and input transaction ids are
/// thirty-two bytes long.
pub open spec fn spec_tx_info_ok(info: TxInfo) -> bool {
    &&& forall|i: int| 0 <= i < info.vin@.len() ==> spec_vin_ok(#[trigger] info.vin@[i])
    &&& forall|o: int| 0 <= o < info.vout@.len() ==> spec_is_hex_text(
        (#[trigger] info.vout@[o]).scriptpubkey@,
    )
}

/// Rebuilds the transaction that an indexer description denotes. Succeeds
/// exactly on well-formed descriptions; any ill-formed hex field or an
/// input transaction id that is not thirty-two bytes is rejected as an
/// invalid inscription source.
#[verifier::loop_isolation(false)]
pub fn try_to_transaction(info: &TxInfo) -> (r: Result<Transaction, BridgeError>)
    ensures
        r is Ok <==> spec_tx_info_ok(*info),
        r matches Ok(tx) ==> {
            &&& tx.version == info.version
            &&& tx.lock_time == info.locktime
            &&& tx.input@.len() == info.vin@.len()
            &&& tx.output@.len() == info.vout@.len()
            &&& forall|i: int|
                0 <= i < tx.input@.len() ==> {
                    &&& (#[trigger] tx.input@[i]).previous_output.txid@ == spec_hex_decode(
                        info.vin@[i].txid@,
                    )
                    &&& tx.input@[i].previous_output.vout == info.vin@[i].vout
                    &&& tx.input@[i].script_sig@ == spec_hex_decode(
                        info.vin@[i].prevout_scriptpubkey@,
                    )
                    &&& tx.input@[i].sequence == info.vin@[i].sequence
                    &&& tx.input@[i].witness@.len() == info.vin@[i].witness@.len()
                    &&& forall|w: int|
                        0 <= w < tx.input@[i].witness@.len() ==> (#[trigger] tx.input@[i].witness@[w])@
                            == spec_hex_decode(info.vin@[i].witness@[w]@)
                }
            &&& forall|o: int|
                0 <= o < tx.output@.len() ==> {
                    &&& (#[trigger] tx.output@[o]).value == info.vout@[o].value
                    &&& tx.output@[o].script_pubkey@ == spec_hex_decode(
                        info.vout@[o].scriptpubkey@,
                    )
                }
        },
{
    let mut tx_in: Vec<TxIn> = Vec::new();
    let n_in = info.vin.len();
    let mut i: usize = 0;
    while i < n_in
        invariant
            0 <= i <= n_in,
            n_in == info.vin@.len(),
            tx_in@.len() == i,
            forall|k: int| 0 <= k < i ==> spec_vin_ok(#[trigger] info.vin@[k]),
            forall|k: int|
                0 <= k < i ==> {
                    &&& (#[trigger] tx_in@[k]).previous_output.txid@ == spec_hex_decode(
                        info.vin@[k].txid@,
                    )
                    &&& tx_in@[k].previous_output.vout == info.vin@[k].vout
                    &&& tx_in@[k].script_sig@ == spec_hex_decode(
                        info.vin@[k].prevout_scriptpubkey@,
                    )
                    &&& tx_in@[k].sequence == info.vin@[k].sequence
                    &&& tx_in@[k].witness@.len() == info.vin@[k].witness@.len()
                    &&& forall|w: int|
                        0 <= w < tx_in@[k].witness@.len() ==> (#[trigger] tx_in@[k].witness@[w])@
                            == spec_hex_decode(info.vin@[k].witness@[w]@)
                },
        decreases n_in - i,
    {
        let input = &info.vin[i];
        let txid = match decode_hex(input.txid.as_slice()) {
            Some(v) => v,
            None => {
                return Err(
                    BridgeError::InvalidInscription(
                        String::from_str("transaction id is not hex text"),
                    ),
                );
            },
        };
        if txid.len() != 32 {
            return Err(
                BridgeError::InvalidInscription(
                    String::from_str("transaction id is not thirty-two bytes"),
                ),
            );
        }
        let script_sig = match decode_hex(input.prevout_scriptpubkey.as_slice()) {
            Some(v) => v,
            None => {
                return Err(
                    BridgeError::InvalidInscription(
                        String::from_str("input script is not hex text"),
                    ),
                );
            },
        };
        let mut witness: Vec<Vec<u8>> = Vec::new();
        let n_w = input.witness.len();
        let mut w: usize = 0;
        while w < n_w
            invariant
                0 <= w <= n_w,
                n_w == input.witness@.len(),
                witness@.len() == w,
                forall|q: int| 0 <= q < w ==> spec_is_hex_text((#[trigger] input.witness@[q])@),
                forall|q: int|
                    0 <= q < w ==> (#[trigger] witness@[q])@ == spec_hex_decode(
                        input.witness@[q]@,
                    ),
            decreases n_w - w,
        {
            match decode_hex(input.witness[w].as_slice()) {
                Some(v) => {
                    witness.push(v);
                },
                None => {
                    proof {
                        assert(!spec_vin_ok(info.vin@[i as int]));
                    }
                    return Err(
                        BridgeError::InvalidInscription(
                            String::from_str("witness item is not hex text"),
                        ),
                    );
                },
            }
            w = w + 1;
        }
        tx_in.push(
            TxIn {
                previous_output: Outpoint { txid, vout: input.vout },
                script_sig,
                sequence: input.sequence,
                witness,
            },
        );
        i = i + 1;
    }
    let mut tx_out: Vec<TxOut> = Vec::new();
    let n_out = info.vout.len();
    let mut o: usize = 0;
    while o < n_out
        invariant
            0 <= o <= n_out,
            n_out == info.vout@.len(),
            tx_out@.len() == o,
            forall|k: int| 0 <= k < o ==> spec_is_hex_text(
                (#[trigger] info.vout@[k]).scriptpubkey@,
            ),
            forall|k: int|
                0 <= k < o ==> {
                    &&& (#[trigger] tx_out@[k]).value == info.vout@[k].value
                    &&& tx_out@[k].script_pubkey@ == spec_hex_decode(info.vout@[k].scriptpubkey@)
                },
        decreases n_out - o,
    {
        let output = &info.vout[o];
        match decode_hex(output.scriptpubkey.as_slice()) {
            Some(script_pubkey) => {
                tx_out.push(TxOut { value: output.value, script_pubkey });
            },
            None => {
                return Err(
                    BridgeError::InvalidInscription(
                        String::from_str("output script is not hex text"),
                    ),
                );
            },
        }
        o = o + 1;
    }
    Ok(Transaction { version: info.version, lock_time: info.locktime, input: tx_in, output: tx_out })
}

} // verus!
