//! The compute side of the inscribing wallet: network mapping, signer
//! key selection, and the shaping of commit-transaction inputs. The
//! ECDSA calls, fee queries and broadcasts live in the host.

use vstd::prelude::*;

use crate::ledger::Utxo;
use crate::types::{clone_blobs, clone_bytes, Network};

verus! {

/// The network a host chain query speaks of.
#[derive(Clone, Copy, Debug, PartialEq, Eq, Structural)]
pub enum BitcoinNetwork {
    Mainnet,
    Testnet,
    Regtest,
}

/// Signs with the host's threshold ECDSA key under a derivation path;
/// the signing calls themselves live in the host.
#[derive(Debug)]
pub struct EcdsaSigner {
    pub derivation_path: Vec<Vec<u8>>,
}

impl EcdsaSigner {
    /// A signer bound to the given derivation path.
    pub fn new(derivation_path: Vec<Vec<u8>>) -> (r: EcdsaSigner)
        ensures
            r.derivation_path.deep_view() == derivation_path.deep_view(),
    {
        EcdsaSigner { derivation_path }
    }
}

/// One unspent output in the form the transaction builder consumes.
#[derive(Debug)]
pub struct OrdUtxo {
    pub id: Vec<u8>,
    pub index: u32,
    pub amount: u64,
}

/// The sum of the values of a batch of UTXOs.
pub open spec fn spec_sum_values(utxos: Seq<Utxo>) -> int
    decreases utxos.len(),
{
    if utxos.len() == 0 {
        0
    } else {
        spec_sum_values(utxos.drop_last()) + utxos.last().value
    }
}

/// The wallet's per-network configuration.
#[derive(Debug)]
pub struct CanisterWallet {
    pub bitcoin_network: BitcoinNetwork,
    pub derivation_path: Vec<Vec<u8>>,
    pub network: Network,
}

impl CanisterWallet {
    /// A wallet for the given derivation path and network.
    pub fn new(derivation_path: Vec<Vec<u8>>, network: BitcoinNetwork) -> (r: CanisterWallet)
        ensures
            r.bitcoin_network == network,
            r.derivation_path.deep_view() == derivation_path.deep_view(),
            r.network == Self::spec_map_network(network),
    {
        let mapped = Self::map_network(network);
        CanisterWallet { bitcoin_network: network, derivation_path, network: mapped }
    }

    /// The signer of this wallet's derivation path.
    pub fn ecdsa_signer(&self) -> (r: EcdsaSigner)
        ensures
            r.derivation_path.deep_view() == self.derivation_path.deep_view(),
    {
        EcdsaSigner { derivation_path: clone_blobs(&self.derivation_path) }
    }

    /// Which chain-level network each host network name denotes.
    pub open spec fn spec_map_network(network: BitcoinNetwork) -> Network {
        match network {
            BitcoinNetwork::Mainnet => Network::Bitcoin,
            BitcoinNetwork::Testnet => Network::Testnet,
            BitcoinNetwork::Regtest => Network::Regtest,
        }
    }

    /// Maps the host's network name to the chain-level network.
    pub fn map_network(network: BitcoinNetwork) -> (r: Network)
        ensures
            r == Self::spec_map_network(network),
    {
        match network {
            BitcoinNetwork::Mainnet => Network::Bitcoin,
            BitcoinNetwork::Testnet => Network::Testnet,
            BitcoinNetwork::Regtest => Network::Regtest,
        }
    }

    /// Shapes the owned UTXOs into commit-transaction inputs: each input
    /// names its outpoint and carries the batch's total value.
    pub fn build_commit_transaction_inputs(&self, own_utxos: &Vec<Utxo>) -> (r: Vec<OrdUtxo>)
        requires
            spec_sum_values(own_utxos@) <= u64::MAX,
        ensures
            r@.len() == own_utxos@.len(),
            forall|i: int|
                0 <= i < r@.len() ==> {
                    &&& (#[trigger] r@[i]).id@ == own_utxos@[i].outpoint.txid@
                    &&& r@[i].index == own_utxos@[i].outpoint.vout
                    &&& r@[i].amount as int == spec_sum_values(own_utxos@)
                },
    {
        let n = own_utxos.len();
        let mut total_spent: u64 = 0;
        let mut i: usize = 0;
        while i < n
            invariant
                0 <= i <= n,
                n == own_utxos@.len(),
                total_spent as int == spec_sum_values(own_utxos@.subrange(0, i as int)),
                spec_sum_values(own_utxos@) <= u64::MAX,
            decreases n - i,
        {
            proof {
                assert(own_utxos@.subrange(0, i + 1 as int).drop_last() =~= own_utxos@.subrange(
                    0,
                    i as int,
                ));
                assert(own_utxos@.subrange(0, i + 1 as int).last() == own_utxos@[i as int]);
                lemma_sum_values_nonneg(own_utxos@.subrange(0, i as int));
                lemma_sum_values_prefix(own_utxos@, i + 1 as int);
                lemma_sum_values_nonneg_from(own_utxos@, i + 1 as int);
            }
            total_spent = total_spent + own_utxos[i].value;
            i = i + 1;
        }
        proof {
            assert(own_utxos@.subrange(0, n as int) =~= own_utxos@);
        }
        let mut r: Vec<OrdUtxo> = Vec::new();
        let mut j: usize = 0;
        while j < n
            invariant
                0 <= j <= n,
                n == own_utxos@.len(),
                total_spent as int == spec_sum_values(own_utxos@),
                r@.len() == j,
                forall|k: int|
                    0 <= k < j ==> {
                        &&& (#[trigger] r@[k]).id@ == own_utxos@[k].outpoint.txid@
                        &&& r@[k].index == own_utxos@[k].outpoint.vout
                        &&& r@[k].amount as int == spec_sum_values(own_utxos@)
                    },
            decreases n - j,
        {
            r.push(
                OrdUtxo {
                    id: clone_bytes(&own_utxos[j].outpoint.txid),
                    index: own_utxos[j].outpoint.vout,
                    amount: total_spent,
                },
            );
            j = j + 1;
        }
        r
    }
}

/// A batch's total value is never negative.
proof fn lemma_sum_values_nonneg(utxos: Seq<Utxo>)
    ensures
        0 <= spec_sum_values(utxos),
    decreases utxos.len(),
{
    if utxos.len() > 0 {
        lemma_sum_values_nonneg(utxos.drop_last());
    }
}

/// A prefix's total never exceeds the whole batch's.
proof fn lemma_sum_values_prefix(utxos: Seq<Utxo>, i: int)
    requires
        0 <= i <= utxos.len(),
    ensures
        spec_sum_values(utxos.subrange(0, i)) <= spec_sum_values(utxos),
    decreases utxos.len() - i,
{
    if i < utxos.len() {
        assert(utxos.subrange(0, i + 1).drop_last() =~= utxos.subrange(0, i));
        lemma_sum_values_prefix(utxos, i + 1);
    } else {
        assert(utxos.subrange(0, i) =~= utxos);
    }
}

/// Dropping a prefix never makes the rest negative, so a prefix sum can
/// only grow towards the whole.
proof fn lemma_sum_values_nonneg_from(utxos: Seq<Utxo>, i: int)
    requires
        0 <= i <= utxos.len(),
    ensures
        spec_sum_values(utxos.subrange(0, i)) >= 0,
{
    lemma_sum_values_nonneg(utxos.subrange(0, i));
}

/// The name of the threshold ECDSA key the host signs with on each
/// network.
pub fn ecdsa_key_name(network: BitcoinNetwork) -> (r: String)
    ensures
        network == BitcoinNetwork::Regtest ==> r@ == "dfx_test_key"@,
        network != BitcoinNetwork::Regtest ==> r@ == "test_key_1"@,
{
    match network {
        BitcoinNetwork::Regtest => String::from_str("dfx_test_key"),
        BitcoinNetwork::Mainnet | BitcoinNetwork::Testnet => String::from_str("test_key_1"),
    }
}

/// The fee rate to pay, from the host's fee percentiles: the ninetieth
/// percentile, or a regtest default where no percentiles exist.
pub fn fee_per_byte(fee_percentiles: &Vec<u64>) -> (r: u64)
    requires
        fee_percentiles@.len() == 0 || fee_percentiles@.len() > 90,
    ensures
        fee_percentiles@.len() == 0 ==> r == 2000,
        fee_percentiles@.len() > 90 ==> r == fee_percentiles@[90],
{
    if fee_percentiles.len() == 0 {
        2000
    } else {
        fee_percentiles[90]
    }
}

} // verus!
