//! The bridge's mutable state: EVM-side parameters, the operation stores,
//! the UTXO ledger, the mint-order nonce allocator, and the configuration
//! an administrator may change. Handlers receive it by reference; nothing
//! else holds persistent state.

use vstd::prelude::*;

use crate::assoc::{lemma_absent, lemma_contains, lemma_index, lemma_push, lemma_remove,
    lemma_update, pairs_map, unique_keys};
use crate::ledger::UtxoLedger;
use crate::orders::{BurnRequestStore, MintOrdersStore};
use crate::types::{clone_bytes, H160};

verus! {

/// What the bridge mirrors of the EVM side: the log cursor, the signing
/// account's transaction nonce, the gas price, the chain id, and the
/// bridge contract's address. The account nonce orders this bridge's
/// outbound transactions; it is distinct from the mint-order nonce.
#[derive(Clone, Copy, Debug)]
pub struct EvmParams {
    pub next_block: u64,
    pub nonce: u64,
    pub gas_price: u128,
    pub chain_id: u32,
    pub bridge_contract: H160,
}

/// Administrative settings of the EVM-side bridge contract.
#[derive(Clone, Copy, Debug)]
pub struct BftBridgeConfig {
    pub bridge_address: H160,
    pub token_address: H160,
}

/// A validated inscription kept until its withdrawal is transferred,
/// keyed by its inscription id.
pub struct InscriptionStore {
    entries: Vec<(String, Vec<u8>)>,
}

/// The entries of an inscription store, as id-view/payload-view pairs.
pub open spec fn inscription_entry_views(s: Seq<(String, Vec<u8>)>) -> Seq<(Seq<char>, Seq<u8>)> {
    s.map(|i: int, e: (String, Vec<u8>)| (e.0@, e.1@))
}

impl View for InscriptionStore {
    type V = Map<Seq<char>, Seq<u8>>;

    closed spec fn view(&self) -> Map<Seq<char>, Seq<u8>> {
        pairs_map(self.entries())
    }
}

impl InscriptionStore {
    /// The stored entries, in storage order.
    pub closed spec fn entries(&self) -> Seq<(Seq<char>, Seq<u8>)> {
        inscription_entry_views(self.entries@)
    }

    /// Entries hold pairwise distinct inscription ids.
    pub open spec fn wf(&self) -> bool {
        unique_keys(self.entries())
    }

    /// A fresh, empty store.
    pub fn new() -> (r: InscriptionStore)
        ensures
            r.wf(),
            r@ == Map::<Seq<char>, Seq<u8>>::empty(),
    {
        InscriptionStore { entries: Vec::new() }
    }

    fn find(&self, iid: &String) -> (r: Option<usize>)
        ensures
            match r {
                Some(i) => i < self.entries().len() && self.entries()[i as int].0 == iid@,
                None => forall|i: int|
                    0 <= i < self.entries().len() ==> (#[trigger] self.entries()[i]).0 != iid@,
            },
    {
        let n = self.entries.len();
        let mut i: usize = 0;
        while i < n
            invariant
                0 <= i <= n,
                n == self.entries@.len(),
                forall|k: int| 0 <= k < i ==> (#[trigger] self.entries()[k]).0 != iid@,
            decreases n - i,
        {
            if self.entries[i].0 == *iid {
                return Some(i);
            }
            i = i + 1;
        }
        None
    }

    /// Stores a validated inscription under its id; storing an id that is
    /// already present overwrites its payload.
    pub fn write(&mut self, iid: String, payload: Vec<u8>)
        requires
            old(self).wf(),
        ensures
            final(self).wf(),
            final(self)@ == old(self)@.insert(iid@, payload@),
    {
        match self.find(&iid) {
            Some(at) => {
                let ghost s = self.entries();
                proof {
                    lemma_update(s, at as int, payload@);
                }
                self.entries[at] = (iid, payload);
                proof {
                    assert(self.entries() =~= s.update(at as int, (s[at as int].0, payload@)));
                }
            },
            None => {
                let ghost s = self.entries();
                proof {
                    lemma_push(s, iid@, payload@);
                }
                self.entries.push((iid, payload));
                proof {
                    assert(self.entries() =~= s.push((iid@, payload@)));
                    assert(unique_keys(self.entries()));
                }
            },
        }
    }

    /// Whether an inscription with this id is stored.
    pub fn has(&self, iid: &String) -> (r: bool)
        requires
            self.wf(),
        ensures
            r == self@.contains_key(iid@),
    {
        proof {
            lemma_contains(self.entries(), iid@);
        }
        match self.find(iid) {
            Some(at) => {
                proof {
                    lemma_index(self.entries(), at as int);
                }
                true
            },
            None => {
                proof {
                    lemma_absent(self.entries(), iid@);
                }
                false
            },
        }
    }

    /// Returns the payload stored under this id, if any.
    pub fn read(&self, iid: &String) -> (r: Option<Vec<u8>>)
        requires
            self.wf(),
        ensures
            match r {
                Some(p) => self@.contains_key(iid@) && p@ == self@[iid@],
                None => !self@.contains_key(iid@),
            },
    {
        proof {
            lemma_contains(self.entries(), iid@);
        }
        match self.find(iid) {
            Some(at) => {
                proof {
                    lemma_index(self.entries(), at as int);
                }
                Some(clone_bytes(&self.entries[at].1))
            },
            None => {
                proof {
                    lemma_absent(self.entries(), iid@);
                }
                None
            },
        }
    }

    /// Removes the inscription stored under this id, if any.
    pub fn remove(&mut self, iid: &String)
        requires
            old(self).wf(),
        ensures
            final(self).wf(),
            final(self)@ == old(self)@.remove(iid@),
    {
        match self.find(iid) {
            Some(at) => {
                let ghost s = self.entries();
                proof {
                    lemma_remove(s, at as int);
                }
                self.entries.remove(at);
                proof {
                    assert(self.entries() =~= s.remove(at as int));
                }
            },
            None => {
                proof {
                    lemma_absent(self.entries(), iid@);
                    assert(self@.remove(iid@) =~= self@);
                }
            },
        }
    }
}

/// Everything the bridge owns, constructed once and passed by reference
/// into handlers and endpoints.
pub struct BridgeState {
    /// EVM-side parameters; absent until the bootstrap task succeeds.
    pub evm_params: Option<EvmParams>,
    /// Signed mint orders awaiting their on-chain mint.
    pub mint_orders: MintOrdersStore,
    /// Burn requests awaiting their outbound transfer.
    pub burn_requests: BurnRequestStore,
    /// The UTXOs the bridge custodies.
    pub ledger: UtxoLedger,
    /// Validated inscriptions awaiting withdrawal.
    pub inscriptions: InscriptionStore,
    /// The next mint-order nonce; strictly increasing, never reused.
    pub nonce_counter: u32,
    /// The fee, in token units, kept from every deposit.
    pub erc20_minter_fee: u64,
    /// The principal allowed to reconfigure the bridge.
    pub admin: Vec<u8>,
    /// The identity of the source token this bridge wraps.
    pub src_token: crate::types::Id256,
    /// The chain id the bridge reports as the sender side.
    pub btc_chain_id: u32,
    /// The chain id of the EVM side.
    pub erc20_chain_id: u32,
    /// Metadata of the wrapped token.
    pub token_name: Vec<u8>,
    pub token_symbol: Vec<u8>,
    pub decimals: u8,
    /// Settings of the EVM-side bridge contract, once configured.
    pub bft_config: Option<BftBridgeConfig>,
}

impl BridgeState {
    /// All owned stores are well-formed.
    pub open spec fn wf(&self) -> bool {
        &&& self.mint_orders.wf()
        &&& self.burn_requests.wf()
        &&& self.ledger.wf()
        &&& self.inscriptions.wf()
    }

    /// Allocates the next mint-order nonce. Each call returns a value
    /// strictly greater than every value returned before, so sequential
    /// deposits never collide.
    pub fn next_nonce(&mut self) -> (nonce: u32)
        requires
            old(self).nonce_counter < u32::MAX,
        ensures
            nonce == old(self).nonce_counter,
            final(self).nonce_counter == old(self).nonce_counter + 1,
            *final(self) == (BridgeState {
                nonce_counter: final(self).nonce_counter,
                ..*old(self)
            }),
    {
        let nonce = self.nonce_counter;
        self.nonce_counter = nonce + 1;
        nonce
    }

    /// Replaces the mirrored EVM parameters.
    pub fn update_evm_params(&mut self, params: Option<EvmParams>)
        ensures
            *final(self) == (BridgeState { evm_params: params, ..*old(self) }),
    {
        self.evm_params = params;
    }

    /// Whether the caller is the configured administrator.
    pub fn check_admin(&self, caller: &Vec<u8>) -> (r: bool)
        ensures
            r == (caller@ == self.admin@),
    {
        crate::types::bytes_eq(caller.as_slice(), self.admin.as_slice())
    }

    /// Reconfigures the EVM-side bridge contract, gated on the caller
    /// being the administrator; any other caller changes nothing.
    pub fn admin_configure_bft_bridge(&mut self, caller: &Vec<u8>, config: BftBridgeConfig) -> (r:
        bool)
        ensures
            r == (caller@ == old(self).admin@),
            r ==> *final(self) == (BridgeState {
                bft_config: Some(config),
                ..*old(self)
            }),
            !r ==> *final(self) == *old(self),
    {
        if self.check_admin(caller) {
            self.bft_config = Some(config);
            true
        } else {
            false
        }
    }
}

impl BridgeState {
    /// Returns every (nonce, order) pair stored for the sender and source
    /// token, ordered by ascending nonce.
    pub fn list_mint_orders(
        &self,
        sender: &crate::types::Id256,
        src_token: &crate::types::Id256,
    ) -> (r: Vec<(u32, crate::orders::SignedMintOrder)>)
        requires
            self.wf(),
        ensures
            forall|a: int, b: int| 0 <= a < b < r@.len() ==> (#[trigger] r@[a]).0 < (
            #[trigger] r@[b]).0,
            forall|j: int|
                0 <= j < r@.len() ==> {
                    &&& self.mint_orders@.contains_key(
                        crate::orders::order_key(*sender, (#[trigger] r@[j]).0),
                    )
                    &&& r@[j].1@ == self.mint_orders@[crate::orders::order_key(*sender, r@[j].0)]
                    &&& r@[j].1@.order.src_token == src_token.bytes@
                },
            forall|i: int|
                0 <= i < self.mint_orders.entries().len() && (
                #[trigger] self.mint_orders.entries()[i]).0.0 == sender.bytes@
                    && self.mint_orders.entries()[i].1.order.src_token == src_token.bytes@
                    ==> exists|j: int| 0 <= j < r@.len() && (#[trigger] r@[j]).0
                    == self.mint_orders.entries()[i].0.1,
    {
        self.mint_orders.get_all(sender, src_token)
    }

    /// Returns the signed order stored under (sender, nonce), if there is
    /// one whose source token matches.
    pub fn get_mint_orders(
        &self,
        sender: &crate::types::Id256,
        src_token: &crate::types::Id256,
        operation_id: u32,
    ) -> (r: Option<crate::orders::SignedMintOrder>)
        requires
            self.wf(),
        ensures
            match r {
                Some(o) => {
                    &&& self.mint_orders@.contains_key(
                        crate::orders::order_key(*sender, operation_id),
                    )
                    &&& o@ == self.mint_orders@[crate::orders::order_key(*sender, operation_id)]
                    &&& o@.order.src_token == src_token.bytes@
                },
                None => self.mint_orders@.contains_key(
                    crate::orders::order_key(*sender, operation_id),
                ) ==> self.mint_orders@[crate::orders::order_key(
                    *sender,
                    operation_id,
                )].order.src_token != src_token.bytes@,
            },
    {
        self.mint_orders.get(sender, src_token, operation_id)
    }
}

/// Builds the bridge's state: empty stores, no EVM parameters yet, the
/// given administrator and token configuration.
pub fn get_state(
    admin: Vec<u8>,
    src_token: crate::types::Id256,
    btc_chain_id: u32,
    erc20_chain_id: u32,
    token_name: Vec<u8>,
    token_symbol: Vec<u8>,
    decimals: u8,
    erc20_minter_fee: u64,
) -> (r: BridgeState)
    ensures
        r.wf(),
        r.evm_params is None,
        r.mint_orders@ == Map::<(Seq<u8>, u32), crate::orders::SignedMintOrderV>::empty(),
        r.burn_requests@ == Map::<u32, crate::orders::BurnRequestV>::empty(),
        r.ledger@.available == Map::<(Seq<u8>, u32), crate::ledger::UtxoDetailsV>::empty(),
        r.ledger@.reserved == Map::<(Seq<u8>, u32), crate::ledger::UsedUtxoV>::empty(),
        r.inscriptions@ == Map::<Seq<char>, Seq<u8>>::empty(),
        r.nonce_counter == 0,
        r.erc20_minter_fee == erc20_minter_fee,
        r.admin@ == admin@,
        r.src_token.bytes@ == src_token.bytes@,
        r.btc_chain_id == btc_chain_id,
        r.erc20_chain_id == erc20_chain_id,
        r.token_name@ == token_name@,
        r.token_symbol@ == token_symbol@,
        r.decimals == decimals,
        r.bft_config is None,
{
    BridgeState {
        evm_params: None,
        mint_orders: MintOrdersStore::new(),
        burn_requests: BurnRequestStore::new(),
        ledger: UtxoLedger::new(),
        inscriptions: InscriptionStore::new(),
        nonce_counter: 0,
        erc20_minter_fee,
        admin,
        src_token,
        btc_chain_id,
        erc20_chain_id,
        token_name,
        token_symbol,
        decimals,
        bft_config: None,
    }
}

} // verus!
