//! The swap flows.
//!
//! Deposit: a validated inscription becomes a signed mint order, persisted
//! under (sender, nonce) and then offered to the bridge contract; a send
//! failure leaves the signed order retrievable for a caller-driven retry.
//!
//! Withdrawal: a burn event reserves UTXOs covering the requested amount,
//! the host broadcasts the spending transaction, and the ledger is settled:
//! finalized on success, released on failure.
//!
//! The external signer's and the chains' answers arrive as arguments; the
//! rules here say exactly what each answer does to the state.

use vstd::prelude::*;

use crate::ledger::{key_view, spec_finalize, spec_release, spec_reserve, LedgerView, UsedUtxoV,
    UtxoKey, MAX_BITCOIN_ADDRESS_SIZE};
use crate::orders::{clone_signed_order, MintOrder, SignedMintOrder};
use crate::rpc::{is_valid_btc_address, spec_addr_valid, spec_utf8_decode, string_from_utf8};
use crate::state::BridgeState;
use crate::types::{clone_bytes, BridgeError, BurntEventData, H160, H256, Id256};

verus! {

/// The caller-visible end of a deposit: the wrapped tokens were minted on
/// chain, or the order is signed and stored, awaiting a retry.
#[derive(Debug)]
pub enum Erc20MintStatus {
    Minted { amount: u64, tx_id: H256 },
    Signed(SignedMintOrder),
}

/// The big-endian bytes of a 32-bit value.
pub open spec fn spec_u32_be(x: u32) -> Seq<u8> {
    seq![
        (x >> 24) as u8,
        ((x >> 16) & 0xff) as u8,
        ((x >> 8) & 0xff) as u8,
        (x & 0xff) as u8,
    ]
}

/// The identity bytes of an EVM address on a chain: a leading one, the
/// chain id in big-endian, the twenty address bytes, and zero padding.
pub open spec fn spec_evm_address_id(chain_id: u32, addr: Seq<u8>) -> Seq<u8> {
    seq![1u8] + spec_u32_be(chain_id) + addr + Seq::new(7, |i: int| 0u8)
}

impl Id256 {
    /// Encodes an EVM address together with its chain id.
    pub fn from_evm_address(addr: &H160, chain_id: u32) -> (r: Id256)
        ensures
            r.bytes@ == spec_evm_address_id(chain_id, addr.bytes@),
    {
        let mut bytes = [0u8; 32];
        bytes[0] = 1u8;
        bytes[1] = (chain_id >> 24) as u8;
        bytes[2] = ((chain_id >> 16) & 0xff) as u8;
        bytes[3] = ((chain_id >> 8) & 0xff) as u8;
        bytes[4] = (chain_id & 0xff) as u8;
        let mut i: usize = 0;
        while i < 20
            invariant
                0 <= i <= 20,
                bytes@.len() == 32,
                bytes@[0] == 1u8,
                bytes@[1] == (chain_id >> 24) as u8,
                bytes@[2] == ((chain_id >> 16) & 0xff) as u8,
                bytes@[3] == ((chain_id >> 8) & 0xff) as u8,
                bytes@[4] == (chain_id & 0xff) as u8,
                forall|k: int| 0 <= k < i ==> bytes@[5 + k] == addr.bytes@[k],
                forall|k: int| 5 + i <= k < 32 ==> bytes@[k] == 0u8,
            decreases 20 - i,
        {
            bytes[5 + i] = addr.bytes[i];
            i = i + 1;
        }
        let r = Id256 { bytes };
        proof {
            assert(r.bytes@ =~= spec_evm_address_id(chain_id, addr.bytes@));
        }
        r
    }
}

/// The order a deposit prepares: the given amount to the given recipient,
/// keyed by the sender identity derived from the recipient's EVM address
/// and the source chain id, carrying the bridge's token metadata.
pub open spec fn spec_prepared_order(
    state: BridgeState,
    eth_address: H160,
    amount: u64,
    nonce: u32,
) -> crate::orders::MintOrderV {
    crate::orders::MintOrderV {
        amount: amount as u128,
        sender: spec_evm_address_id(state.btc_chain_id, eth_address.bytes@),
        src_token: state.src_token.bytes@,
        recipient: eth_address.bytes@,
        dst_token: Seq::new(20, |i: int| 0u8),
        nonce,
        sender_chain_id: state.btc_chain_id,
        recipient_chain_id: state.erc20_chain_id,
        name: state.token_name@,
        symbol: state.token_symbol@,
        decimals: state.decimals,
        approve_spender: Seq::new(20, |i: int| 0u8),
        approve_amount: 0,
        fee_payer: Seq::new(20, |i: int| 0u8),
    }
}

/// Builds the mint order of a deposit; nothing is signed or stored yet.
pub fn prepare_mint_order(state: &BridgeState, eth_address: H160, amount: u64, nonce: u32) -> (r:
    MintOrder)
    ensures
        r@ == spec_prepared_order(*state, eth_address, amount, nonce),
{
    let sender = Id256::from_evm_address(&eth_address, state.btc_chain_id);
    let r = MintOrder {
        amount: amount as u128,
        sender,
        src_token: state.src_token,
        recipient: eth_address,
        dst_token: H160::zero(),
        nonce,
        sender_chain_id: state.btc_chain_id,
        recipient_chain_id: state.erc20_chain_id,
        name: clone_bytes(&state.token_name),
        symbol: clone_bytes(&state.token_symbol),
        decimals: state.decimals,
        approve_spender: H160::zero(),
        approve_amount: 0,
        fee_payer: H160::zero(),
    };
    r
}

/// Persists a signed order under (sender, nonce), with the sender identity
/// derived from the recipient's EVM address and the source chain id.
pub fn store_mint_order(
    state: &mut BridgeState,
    signed_mint_order: SignedMintOrder,
    eth_address: &H160,
    nonce: u32,
)
    requires
        old(state).wf(),
    ensures
        final(state).wf(),
        final(state).mint_orders@ == old(state).mint_orders@.insert(
            (spec_evm_address_id(old(state).btc_chain_id, eth_address.bytes@), nonce),
            signed_mint_order@,
        ),
        *final(state) == (BridgeState { mint_orders: final(state).mint_orders, ..*old(state) }),
{
    let sender = Id256::from_evm_address(eth_address, state.btc_chain_id);
    push_order(state, sender, nonce, signed_mint_order);
}

fn push_order(state: &mut BridgeState, sender: Id256, nonce: u32, order: SignedMintOrder)
    requires
        old(state).wf(),
    ensures
        final(state).wf(),
        final(state).mint_orders@ == old(state).mint_orders@.insert(
            (sender.bytes@, nonce),
            order@,
        ),
        *final(state) == (BridgeState { mint_orders: final(state).mint_orders, ..*old(state) }),
{
    state.mint_orders.push(sender, nonce, order);
}

/// Settles the bookkeeping of one mint attempt, given the signer's and the
/// chain's answers for this order.
///
/// An amount below the configured fee is rejected before anything is
/// stored. A signing failure stores nothing. Otherwise the signed order is
/// persisted under (sender, nonce); a successful send then advances the
/// EVM account nonce and reports the minted amount, while a failed send --
/// or a bridge with no EVM parameters -- leaves the account nonce alone
/// and hands back the signed order, which stays retrievable.
pub fn mint_erc20(
    state: &mut BridgeState,
    eth_address: H160,
    amount: u64,
    nonce: u32,
    signature: Result<Vec<u8>, String>,
    send_result: Result<H256, String>,
) -> (r: Result<Erc20MintStatus, BridgeError>)
    requires
        old(state).wf(),
    ensures
        final(state).wf(),
        amount < old(state).erc20_minter_fee ==> (r matches Err(BridgeError::ValueTooSmall(m))
            && *final(state) == *old(state)),
        amount >= old(state).erc20_minter_fee ==> (signature matches Err(e) ==> (r matches Err(
            BridgeError::SigningFailed(m),
        ) && m@ == e@ && *final(state) == *old(state))),
        amount >= old(state).erc20_minter_fee ==> (signature matches Ok(sig) ==> {
            &&& final(state).mint_orders@ == old(state).mint_orders@.insert(
                (spec_evm_address_id(old(state).btc_chain_id, eth_address.bytes@), nonce),
                (crate::orders::SignedMintOrderV {
                    order: spec_prepared_order(
                        *old(state),
                        eth_address,
                        (amount - old(state).erc20_minter_fee) as u64,
                        nonce,
                    ),
                    signature: sig@,
                }),
            )
            &&& match (old(state).evm_params, send_result) {
                (Some(params), Ok(tx_id)) => {
                    &&& (r matches Ok(Erc20MintStatus::Minted { amount: a, tx_id: t }) && a
                        == amount - old(state).erc20_minter_fee && t.bytes@ == tx_id.bytes@)
                    &&& final(state).evm_params == Some(
                        (crate::state::EvmParams {
                            nonce: crate::scheduler::sat_add64(params.nonce, 1),
                            ..params
                        }),
                    )
                    &&& *final(state) == (BridgeState {
                        mint_orders: final(state).mint_orders,
                        evm_params: final(state).evm_params,
                        ..*old(state)
                    })
                },
                _ => {
                    &&& (r matches Ok(Erc20MintStatus::Signed(o)) && o@
                        == (crate::orders::SignedMintOrderV {
                        order: spec_prepared_order(
                            *old(state),
                            eth_address,
                            (amount - old(state).erc20_minter_fee) as u64,
                            nonce,
                        ),
                        signature: sig@,
                    }))
                    &&& *final(state) == (BridgeState {
                        mint_orders: final(state).mint_orders,
                        ..*old(state)
                    })
                },
            }
        }),
{
    let fee = state.erc20_minter_fee;
    let amount_minus_fee = match amount.checked_sub(fee) {
        Some(v) => v,
        None => {
            return Err(
                BridgeError::ValueTooSmall(String::from_str("amount does not cover the fee")),
            );
        },
    };
    let sig = match signature {
        Ok(sig) => sig,
        Err(e) => {
            return Err(BridgeError::SigningFailed(e));
        },
    };
    let order = prepare_mint_order(state, eth_address, amount_minus_fee, nonce);
    let signed = SignedMintOrder { order, signature: sig };
    let kept = clone_signed_order(&signed);
    store_mint_order(state, signed, &eth_address, nonce);
    match send_mint_order(state, send_result) {
        Ok(tx_id) => Ok(Erc20MintStatus::Minted { amount: amount_minus_fee, tx_id }),
        Err(_) => Ok(Erc20MintStatus::Signed(kept)),
    }
}

/// Books the offer of a signed order to the bridge contract. A bridge
/// with no EVM parameters is not bootstrapped and cannot send; a failed
/// broadcast leaves the account nonce alone; a successful one advances
/// it, so the next outbound transaction is ordered after this one.
pub fn send_mint_order(state: &mut BridgeState, send_result: Result<H256, String>) -> (r: Result<
    H256,
    BridgeError,
>)
    ensures
        old(state).evm_params is None ==> (r matches Err(BridgeError::NotInitialized(m))
            && *final(state) == *old(state)),
        old(state).evm_params matches Some(params) ==> match send_result {
            Ok(tx_id) => {
                &&& (r matches Ok(t) && t.bytes@ == tx_id.bytes@)
                &&& *final(state) == (BridgeState {
                    evm_params: Some(
                        (crate::state::EvmParams {
                            nonce: crate::scheduler::sat_add64(params.nonce, 1),
                            ..params
                        }),
                    ),
                    ..*old(state)
                })
            },
            Err(e) => (r matches Err(BridgeError::ChainSendFailed(m)) && m@ == e@ && *final(state)
                == *old(state)),
        },
{
    let params = match &state.evm_params {
        Some(p) => *p,
        None => {
            return Err(
                BridgeError::NotInitialized(
                    String::from_str("the bridge must be initialized first"),
                ),
            );
        },
    };
    match send_result {
        Ok(tx_id) => {
            state.evm_params = Some(
                crate::state::EvmParams { nonce: params.nonce.saturating_add(1), ..params },
            );
            Ok(tx_id)
        },
        Err(e) => Err(BridgeError::ChainSendFailed(e)),
    }
}

/// The inscription map after persisting a batch of validated records.
pub open spec fn spec_write_all(m: Map<Seq<char>, Seq<u8>>, entries: Seq<(Seq<char>, Seq<u8>)>) -> Map<
    Seq<char>,
    Seq<u8>,
>
    decreases entries.len(),
{
    if entries.len() == 0 {
        m
    } else {
        spec_write_all(m, entries.drop_last()).insert(entries.last().0, entries.last().1)
    }
}

/// The signed order a deposit with this symbol and nonce stores and,
/// when the send fails, hands back.
pub open spec fn spec_deposit_signed_order(
    state: BridgeState,
    eth_address: H160,
    net_amount: u64,
    tick: Seq<u8>,
    nonce: u32,
    sig: Seq<u8>,
) -> crate::orders::SignedMintOrderV {
    crate::orders::SignedMintOrderV {
        order: (crate::orders::MintOrderV {
            symbol: tick,
            nonce,
            ..spec_prepared_order(state, eth_address, net_amount, nonce)
        }),
        signature: sig,
    }
}

/// The deposit flow: rejects an empty batch of inscriptions; otherwise
/// persists every validated record, takes the token symbol from the
/// inscription, allocates a fresh strictly-increasing nonce, and settles
/// the mint as `mint_erc20` does with that nonce and the symbol set.
pub fn brc20_to_erc20(
    state: &mut BridgeState,
    eth_address: H160,
    inscriptions: &Vec<(String, Vec<u8>)>,
    amount: u64,
    tick: Vec<u8>,
    signature: Result<Vec<u8>, String>,
    send_result: Result<H256, String>,
) -> (r: Result<Erc20MintStatus, BridgeError>)
    requires
        old(state).wf(),
        old(state).nonce_counter < u32::MAX,
    ensures
        final(state).wf(),
        inscriptions@.len() == 0 ==> (r matches Err(BridgeError::InvalidInscription(m))
            && *final(state) == *old(state)),
        inscriptions@.len() > 0 ==> {
            &&& final(state).inscriptions@ == spec_write_all(
                old(state).inscriptions@,
                inscriptions@.map(|i: int, e: (String, Vec<u8>)| (e.0@, e.1@)),
            )
            &&& final(state).token_symbol@ == tick@
            &&& final(state).nonce_counter == old(state).nonce_counter + 1
            &&& *final(state) == (BridgeState {
                inscriptions: final(state).inscriptions,
                token_symbol: final(state).token_symbol,
                nonce_counter: final(state).nonce_counter,
                mint_orders: final(state).mint_orders,
                evm_params: final(state).evm_params,
                ..*old(state)
            })
            &&& (amount < old(state).erc20_minter_fee ==> (r matches Err(
                BridgeError::ValueTooSmall(m),
            ) && final(state).mint_orders@ == old(state).mint_orders@ && final(state).evm_params
                == old(state).evm_params))
            &&& (amount >= old(state).erc20_minter_fee ==> (signature matches Err(e) ==> (
            r matches Err(BridgeError::SigningFailed(m)) && m@ == e@ && final(state).mint_orders@
                == old(state).mint_orders@ && final(state).evm_params == old(
                state,
            ).evm_params)))
            &&& (amount >= old(state).erc20_minter_fee ==> (signature matches Ok(sig) ==> {
                &&& final(state).mint_orders@ == old(state).mint_orders@.insert(
                    (spec_evm_address_id(old(state).btc_chain_id, eth_address.bytes@), old(
                        state,
                    ).nonce_counter),
                    spec_deposit_signed_order(
                        *old(state),
                        eth_address,
                        (amount - old(state).erc20_minter_fee) as u64,
                        tick@,
                        old(state).nonce_counter,
                        sig@,
                    ),
                )
                &&& match (old(state).evm_params, send_result) {
                    (Some(params), Ok(tx_id)) => {
                        &&& (r matches Ok(Erc20MintStatus::Minted { amount: a, tx_id: t }) && a
                            == amount - old(state).erc20_minter_fee && t.bytes@ == tx_id.bytes@)
                        &&& final(state).evm_params == Some(
                            (crate::state::EvmParams {
                                nonce: crate::scheduler::sat_add64(params.nonce, 1),
                                ..params
                            }),
                        )
                    },
                    _ => {
                        &&& (r matches Ok(Erc20MintStatus::Signed(o)) && o@
                            == spec_deposit_signed_order(
                            *old(state),
                            eth_address,
                            (amount - old(state).erc20_minter_fee) as u64,
                            tick@,
                            old(state).nonce_counter,
                            sig@,
                        ))
                        &&& final(state).evm_params == old(state).evm_params
                    },
                }
            }))
        },
{
    if inscriptions.len() == 0 {
        return Err(
            BridgeError::InvalidInscription(String::from_str("no inscriptions found")),
        );
    }
    let ghost written = inscriptions@.map(|i: int, e: (String, Vec<u8>)| (e.0@, e.1@));
    let n = inscriptions.len();
    let mut i: usize = 0;
    while i < n
        invariant
            state.wf(),
            0 <= i <= n,
            n == inscriptions@.len(),
            written == inscriptions@.map(|q: int, e: (String, Vec<u8>)| (e.0@, e.1@)),
            state.inscriptions@ == spec_write_all(
                old(state).inscriptions@,
                written.subrange(0, i as int),
            ),
            *state == (BridgeState { inscriptions: state.inscriptions, ..*old(state) }),
        decreases n - i,
    {
        proof {
            assert(written.subrange(0, i + 1 as int).drop_last() =~= written.subrange(
                0,
                i as int,
            ));
            assert(written.subrange(0, i + 1 as int).last() == written[i as int]);
        }
        let iid = inscriptions[i].0.clone();
        let payload = clone_bytes(&inscriptions[i].1);
        state.inscriptions.write(iid, payload);
        i = i + 1;
    }
    proof {
        assert(written.subrange(0, n as int) =~= written);
    }
    state.token_symbol = tick;
    let nonce = state.next_nonce();
    mint_erc20(state, eth_address, amount, nonce, signature, send_result)
}

/// The reservation map after reserving a batch of keys, in order: each
/// key that is spendable is marked with the given metadata.
pub open spec fn spec_reserve_all(
    v: LedgerView,
    ks: Seq<(Seq<u8>, u32)>,
    u: UsedUtxoV,
) -> LedgerView
    decreases ks.len(),
{
    if ks.len() == 0 {
        v
    } else {
        spec_reserve(spec_reserve_all(v, ks.drop_last(), u), ks.last(), u)
    }
}

/// The ledger after releasing a batch of reservations, in order.
pub open spec fn spec_release_all(v: LedgerView, ks: Seq<(Seq<u8>, u32)>) -> LedgerView
    decreases ks.len(),
{
    if ks.len() == 0 {
        v
    } else {
        spec_release(spec_release_all(v, ks.drop_last()), ks.last())
    }
}

/// The ledger after finalizing a batch of spent keys, in order.
pub open spec fn spec_finalize_all(v: LedgerView, ks: Seq<(Seq<u8>, u32)>) -> LedgerView
    decreases ks.len(),
{
    if ks.len() == 0 {
        v
    } else {
        spec_finalize(spec_finalize_all(v, ks.drop_last()), ks.last())
    }
}

/// Reserving a batch never changes the spendable map; keys outside the
/// batch keep their reservation state.
pub proof fn lemma_reserve_all_frame(
    v: LedgerView,
    ks: Seq<(Seq<u8>, u32)>,
    u: UsedUtxoV,
    k0: (Seq<u8>, u32),
)
    ensures
        spec_reserve_all(v, ks, u).available == v.available,
        !ks.contains(k0) ==> spec_reserve_all(v, ks, u).reserved.contains_key(k0)
            == v.reserved.contains_key(k0),
        !ks.contains(k0) && v.reserved.contains_key(k0) ==> spec_reserve_all(
            v,
            ks,
            u,
        ).reserved[k0] == v.reserved[k0],
    decreases ks.len(),
{
    if ks.len() > 0 {
        lemma_reserve_all_frame(v, ks.drop_last(), u, k0);
        if !ks.contains(k0) {
            assert(ks[ks.len() - 1] != k0);
            assert(forall|j: int| 0 <= j < ks.drop_last().len() ==> ks.drop_last()[j] == ks[j]);
            assert(!ks.drop_last().contains(k0));
        }
    }
}

/// Releasing a batch never changes the spendable map; every key of the
/// batch ends unreserved, and keys outside it keep their reservation
/// state.
pub proof fn lemma_release_all_frame(v: LedgerView, ks: Seq<(Seq<u8>, u32)>, k0: (Seq<u8>, u32))
    ensures
        spec_release_all(v, ks).available == v.available,
        ks.contains(k0) ==> !spec_release_all(v, ks).reserved.contains_key(k0),
        !ks.contains(k0) ==> spec_release_all(v, ks).reserved.contains_key(k0)
            == v.reserved.contains_key(k0),
        !ks.contains(k0) && v.reserved.contains_key(k0) ==> spec_release_all(v, ks).reserved[k0]
            == v.reserved[k0],
    decreases ks.len(),
{
    if ks.len() > 0 {
        lemma_release_all_frame(v, ks.drop_last(), k0);
        assert(forall|j: int| 0 <= j < ks.drop_last().len() ==> ks.drop_last()[j] == ks[j]);
        if ks.contains(k0) && ks[ks.len() - 1] != k0 {
            let j = choose|j: int| 0 <= j < ks.len() && ks[j] == k0;
            assert(ks.drop_last()[j] == k0);
        }
        if !ks.contains(k0) {
            assert(ks[ks.len() - 1] != k0);
            assert(!ks.drop_last().contains(k0));
        }
    }
}

/// Law: a withdrawal that reserves a batch of UTXOs and then fails
/// before broadcast releases exactly that batch: the spendable map --
/// what selection observes -- is untouched throughout, every key of the
/// batch is unreserved again, and if none of them was reserved before,
/// the whole ledger state is back to what it was, so a later attempt may
/// select the same UTXOs again.
pub proof fn law_failed_withdraw_releases(v: LedgerView, ks: Seq<(Seq<u8>, u32)>, u: UsedUtxoV)
    ensures
        spec_release_all(spec_reserve_all(v, ks, u), ks).available == v.available,
        forall|i: int|
            0 <= i < ks.len() ==> !spec_release_all(spec_reserve_all(v, ks, u), ks)
                .reserved.contains_key(#[trigger] ks[i]),
        (forall|i: int|
            0 <= i < ks.len() ==> !v.reserved.contains_key(#[trigger] ks[i])) ==> spec_release_all(
            spec_reserve_all(v, ks, u),
            ks,
        ) == v,
{
    let w = spec_reserve_all(v, ks, u);
    let z = spec_release_all(w, ks);
    assert forall|i: int| 0 <= i < ks.len() implies !z.reserved.contains_key(
        #[trigger] ks[i],
    ) by {
        lemma_release_all_frame(w, ks, ks[i]);
    }
    lemma_reserve_all_frame(v, ks, u, (Seq::empty(), 0u32));
    lemma_release_all_frame(w, ks, (Seq::empty(), 0u32));
    if forall|i: int| 0 <= i < ks.len() ==> !v.reserved.contains_key(#[trigger] ks[i]) {
        assert forall|k0: (Seq<u8>, u32)|
            #![trigger z.reserved.dom().contains(k0)]
            #![trigger v.reserved.dom().contains(k0)]
            (z.reserved.dom().contains(k0) == v.reserved.dom().contains(k0)) && (
            v.reserved.dom().contains(k0) ==> z.reserved[k0] == v.reserved[k0]) by {
            if ks.contains(k0) {
                let j = choose|j: int| 0 <= j < ks.len() && ks[j] == k0;
                lemma_release_all_frame(w, ks, k0);
                assert(!v.reserved.contains_key(ks[j]));
            } else {
                lemma_reserve_all_frame(v, ks, u, k0);
                lemma_release_all_frame(w, ks, k0);
            }
        }
        assert(z.reserved =~= v.reserved);
        assert(z.available =~= v.available);
    }
}

/// The sum of the values that the unreserved spendable entries hold.
pub open spec fn spec_sum_unreserved(
    entries: Seq<((Seq<u8>, u32), crate::ledger::UtxoDetailsV)>,
    reserved: Map<(Seq<u8>, u32), UsedUtxoV>,
) -> int
    decreases entries.len(),
{
    if entries.len() == 0 {
        0
    } else {
        spec_sum_unreserved(entries.drop_last(), reserved) + (
        if reserved.contains_key(entries.last().0) {
            0
        } else {
            entries.last().1.value as int
        })
    }
}

/// The sum of the values the spendable map holds under a batch of keys.
pub open spec fn spec_sum_keys(
    m: Map<(Seq<u8>, u32), crate::ledger::UtxoDetailsV>,
    ks: Seq<(Seq<u8>, u32)>,
) -> int
    decreases ks.len(),
{
    if ks.len() == 0 {
        0
    } else {
        spec_sum_keys(m, ks.drop_last()) + (if m.contains_key(ks.last()) {
            m[ks.last()].value as int
        } else {
            0
        })
    }
}

/// The identities of a batch of keys.
pub open spec fn key_views(ks: Seq<UtxoKey>) -> Seq<(Seq<u8>, u32)> {
    ks.map(|i: int, k: UtxoKey| key_view(k))
}

/// Begins a withdrawal: selects unreserved UTXOs, in ledger order, until
/// they cover the requested amount plus fee, and reserves each selected
/// one for the spender. Succeeds exactly when the unreserved spendable
/// values cover the target; on failure nothing is reserved.
#[verifier::loop_isolation(false)]
#[verifier::rlimit(100)]
pub fn withdraw_begin(
    state: &mut BridgeState,
    amount: u64,
    fee: u64,
    change_address: String,
    now: u64,
) -> (r: Result<(Vec<UtxoKey>, Vec<crate::ledger::TxInputInfo>), BridgeError>)
    requires
        old(state).wf(),
        change_address@.len() <= MAX_BITCOIN_ADDRESS_SIZE,
    ensures
        final(state).wf(),
        r is Ok <==> spec_sum_unreserved(
            old(state).ledger.utxo_entries(),
            old(state).ledger@.reserved,
        ) >= amount + fee,
        r matches Err(e) ==> (e matches BridgeError::UtxoUnavailable(m) && *final(state) == *old(
            state,
        )),
        r matches Ok(sel) ==> {
            &&& sel.0@.len() == sel.1@.len()
            &&& forall|a: int, b: int|
                0 <= a < b < sel.0@.len() ==> key_views(sel.0@)[a] != key_views(sel.0@)[b]
            &&& forall|q: int|
                0 <= q < sel.0@.len() ==> {
                    &&& old(state).ledger@.available.contains_key(
                        #[trigger] key_views(sel.0@)[q],
                    )
                    &&& !old(state).ledger@.reserved.contains_key(key_views(sel.0@)[q])
                    &&& sel.1@[q].value == old(state).ledger@.available[key_views(
                        sel.0@,
                    )[q]].value
                    &&& sel.1@[q].outpoint.txid@ == key_views(sel.0@)[q].0
                    &&& sel.1@[q].outpoint.vout == key_views(sel.0@)[q].1
                    &&& sel.1@[q].script_pubkey@ == old(state).ledger@.available[key_views(
                        sel.0@,
                    )[q]].script
                    &&& sel.1@[q].derivation_path.deep_view() == old(
                        state,
                    ).ledger@.available[key_views(sel.0@)[q]].path
                }
            &&& spec_sum_keys(old(state).ledger@.available, key_views(sel.0@)) >= amount + fee
            &&& final(state).ledger@ == spec_reserve_all(
                old(state).ledger@,
                key_views(sel.0@),
                (UsedUtxoV { used_at: now, owner: change_address@ }),
            )
            &&& final(state).ledger@.available == old(state).ledger@.available
            &&& *final(state) == (BridgeState { ledger: final(state).ledger, ..*old(state) })
        },
{
    let target: u128 = amount as u128 + fee as u128;
    let ghost entries = state.ledger.utxo_entries();
    let ghost available0 = state.ledger@.available;
    let ghost reserved0 = state.ledger@.reserved;
    proof {
        crate::ledger::law_load_all_exact(state.ledger);
    }
    let (keys, infos) = state.ledger.load_all();
    let n = keys.len();
    let mut selected_keys: Vec<UtxoKey> = Vec::new();
    let mut selected_infos: Vec<crate::ledger::TxInputInfo> = Vec::new();
    let mut acc: u128 = 0;
    let ghost mut selidx: Seq<int> = Seq::empty();
    let mut i: usize = 0;
    while i < n && acc < target
        invariant
            0 <= i <= n,
            acc as int == spec_sum_unreserved(entries.subrange(0, i as int), reserved0),
            selected_keys@.len() == selected_infos@.len(),
            selidx.len() == selected_keys@.len(),
            forall|a: int, b: int| 0 <= a < b < selidx.len() ==> selidx[a] < selidx[b],
            forall|q: int| 0 <= q < selidx.len() ==> 0 <= #[trigger] selidx[q] < i,
            forall|q: int|
                0 <= q < selidx.len() ==> key_views(selected_keys@)[q] == entries[(
                #[trigger] selidx[q])].0,
            forall|q: int|
                0 <= q < selidx.len() ==> !reserved0.contains_key(
                    #[trigger] key_views(selected_keys@)[q],
                ),
            acc as int == spec_sum_keys(available0, key_views(selected_keys@)),
            forall|q: int|
                0 <= q < selected_infos@.len() ==> {
                    &&& (#[trigger] selected_infos@[q]).value == entries[selidx[q]].1.value
                    &&& selected_infos@[q].outpoint.txid@ == entries[selidx[q]].0.0
                    &&& selected_infos@[q].outpoint.vout == entries[selidx[q]].0.1
                    &&& selected_infos@[q].script_pubkey@ == entries[selidx[q]].1.script
                    &&& selected_infos@[q].derivation_path.deep_view() == entries[selidx[q]].1.path
                },
        decreases n - i,
    {
        proof {
            assert(entries.subrange(0, i + 1 as int).drop_last() =~= entries.subrange(
                0,
                i as int,
            ));
            assert(entries.subrange(0, i + 1 as int).last() == entries[i as int]);
        }
        if !state.ledger.is_reserved(&keys[i]) {
            proof {
                crate::assoc::lemma_index(entries, i as int);
                assert(key_views(selected_keys@.push(keys@[i as int])) =~= key_views(
                    selected_keys@,
                ).push(entries[i as int].0));
            }
            let ghost prev_keys = key_views(selected_keys@);
            selected_keys.push(keys[i]);
            selected_infos.push(
                crate::ledger::TxInputInfo {
                    outpoint: crate::ledger::Outpoint {
                        txid: clone_bytes(&infos[i].outpoint.txid),
                        vout: infos[i].outpoint.vout,
                    },
                    value: infos[i].value,
                    script_pubkey: clone_bytes(&infos[i].script_pubkey),
                    derivation_path: crate::types::clone_blobs(&infos[i].derivation_path),
                },
            );
            proof {
                selidx = selidx.push(i as int);
                assert(key_views(selected_keys@).drop_last() =~= prev_keys);
                assert(key_views(selected_keys@).last() == entries[i as int].0);
                assert(available0.contains_key(entries[i as int].0));
                assert(available0[entries[i as int].0] == entries[i as int].1);
                lemma_sum_unreserved_bounds(entries.subrange(0, i as int), reserved0);
                assert(acc + infos@[i as int].value <= u128::MAX) by (nonlinear_arith)
                    requires
                        acc as int <= entries.subrange(0, i as int).len() * (u64::MAX as int),
                        entries.subrange(0, i as int).len() < 0x1_0000_0000_0000_0000,
                        infos@[i as int].value <= u64::MAX,
                ;
                assert(key_views(selected_keys@)[selected_keys@.len() - 1] == entries[
                    i as int].0);
            }
            acc = acc + infos[i].value as u128;
        }
        i = i + 1;
    }
    if acc < target {
        proof {
            assert(i == n);
            assert(entries.subrange(0, n as int) =~= entries);
        }
        return Err(
            BridgeError::UtxoUnavailable(
                String::from_str("spendable UTXOs do not cover the requested amount"),
            ),
        );
    }
    proof {
        // A selection that reached the target bounds the total from below.
        lemma_sum_unreserved_prefix(entries, reserved0, i as int);
        assert forall|q: int|
            0 <= q < selected_keys@.len() implies {
            &&& available0.contains_key(#[trigger] key_views(selected_keys@)[q])
            &&& available0[key_views(selected_keys@)[q]] == entries[selidx[q]].1
        } by {
            crate::assoc::lemma_index(entries, selidx[q]);
        }
        assert forall|a: int, b: int|
            0 <= a < b < selected_keys@.len() implies key_views(selected_keys@)[a] != key_views(
            selected_keys@,
        )[b] by {
            assert(key_views(selected_keys@)[a] == entries[selidx[a]].0);
            assert(key_views(selected_keys@)[b] == entries[selidx[b]].0);
            assert(selidx[a] < selidx[b]);
        }
    }
    // Reserve every selected UTXO for this spend attempt.
    let ghost sel_views = key_views(selected_keys@);
    let ghost uv = UsedUtxoV { used_at: now, owner: change_address@ };
    let m = selected_keys.len();
    let mut j: usize = 0;
    while j < m
        invariant
            state.wf(),
            0 <= j <= m,
            m == selected_keys@.len(),
            state.ledger@ == spec_reserve_all(
                old(state).ledger@,
                sel_views.subrange(0, j as int),
                uv,
            ),
            state.ledger@.available == available0,
            *state == (BridgeState { ledger: state.ledger, ..*old(state) }),
        decreases m - j,
    {
        proof {
            assert(sel_views.subrange(0, j + 1 as int).drop_last() =~= sel_views.subrange(
                0,
                j as int,
            ));
            assert(sel_views.subrange(0, j + 1 as int).last() == sel_views[j as int]);
            assert(selected_keys@[j as int].tx_id@.len() == 32) by {
                crate::assoc::lemma_index(entries, selidx[j as int]);
            }
        }
        let ok = state.ledger.mark_as_used(selected_keys[j], change_address.clone(), now);
        j = j + 1;
    }
    proof {
        assert(sel_views.subrange(0, m as int) =~= sel_views);
    }
    Ok((selected_keys, selected_infos))
}

/// A selection taken from a prefix never exceeds the whole: the
/// unreserved total over all entries is at least the total over any
/// prefix.
proof fn lemma_sum_unreserved_prefix(
    entries: Seq<((Seq<u8>, u32), crate::ledger::UtxoDetailsV)>,
    reserved: Map<(Seq<u8>, u32), UsedUtxoV>,
    i: int,
)
    requires
        0 <= i <= entries.len(),
    ensures
        spec_sum_unreserved(entries.subrange(0, i), reserved) <= spec_sum_unreserved(
            entries,
            reserved,
        ),
    decreases entries.len() - i,
{
    if i < entries.len() {
        assert(entries.subrange(0, i + 1).drop_last() =~= entries.subrange(0, i));
        lemma_sum_unreserved_prefix(entries, reserved, i + 1);
        assert(entries.subrange(0, entries.len() as int) =~= entries);
    } else {
        assert(entries.subrange(0, i) =~= entries);
    }
}

/// The unreserved total is never negative and never exceeds one maximal
/// value per entry.
proof fn lemma_sum_unreserved_bounds(
    entries: Seq<((Seq<u8>, u32), crate::ledger::UtxoDetailsV)>,
    reserved: Map<(Seq<u8>, u32), UsedUtxoV>,
)
    ensures
        0 <= spec_sum_unreserved(entries, reserved),
        spec_sum_unreserved(entries, reserved) <= entries.len() * (u64::MAX as int),
    decreases entries.len(),
{
    if entries.len() > 0 {
        lemma_sum_unreserved_bounds(entries.drop_last(), reserved);
        assert((entries.len() - 1) * (u64::MAX as int) + (u64::MAX as int) == entries.len() * (
        u64::MAX as int)) by (nonlinear_arith);
    }
}

/// Settles a withdrawal after the host's broadcast attempt. On success
/// every reserved UTXO of the batch is finalized as spent and the burn
/// request is marked transferred and removed; on failure every
/// reservation of the batch is released and the bookkeeping is left
/// untouched, so the scheduler's retry policy can try again.
pub fn withdraw_complete(
    state: &mut BridgeState,
    request_id: u32,
    keys: &Vec<UtxoKey>,
    broadcast_ok: bool,
) -> (r: Result<(), BridgeError>)
    requires
        old(state).wf(),
    ensures
        final(state).wf(),
        broadcast_ok ==> {
            &&& r is Ok
            &&& final(state).ledger@ == spec_finalize_all(old(state).ledger@, key_views(keys@))
            &&& final(state).burn_requests@ == old(state).burn_requests@.remove(request_id)
            &&& *final(state) == (BridgeState {
                ledger: final(state).ledger,
                burn_requests: final(state).burn_requests,
                ..*old(state)
            })
        },
        !broadcast_ok ==> {
            &&& r matches Err(BridgeError::ChainSendFailed(m))
            &&& final(state).ledger@ == spec_release_all(old(state).ledger@, key_views(keys@))
            &&& *final(state) == (BridgeState { ledger: final(state).ledger, ..*old(state) })
        },
{
    let ghost kv = key_views(keys@);
    let n = keys.len();
    let mut i: usize = 0;
    if broadcast_ok {
        while i < n
            invariant
                state.wf(),
                0 <= i <= n,
                n == keys@.len(),
                kv == key_views(keys@),
                state.ledger@ == spec_finalize_all(old(state).ledger@, kv.subrange(0, i as int)),
                *state == (BridgeState { ledger: state.ledger, ..*old(state) }),
            decreases n - i,
        {
            proof {
                assert(kv.subrange(0, i + 1 as int).drop_last() =~= kv.subrange(0, i as int));
                assert(kv.subrange(0, i + 1 as int).last() == kv[i as int]);
            }
            state.ledger.remove_spent_utxo(&keys[i]);
            i = i + 1;
        }
        proof {
            assert(kv.subrange(0, n as int) =~= kv);
        }
        state.burn_requests.set_transferred(request_id);
        state.burn_requests.remove(request_id);
        proof {
            if old(state).burn_requests@.contains_key(request_id) {
                assert(state.burn_requests@ =~= old(state).burn_requests@.remove(request_id));
            } else {
                assert(state.burn_requests@ =~= old(state).burn_requests@.remove(request_id));
            }
        }
        Ok(())
    } else {
        while i < n
            invariant
                state.wf(),
                0 <= i <= n,
                n == keys@.len(),
                kv == key_views(keys@),
                state.ledger@ == spec_release_all(old(state).ledger@, kv.subrange(0, i as int)),
                *state == (BridgeState { ledger: state.ledger, ..*old(state) }),
            decreases n - i,
        {
            proof {
                assert(kv.subrange(0, i + 1 as int).drop_last() =~= kv.subrange(0, i as int));
                assert(kv.subrange(0, i + 1 as int).last() == kv[i as int]);
            }
            state.ledger.remove_unspent_utxo(&keys[i]);
            i = i + 1;
        }
        proof {
            assert(kv.subrange(0, n as int) =~= kv);
        }
        Err(
            BridgeError::ChainSendFailed(
                String::from_str("failed to broadcast the withdrawal transaction"),
            ),
        )
    }
}

/// The value that big-endian bytes denote.
pub open spec fn spec_be_val(s: Seq<u8>) -> int
    decreases s.len(),
{
    if s.len() == 0 {
        0
    } else {
        spec_be_val(s.drop_last()) * 256 + s.last()
    }
}

/// The identity bytes of a rune: a leading two, the etching block in
/// eight big-endian bytes, the transaction index in four, zero padding.
pub open spec fn spec_rune_id_ok(bytes: Seq<u8>) -> bool {
    &&& bytes.len() == 32
    &&& bytes[0] == 2u8
    &&& forall|i: int| 13 <= i < 32 ==> bytes[i] == 0u8
}

/// Reads the rune that an identifier names: its etching block and
/// transaction index. Rejects identifiers that do not carry the rune
/// mark or that carry anything in the padding.
pub fn decode_rune_id(id: &Id256) -> (r: Option<(u64, u32)>)
    ensures
        r is Some <==> spec_rune_id_ok(id.bytes@),
        r matches Some(p) ==> p.0 == spec_be_val(id.bytes@.subrange(1, 9)) && p.1 == spec_be_val(
            id.bytes@.subrange(9, 13),
        ),
{
    if id.bytes[0] != 2 {
        return None;
    }
    let mut i: usize = 13;
    while i < 32
        invariant
            13 <= i <= 32,
            forall|k: int| 13 <= k < i ==> id.bytes@[k] == 0u8,
        decreases 32 - i,
    {
        if id.bytes[i] != 0 {
            return None;
        }
        i = i + 1;
    }
    let mut block: u64 = 0;
    let mut b: usize = 1;
    while b < 9
        invariant
            1 <= b <= 9,
            block as int == spec_be_val(id.bytes@.subrange(1, b as int)),
        decreases 9 - b,
    {
        proof {
            assert(id.bytes@.subrange(1, b + 1 as int).drop_last() =~= id.bytes@.subrange(
                1,
                b as int,
            ));
            assert(id.bytes@.subrange(1, b + 1 as int).last() == id.bytes@[b as int]);
            lemma_be_val_bounds(id.bytes@.subrange(1, b as int));
            lemma_pow256_mono((b - 1) as nat, 7);
            reveal_with_fuel(spec_pow256, 9);
            assert(spec_pow256(7) == 0x100_0000_0000_0000);
        }
        block = block * 256 + id.bytes[b] as u64;
        b = b + 1;
    }
    let mut tx: u32 = 0;
    let mut t: usize = 9;
    while t < 13
        invariant
            9 <= t <= 13,
            tx as int == spec_be_val(id.bytes@.subrange(9, t as int)),
        decreases 13 - t,
    {
        proof {
            assert(id.bytes@.subrange(9, t + 1 as int).drop_last() =~= id.bytes@.subrange(
                9,
                t as int,
            ));
            assert(id.bytes@.subrange(9, t + 1 as int).last() == id.bytes@[t as int]);
            lemma_be_val_bounds(id.bytes@.subrange(9, t as int));
            lemma_pow256_mono((t - 9) as nat, 3);
            reveal_with_fuel(spec_pow256, 5);
            assert(spec_pow256(3) == 0x100_0000);
        }
        tx = tx * 256 + id.bytes[t] as u32;
        t = t + 1;
    }
    Some((block, tx))
}

/// Two hundred fifty-six to the power.
pub open spec fn spec_pow256(n: nat) -> int
    decreases n,
{
    if n == 0 {
        1
    } else {
        256 * spec_pow256((n - 1) as nat)
    }
}

/// Big-endian bytes denote a value below two hundred fifty-six to the
/// length.
proof fn lemma_be_val_bounds(s: Seq<u8>)
    ensures
        0 <= spec_be_val(s),
        spec_be_val(s) < spec_pow256(s.len() as nat),
    decreases s.len(),
{
    if s.len() == 0 {
    } else {
        lemma_be_val_bounds(s.drop_last());
        assert(spec_pow256(s.len() as nat) == 256 * spec_pow256((s.len() - 1) as nat));
        assert(spec_be_val(s.drop_last()) * 256 + 255 < 256 * spec_pow256(
            (s.len() - 1) as nat,
        )) by (nonlinear_arith)
            requires
                spec_be_val(s.drop_last()) < spec_pow256((s.len() - 1) as nat),
        ;
    }
}

/// The power grows with the exponent.
proof fn lemma_pow256_mono(a: nat, b: nat)
    requires
        a <= b,
    ensures
        spec_pow256(a) <= spec_pow256(b),
        1 <= spec_pow256(a),
    decreases b,
{
    if a == b {
        if a > 0 {
            lemma_pow256_mono((a - 1) as nat, (a - 1) as nat);
        }
    } else {
        lemma_pow256_mono(a, (b - 1) as nat);
    }
}

/// What a burn demands, decoded from the event payload.
#[derive(Debug)]
pub struct WithdrawalRequest {
    pub amount: u128,
    pub address: String,
    pub rune_block: u64,
    pub rune_tx: u32,
}

/// Decodes a Burnt event into the withdrawal it demands: the recipient
/// bytes must be UTF-8 text naming a valid address of the network, and
/// the token field must name a rune. Each malformed field is rejected
/// with its own error, before any state is touched.
pub fn decode_withdrawal_request(event: &BurntEventData, network: crate::types::Network) -> (r:
    Result<WithdrawalRequest, BridgeError>)
    ensures
        match spec_utf8_decode(event.recipient_id@) {
            Option::None => r matches Err(BridgeError::MalformedAddress(m)),
            Option::Some(text) => {
                if !spec_addr_valid(text, crate::types::network_code(network)) {
                    r matches Err(BridgeError::MalformedAddress(m))
                } else if event.to_token@.len() != 32 {
                    r matches Err(BridgeError::TaskExecutionFailed(m))
                } else if !spec_rune_id_ok(event.to_token@) {
                    r matches Err(BridgeError::TaskExecutionFailed(m))
                } else {
                    r matches Ok(req) && req.amount == event.amount && req.address@ == text
                        && req.rune_block == spec_be_val(event.to_token@.subrange(1, 9))
                        && req.rune_tx == spec_be_val(event.to_token@.subrange(9, 13))
                }
            },
        },
{
    let address = match string_from_utf8(clone_bytes(&event.recipient_id)) {
        Some(s) => s,
        None => {
            return Err(
                BridgeError::MalformedAddress(
                    String::from_str("recipient bytes are not valid text"),
                ),
            );
        },
    };
    match is_valid_btc_address(address.as_str(), network) {
        Ok(_) => {},
        Err(e) => {
            return Err(e);
        },
    }
    let token_id = match Id256::from_slice(event.to_token.as_slice()) {
        Some(id) => id,
        None => {
            return Err(
                BridgeError::TaskExecutionFailed(
                    String::from_str("failed to decode token id from the burnt event"),
                ),
            );
        },
    };
    let (rune_block, rune_tx) = match decode_rune_id(&token_id) {
        Some(p) => p,
        None => {
            return Err(
                BridgeError::TaskExecutionFailed(
                    String::from_str("failed to decode rune id from the token id"),
                ),
            );
        },
    };
    Ok(WithdrawalRequest { amount: event.amount, address, rune_block, rune_tx })
}

/// Settles a brc20 withdrawal after the host's transfer attempt: an
/// unknown inscription id is rejected; a successful transfer removes the
/// inscription and closes the burn request; a failed transfer leaves
/// everything as it was, to be retried.
pub fn withdraw_brc20(
    state: &mut BridgeState,
    request_id: u32,
    brc20_iid: &String,
    transfer_ok: bool,
) -> (r: Result<(), BridgeError>)
    requires
        old(state).wf(),
    ensures
        final(state).wf(),
        !old(state).inscriptions@.contains_key(brc20_iid@) ==> (r matches Err(
            BridgeError::NotFound(m),
        ) && m@ == "inscription id not found: "@ + brc20_iid@ && *final(state) == *old(state)),
        old(state).inscriptions@.contains_key(brc20_iid@) && transfer_ok ==> {
            &&& r is Ok
            &&& final(state).inscriptions@ == old(state).inscriptions@.remove(brc20_iid@)
            &&& final(state).burn_requests@ == old(state).burn_requests@.remove(request_id)
            &&& *final(state) == (BridgeState {
                inscriptions: final(state).inscriptions,
                burn_requests: final(state).burn_requests,
                ..*old(state)
            })
        },
        old(state).inscriptions@.contains_key(brc20_iid@) && !transfer_ok ==> (r matches Err(
            BridgeError::ChainSendFailed(m),
        ) && *final(state) == *old(state)),
{
    if !state.inscriptions.has(brc20_iid) {
        let mut message = String::from_str("inscription id not found: ");
        message.append(brc20_iid.as_str());
        return Err(BridgeError::NotFound(message));
    }
    if transfer_ok {
        state.inscriptions.remove(brc20_iid);
        state.burn_requests.set_transferred(request_id);
        state.burn_requests.remove(request_id);
        proof {
            assert(state.burn_requests@ =~= old(state).burn_requests@.remove(request_id));
        }
        Ok(())
    } else {
        Err(
            BridgeError::ChainSendFailed(
                String::from_str("failed to transfer the inscription"),
            ),
        )
    }
}

} // verus!
