//! Durable stores for in-flight cross-chain operations: signed mint orders
//! keyed by (sender, nonce), and burn requests keyed by request id.

use vstd::prelude::*;

use crate::assoc::{lemma_absent, lemma_contains, lemma_index, lemma_push, lemma_remove,
    lemma_update, pairs_map, unique_keys};
use crate::types::{bytes_eq, clone_bytes, H160, Id256};

verus! {

/// An instruction for the EVM-side bridge contract to mint a wrapped token.
/// The amount excludes the minter fee; (sender, nonce) identifies the order.
#[derive(Debug)]
pub struct MintOrder {
    pub amount: u128,
    pub sender: Id256,
    pub src_token: Id256,
    pub recipient: H160,
    pub dst_token: H160,
    pub nonce: u32,
    pub sender_chain_id: u32,
    pub recipient_chain_id: u32,
    pub name: Vec<u8>,
    pub symbol: Vec<u8>,
    pub decimals: u8,
    pub approve_spender: H160,
    pub approve_amount: u128,
    pub fee_payer: H160,
}

/// The mathematical contents of a `MintOrder`.
pub struct MintOrderV {
    pub amount: u128,
    pub sender: Seq<u8>,
    pub src_token: Seq<u8>,
    pub recipient: Seq<u8>,
    pub dst_token: Seq<u8>,
    pub nonce: u32,
    pub sender_chain_id: u32,
    pub recipient_chain_id: u32,
    pub name: Seq<u8>,
    pub symbol: Seq<u8>,
    pub decimals: u8,
    pub approve_spender: Seq<u8>,
    pub approve_amount: u128,
    pub fee_payer: Seq<u8>,
}

impl View for MintOrder {
    type V = MintOrderV;

    open spec fn view(&self) -> MintOrderV {
        MintOrderV {
            amount: self.amount,
            sender: self.sender.bytes@,
            src_token: self.src_token.bytes@,
            recipient: self.recipient.bytes@,
            dst_token: self.dst_token.bytes@,
            nonce: self.nonce,
            sender_chain_id: self.sender_chain_id,
            recipient_chain_id: self.recipient_chain_id,
            name: self.name@,
            symbol: self.symbol@,
            decimals: self.decimals,
            approve_spender: self.approve_spender.bytes@,
            approve_amount: self.approve_amount,
            fee_payer: self.fee_payer.bytes@,
        }
    }
}

/// A mint order together with the signature the external signer produced
/// over its encoded payload. Immutable once signed.
#[derive(Debug)]
pub struct SignedMintOrder {
    pub order: MintOrder,
    pub signature: Vec<u8>,
}

/// The mathematical contents of a `SignedMintOrder`.
pub struct SignedMintOrderV {
    pub order: MintOrderV,
    pub signature: Seq<u8>,
}

impl View for SignedMintOrder {
    type V = SignedMintOrderV;

    open spec fn view(&self) -> SignedMintOrderV {
        SignedMintOrderV { order: self.order@, signature: self.signature@ }
    }
}

/// Copies a mint order; the copy has the same contents.
pub fn clone_mint_order(o: &MintOrder) -> (r: MintOrder)
    ensures
        r@ == o@,
{
    MintOrder {
        amount: o.amount,
        sender: o.sender,
        src_token: o.src_token,
        recipient: o.recipient,
        dst_token: o.dst_token,
        nonce: o.nonce,
        sender_chain_id: o.sender_chain_id,
        recipient_chain_id: o.recipient_chain_id,
        name: clone_bytes(&o.name),
        symbol: clone_bytes(&o.symbol),
        decimals: o.decimals,
        approve_spender: o.approve_spender,
        approve_amount: o.approve_amount,
        fee_payer: o.fee_payer,
    }
}

/// Copies a signed mint order; the copy has the same contents.
pub fn clone_signed_order(o: &SignedMintOrder) -> (r: SignedMintOrder)
    ensures
        r@ == o@,
{
    SignedMintOrder { order: clone_mint_order(&o.order), signature: clone_bytes(&o.signature) }
}

/// The key of a stored order: the sender's identity bytes and the nonce.
pub open spec fn order_key(sender: Id256, nonce: u32) -> (Seq<u8>, u32) {
    (sender.bytes@, nonce)
}

/// Keeps signed mint orders until the matching mint is observed on chain.
pub struct MintOrdersStore {
    entries: Vec<((Id256, u32), SignedMintOrder)>,
}

/// The entries of a mint order store, as key-view/value-view pairs.
pub open spec fn order_entry_views(s: Seq<((Id256, u32), SignedMintOrder)>) -> Seq<
    ((Seq<u8>, u32), SignedMintOrderV),
> {
    s.map(|i: int, e: ((Id256, u32), SignedMintOrder)| (order_key(e.0.0, e.0.1), e.1@))
}

impl View for MintOrdersStore {
    type V = Map<(Seq<u8>, u32), SignedMintOrderV>;

    closed spec fn view(&self) -> Map<(Seq<u8>, u32), SignedMintOrderV> {
        pairs_map(self.entries())
    }
}

impl MintOrdersStore {
    /// The stored entries, in storage order.
    pub closed spec fn entries(&self) -> Seq<((Seq<u8>, u32), SignedMintOrderV)> {
        order_entry_views(self.entries@)
    }

    /// Entries hold pairwise distinct (sender, nonce) keys.
    pub open spec fn wf(&self) -> bool {
        unique_keys(self.entries())
    }

    /// The store's map sends each entry's key to its value.
    pub proof fn lemma_view_is_entries(&self)
        requires
            self.wf(),
        ensures
            forall|i: int|
                0 <= i < self.entries().len() ==> {
                    &&& self@.contains_key((#[trigger] self.entries()[i]).0)
                    &&& self@[self.entries()[i].0] == self.entries()[i].1
                },
            forall|k: (Seq<u8>, u32)|
                self@.contains_key(k) ==> exists|i: int|
                    0 <= i < self.entries().len() && (#[trigger] self.entries()[i]).0 == k,
    {
        assert forall|i: int| 0 <= i < self.entries().len() implies {
            &&& self@.contains_key((#[trigger] self.entries()[i]).0)
            &&& self@[self.entries()[i].0] == self.entries()[i].1
        } by {
            lemma_index(self.entries(), i);
        }
        assert forall|k: (Seq<u8>, u32)| self@.contains_key(k) implies exists|i: int|
            0 <= i < self.entries().len() && (#[trigger] self.entries()[i]).0 == k by {
            lemma_contains(self.entries(), k);
        }
    }

    /// A fresh, empty store.
    pub fn new() -> (r: MintOrdersStore)
        ensures
            r.wf(),
            r@ == Map::<(Seq<u8>, u32), SignedMintOrderV>::empty(),
    {
        MintOrdersStore { entries: Vec::new() }
    }

    fn find(&self, sender: &Id256, nonce: u32) -> (r: Option<usize>)
        ensures
            match r {
                Some(i) => i < self.entries().len() && self.entries()[i as int].0 == order_key(
                    *sender,
                    nonce,
                ),
                None => forall|i: int|
                    0 <= i < self.entries().len() ==> (#[trigger] self.entries()[i]).0
                        != order_key(*sender, nonce),
            },
    {
        let n = self.entries.len();
        let mut i: usize = 0;
        while i < n
            invariant
                0 <= i <= n,
                n == self.entries@.len(),
                forall|k: int|
                    0 <= k < i ==> (#[trigger] self.entries()[k]).0 != order_key(*sender, nonce),
            decreases n - i,
        {
            let e = &self.entries[i];
            if bytes_eq(e.0.0.bytes.as_slice(), sender.bytes.as_slice()) && e.0.1 == nonce {
                proof {
                    assert(self.entries()[i as int].0 == order_key(*sender, nonce));
                }
                return Some(i);
            }
            proof {
                assert(self.entries()[i as int].0 != order_key(*sender, nonce));
            }
            i = i + 1;
        }
        None
    }

    /// Stores a signed order under (sender, nonce); pushing the same key
    /// again overwrites the order.
    pub fn push(&mut self, sender: Id256, nonce: u32, order: SignedMintOrder)
        requires
            old(self).wf(),
        ensures
            final(self).wf(),
            final(self)@ == old(self)@.insert(order_key(sender, nonce), order@),
    {
        match self.find(&sender, nonce) {
            Some(at) => {
                let ghost s = self.entries();
                proof {
                    lemma_update(s, at as int, order@);
                }
                self.entries[at] = ((sender, nonce), order);
                proof {
                    assert(self.entries() =~= s.update(at as int, (s[at as int].0, order@)));
                }
            },
            None => {
                let ghost s = self.entries();
                proof {
                    lemma_push(s, order_key(sender, nonce), order@);
                }
                self.entries.push(((sender, nonce), order));
                proof {
                    assert(self.entries() =~= s.push((order_key(sender, nonce), order@)));
                    assert(unique_keys(self.entries()));
                }
            },
        }
    }

    /// Returns the order stored under (sender, nonce), if there is one and
    /// its source token matches.
    pub fn get(&self, sender: &Id256, src_token: &Id256, nonce: u32) -> (r: Option<
        SignedMintOrder,
    >)
        requires
            self.wf(),
        ensures
            match r {
                Some(o) => {
                    &&& self@.contains_key(order_key(*sender, nonce))
                    &&& o@ == self@[order_key(*sender, nonce)]
                    &&& o@.order.src_token == src_token.bytes@
                },
                None => self@.contains_key(order_key(*sender, nonce)) ==> self@[order_key(
                    *sender,
                    nonce,
                )].order.src_token != src_token.bytes@,
            },
    {
        match self.find(sender, nonce) {
            Some(at) => {
                proof {
                    lemma_index(self.entries(), at as int);
                }
                let e = &self.entries[at];
                if bytes_eq(e.1.order.src_token.bytes.as_slice(), src_token.bytes.as_slice()) {
                    Some(clone_signed_order(&e.1))
                } else {
                    None
                }
            },
            None => {
                proof {
                    lemma_absent(self.entries(), order_key(*sender, nonce));
                }
                None
            },
        }
    }

    /// Returns every (nonce, order) pair stored for the sender whose source
    /// token matches, ordered by ascending nonce.
    #[verifier::rlimit(60)]
    pub fn get_all(&self, sender: &Id256, src_token: &Id256) -> (r: Vec<(u32, SignedMintOrder)>)
        requires
            self.wf(),
        ensures
            forall|a: int, b: int| 0 <= a < b < r@.len() ==> (#[trigger] r@[a]).0 < (
            #[trigger] r@[b]).0,
            forall|j: int|
                0 <= j < r@.len() ==> {
                    &&& self@.contains_key(order_key(*sender, (#[trigger] r@[j]).0))
                    &&& r@[j].1@ == self@[order_key(*sender, r@[j].0)]
                    &&& r@[j].1@.order.src_token == src_token.bytes@
                },
            forall|i: int|
                0 <= i < self.entries().len() && (#[trigger] self.entries()[i]).0.0
                    == sender.bytes@ && self.entries()[i].1.order.src_token == src_token.bytes@
                    ==> exists|j: int| 0 <= j < r@.len() && (#[trigger] r@[j]).0
                    == self.entries()[i].0.1,
    {
        let mut r: Vec<(u32, SignedMintOrder)> = Vec::new();
        let n = self.entries.len();
        let mut i: usize = 0;
        while i < n
            invariant
                self.wf(),
                0 <= i <= n,
                n == self.entries@.len(),
                forall|a: int, b: int| 0 <= a < b < r@.len() ==> (#[trigger] r@[a]).0 < (
                #[trigger] r@[b]).0,
                forall|j: int| #![trigger r@[j]]
                    0 <= j < r@.len() ==> exists|k: int|
                        0 <= k < i && #[trigger] self.entries()[k] == (
                            order_key(*sender, r@[j].0),
                            r@[j].1@,
                        ) && r@[j].1@.order.src_token == src_token.bytes@,
                forall|k: int|
                    0 <= k < i && (#[trigger] self.entries()[k]).0.0 == sender.bytes@
                        && self.entries()[k].1.order.src_token == src_token.bytes@ ==> exists|
                        j: int,
                    | 0 <= j < r@.len() && (#[trigger] r@[j]).0 == self.entries()[k].0.1,
            decreases n - i,
        {
            let e = &self.entries[i];
            proof {
                assert(self.entries()[i as int] == (order_key(e.0.0, e.0.1), e.1@));
            }
            let same_sender = bytes_eq(e.0.0.bytes.as_slice(), sender.bytes.as_slice());
            let same_token = bytes_eq(
                e.1.order.src_token.bytes.as_slice(),
                src_token.bytes.as_slice(),
            );
            if !(same_sender && same_token) {
                proof {
                    assert(!((self.entries()[i as int]).0.0 == sender.bytes@
                        && self.entries()[i as int].1.order.src_token == src_token.bytes@));
                }
            } else {
                let nonce = e.0.1;
                proof {
                    assert(self.entries()[i as int] == (order_key(*sender, nonce), e.1@));
                }
                // Find the insertion point that keeps the result sorted.
                let mut p: usize = 0;
                while p < r.len() && r[p].0 < nonce
                    invariant
                        0 <= p <= r@.len(),
                        forall|a: int, b: int| 0 <= a < b < r@.len() ==> (#[trigger] r@[a]).0 < (
                        #[trigger] r@[b]).0,
                        forall|a: int| 0 <= a < p ==> (#[trigger] r@[a]).0 < nonce,
                    decreases r@.len() - p,
                {
                    p = p + 1;
                }
                proof {
                    // The same (sender, nonce) key cannot already be present:
                    // store keys are pairwise distinct.
                    assert forall|j: int| 0 <= j < r@.len() implies (#[trigger] r@[j]).0 != nonce
                    by {
                        let k = choose|k: int|
                            0 <= k < i && #[trigger] self.entries()[k] == (
                                order_key(*sender, r@[j].0),
                                r@[j].1@,
                            ) && r@[j].1@.order.src_token == src_token.bytes@;
                        if r@[j].0 == nonce {
                            assert(self.entries()[k].0 == self.entries()[i as int].0);
                        }
                    }
                }
                let ghost r_old = r@;
                r.insert(p, (nonce, clone_signed_order(&e.1)));
                proof {
                    assert forall|a: int, b: int| 0 <= a < b < r@.len() implies (
                    #[trigger] r@[a]).0 < (#[trigger] r@[b]).0 by {
                        if b < p {
                            assert(r@[a] == r_old[a] && r@[b] == r_old[b]);
                        } else if a > p {
                            assert(r@[a] == r_old[a - 1] && r@[b] == r_old[b - 1]);
                        } else if a < p && b == p {
                            assert(r@[a] == r_old[a]);
                        } else if a == p && b > p {
                            assert(r@[b] == r_old[b - 1]);
                            assert(r_old[b - 1].0 >= nonce);
                        } else if a < p && b > p {
                            assert(r@[a] == r_old[a] && r@[b] == r_old[b - 1]);
                        }
                    }
                    assert forall|j: int| #![trigger r@[j]] 0 <= j < r@.len() implies exists|
                        k: int,
                    |
                        0 <= k < i + 1 && #[trigger] self.entries()[k] == (
                            order_key(*sender, r@[j].0),
                            r@[j].1@,
                        ) && r@[j].1@.order.src_token == src_token.bytes@ by {
                        if j < p {
                            assert(r@[j] == r_old[j]);
                        } else if j == p {
                            assert(self.entries()[i as int] == (
                                order_key(*sender, r@[j].0),
                                r@[j].1@,
                            ));
                        } else {
                            assert(r@[j] == r_old[j - 1]);
                        }
                    }
                    assert forall|k: int|
                        0 <= k < i + 1 && (#[trigger] self.entries()[k]).0.0 == sender.bytes@
                            && self.entries()[k].1.order.src_token == src_token.bytes@ implies
                        exists|j: int| 0 <= j < r@.len() && (#[trigger] r@[j]).0
                            == self.entries()[k].0.1 by {
                        if k < i {
                            let j0 = choose|j: int|
                                0 <= j < r_old.len() && (#[trigger] r_old[j]).0
                                    == self.entries()[k].0.1;
                            if j0 < p {
                                assert(r@[j0] == r_old[j0]);
                            } else {
                                assert(r@[j0 + 1] == r_old[j0]);
                            }
                        } else {
                            assert(r@[p as int].0 == nonce);
                        }
                    }
                }
            }
            i = i + 1;
        }
        proof {
            assert forall|j: int| 0 <= j < r@.len() implies {
                &&& self@.contains_key(order_key(*sender, (#[trigger] r@[j]).0))
                &&& r@[j].1@ == self@[order_key(*sender, r@[j].0)]
                &&& r@[j].1@.order.src_token == src_token.bytes@
            } by {
                let k = choose|k: int|
                    0 <= k < n && #[trigger] self.entries()[k] == (
                        order_key(*sender, r@[j].0),
                        r@[j].1@,
                    ) && r@[j].1@.order.src_token == src_token.bytes@;
                lemma_index(self.entries(), k);
            }
        }
        r
    }

    /// Removes the order stored under (sender, nonce), if any.
    pub fn remove(&mut self, sender: Id256, nonce: u32)
        requires
            old(self).wf(),
        ensures
            final(self).wf(),
            final(self)@ == old(self)@.remove(order_key(sender, nonce)),
    {
        match self.find(&sender, nonce) {
            Some(at) => {
                let ghost s = self.entries();
                proof {
                    lemma_remove(s, at as int);
                }
                self.entries.remove(at);
                proof {
                    assert(self.entries() =~= s.remove(at as int));
                }
            },
            None => {
                proof {
                    lemma_absent(self.entries(), order_key(sender, nonce));
                    assert(self@.remove(order_key(sender, nonce)) =~= self@);
                }
            },
        }
    }
}

/// What the bridge remembers about one burn request: the destination
/// address, the source reference, and whether the transfer went out.
#[derive(Debug)]
pub struct BurnRequestInfo {
    pub address: String,
    pub reveal_txid: String,
    pub is_transferred: bool,
}

/// The mathematical contents of a `BurnRequestInfo`.
pub struct BurnRequestV {
    pub address: Seq<char>,
    pub reveal_txid: Seq<char>,
    pub is_transferred: bool,
}

impl View for BurnRequestInfo {
    type V = BurnRequestV;

    open spec fn view(&self) -> BurnRequestV {
        BurnRequestV {
            address: self.address@,
            reveal_txid: self.reveal_txid@,
            is_transferred: self.is_transferred,
        }
    }
}

/// Keeps burn requests until the outbound transfer is confirmed or abandoned.
pub struct BurnRequestStore {
    entries: Vec<(u32, BurnRequestInfo)>,
}

/// The entries of a burn request store, as id/value-view pairs.
pub open spec fn burn_entry_views(s: Seq<(u32, BurnRequestInfo)>) -> Seq<(u32, BurnRequestV)> {
    s.map(|i: int, e: (u32, BurnRequestInfo)| (e.0, e.1@))
}

impl View for BurnRequestStore {
    type V = Map<u32, BurnRequestV>;

    closed spec fn view(&self) -> Map<u32, BurnRequestV> {
        pairs_map(self.entries())
    }
}

impl BurnRequestStore {
    /// The stored entries, in storage order.
    pub closed spec fn entries(&self) -> Seq<(u32, BurnRequestV)> {
        burn_entry_views(self.entries@)
    }

    /// Entries hold pairwise distinct request ids.
    pub open spec fn wf(&self) -> bool {
        unique_keys(self.entries())
    }

    /// A fresh, empty store.
    pub fn new() -> (r: BurnRequestStore)
        ensures
            r.wf(),
            r@ == Map::<u32, BurnRequestV>::empty(),
    {
        BurnRequestStore { entries: Vec::new() }
    }

    fn find(&self, request_id: u32) -> (r: Option<usize>)
        ensures
            match r {
                Some(i) => i < self.entries().len() && self.entries()[i as int].0 == request_id,
                None => forall|i: int|
                    0 <= i < self.entries().len() ==> (#[trigger] self.entries()[i]).0
                        != request_id,
            },
    {
        let n = self.entries.len();
        let mut i: usize = 0;
        while i < n
            invariant
                0 <= i <= n,
                n == self.entries@.len(),
                forall|k: int| 0 <= k < i ==> (#[trigger] self.entries()[k]).0 != request_id,
            decreases n - i,
        {
            if self.entries[i].0 == request_id {
                return Some(i);
            }
            i = i + 1;
        }
        None
    }

    /// Records a new burn request, not yet transferred; inserting an id that
    /// is already present overwrites its record.
    pub fn insert(&mut self, request_id: u32, address: String, reveal_txid: String)
        requires
            old(self).wf(),
        ensures
            final(self).wf(),
            final(self)@ == old(self)@.insert(
                request_id,
                BurnRequestV { address: address@, reveal_txid: reveal_txid@,
                    is_transferred: false },
            ),
    {
        let info = BurnRequestInfo { address, reveal_txid, is_transferred: false };
        match self.find(request_id) {
            Some(at) => {
                let ghost s = self.entries();
                proof {
                    lemma_update(s, at as int, info@);
                }
                self.entries[at] = (request_id, info);
                proof {
                    assert(self.entries() =~= s.update(at as int, (s[at as int].0, info@)));
                }
            },
            None => {
                let ghost s = self.entries();
                proof {
                    lemma_push(s, request_id, info@);
                }
                self.entries.push((request_id, info));
                proof {
                    assert(self.entries() =~= s.push((request_id, info@)));
                    assert(unique_keys(self.entries()));
                }
            },
        }
    }

    /// Marks the request as transferred without removing it; does nothing
    /// when the id is absent.
    pub fn set_transferred(&mut self, request_id: u32)
        requires
            old(self).wf(),
        ensures
            final(self).wf(),
            old(self)@.contains_key(request_id) ==> final(self)@ == old(self)@.insert(
                request_id,
                BurnRequestV {
                    address: old(self)@[request_id].address,
                    reveal_txid: old(self)@[request_id].reveal_txid,
                    is_transferred: true,
                },
            ),
            !old(self)@.contains_key(request_id) ==> final(self)@ == old(self)@,
    {
        match self.find(request_id) {
            Some(at) => {
                let ghost s = self.entries();
                proof {
                    lemma_index(s, at as int);
                }
                let address = self.entries[at].1.address.clone();
                let reveal_txid = self.entries[at].1.reveal_txid.clone();
                let info = BurnRequestInfo { address, reveal_txid, is_transferred: true };
                proof {
                    lemma_update(s, at as int, info@);
                }
                self.entries[at] = (request_id, info);
                proof {
                    assert(self.entries() =~= s.update(at as int, (s[at as int].0, info@)));
                }
            },
            None => {
                proof {
                    lemma_absent(self.entries(), request_id);
                }
            },
        }
    }

    /// Removes the request, if present.
    pub fn remove(&mut self, request_id: u32)
        requires
            old(self).wf(),
        ensures
            final(self).wf(),
            final(self)@ == old(self)@.remove(request_id),
    {
        match self.find(request_id) {
            Some(at) => {
                let ghost s = self.entries();
                proof {
                    lemma_remove(s, at as int);
                }
                self.entries.remove(at);
                proof {
                    assert(self.entries() =~= s.remove(at as int));
                }
            },
            None => {
                proof {
                    lemma_absent(self.entries(), request_id);
                    assert(self@.remove(request_id) =~= self@);
                }
            },
        }
    }

    /// Whether the request is known and already marked transferred.
    pub fn is_transferred(&self, request_id: u32) -> (r: bool)
        requires
            self.wf(),
        ensures
            r == (self@.contains_key(request_id) && self@[request_id].is_transferred),
    {
        proof {
            lemma_contains(self.entries(), request_id);
        }
        match self.find(request_id) {
            Some(at) => {
                proof {
                    lemma_index(self.entries(), at as int);
                }
                self.entries[at].1.is_transferred
            },
            None => {
                proof {
                    lemma_absent(self.entries(), request_id);
                }
                false
            },
        }
    }
}

/// Law: pushing an order and reading it back under the same (sender, nonce)
/// yields that order; after a removal the key is absent, so a read yields
/// nothing.
pub proof fn law_store_round_trip(
    m: Map<(Seq<u8>, u32), SignedMintOrderV>,
    sender: Id256,
    nonce: u32,
    o: SignedMintOrderV,
)
    ensures
        m.insert(order_key(sender, nonce), o)[order_key(sender, nonce)] == o,
        !m.insert(order_key(sender, nonce), o).remove(order_key(sender, nonce)).contains_key(
            order_key(sender, nonce),
        ),
{
}

} // verus!
