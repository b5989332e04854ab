//! The ledger of UTXOs owned by the bridge.
//!
//! Spendable candidates live in `utxo_storage`; a reservation in
//! `used_utxos_registry` marks a UTXO as claimed by an in-flight spend
//! without removing it from the spendable map (two-phase commit: reserve
//! before broadcast, then finalize on success or release on failure).

use vstd::prelude::*;

use crate::assoc::{lemma_absent, lemma_index, lemma_push, lemma_remove, lemma_update, pairs_map,
    unique_keys};
use crate::types::{array32_to_vec, bytes_eq, clone_blobs, clone_bytes};

verus! {

/// Largest locking script the ledger stores, in bytes.
pub const MAX_SCRIPT_SIZE: usize = 128;

/// Largest owner address string a reservation stores, in bytes.
pub const MAX_BITCOIN_ADDRESS_SIZE: usize = 42;

/// Largest encoded derivation path the ledger stores, in bytes.
pub const MAX_DERIVATION_PATH_SIZE: usize = 128;

/// Identifies one UTXO: the transaction that created it and the output index.
#[derive(Clone, Copy, Debug)]
pub struct UtxoKey {
    pub tx_id: [u8; 32],
    pub vout: u32,
}

/// The mathematical identity of a key: its bytes and output index.
pub open spec fn key_view(k: UtxoKey) -> (Seq<u8>, u32) {
    (k.tx_id@, k.vout)
}

impl PartialEq for UtxoKey {
    fn eq(&self, o: &UtxoKey) -> (r: bool) {
        bytes_eq(self.tx_id.as_slice(), o.tx_id.as_slice()) && self.vout == o.vout
    }
}

impl vstd::std_specs::cmp::PartialEqSpecImpl for UtxoKey {
    open spec fn obeys_eq_spec() -> bool {
        true
    }

    open spec fn eq_spec(&self, o: &UtxoKey) -> bool {
        key_view(*self) == key_view(*o)
    }
}

/// Compares two keys by value.
pub fn key_eq(a: &UtxoKey, b: &UtxoKey) -> (r: bool)
    ensures
        r == (key_view(*a) == key_view(*b)),
{
    let same = bytes_eq(a.tx_id.as_slice(), b.tx_id.as_slice()) && a.vout == b.vout;
    proof {
        if same {
            assert(key_view(*a) == key_view(*b));
        }
    }
    same
}

/// What a spendable UTXO record holds: its value, the locking script of the
/// owning address, and the signing derivation path.
#[derive(Debug)]
pub struct UtxoDetails {
    pub value: u64,
    pub script_buf: Vec<u8>,
    pub derivation_path: Vec<Vec<u8>>,
}

/// The mathematical contents of a `UtxoDetails`.
pub struct UtxoDetailsV {
    pub value: u64,
    pub script: Seq<u8>,
    pub path: Seq<Seq<u8>>,
}

impl View for UtxoDetails {
    type V = UtxoDetailsV;

    open spec fn view(&self) -> UtxoDetailsV {
        UtxoDetailsV {
            value: self.value,
            script: self.script_buf@,
            path: self.derivation_path.deep_view(),
        }
    }
}

/// A reservation: when the spend attempt began and the address it pays.
#[derive(Debug)]
pub struct UsedUtxoDetails {
    pub used_at: u64,
    pub owner_address: String,
}

/// The mathematical contents of a `UsedUtxoDetails`.
pub struct UsedUtxoV {
    pub used_at: u64,
    pub owner: Seq<char>,
}

impl View for UsedUtxoDetails {
    type V = UsedUtxoV;

    open spec fn view(&self) -> UsedUtxoV {
        UsedUtxoV { used_at: self.used_at, owner: self.owner_address@ }
    }
}

/// One output of the host's UTXO query, already reduced to plain values.
#[derive(Debug)]
pub struct Outpoint {
    pub txid: Vec<u8>,
    pub vout: u32,
}

/// A UTXO as reported by the host chain query.
#[derive(Debug)]
pub struct Utxo {
    pub outpoint: Outpoint,
    pub value: u64,
    pub height: u32,
}

/// The mathematical identity of a deposited UTXO.
pub open spec fn utxo_key_view(u: Utxo) -> (Seq<u8>, u32) {
    (u.outpoint.txid@, u.outpoint.vout)
}

/// Everything a new spending transaction needs to know about one input.
#[derive(Debug)]
pub struct TxInputInfo {
    pub outpoint: Outpoint,
    pub value: u64,
    pub script_pubkey: Vec<u8>,
    pub derivation_path: Vec<Vec<u8>>,
}

/// The ledger's mathematical state: the spendable map and the reservation map.
pub struct LedgerView {
    pub available: Map<(Seq<u8>, u32), UtxoDetailsV>,
    pub reserved: Map<(Seq<u8>, u32), UsedUtxoV>,
}

/// Reserving marks a present key in the reservation map and touches nothing
/// else; reserving an absent key changes nothing.
pub open spec fn spec_reserve(v: LedgerView, k: (Seq<u8>, u32), u: UsedUtxoV) -> LedgerView {
    if v.available.contains_key(k) {
        LedgerView { available: v.available, reserved: v.reserved.insert(k, u) }
    } else {
        v
    }
}

/// Releasing drops only the reservation, returning the UTXO to the pool.
pub open spec fn spec_release(v: LedgerView, k: (Seq<u8>, u32)) -> LedgerView {
    LedgerView { available: v.available, reserved: v.reserved.remove(k) }
}

/// Finalizing a spent UTXO removes it from both maps.
pub open spec fn spec_finalize(v: LedgerView, k: (Seq<u8>, u32)) -> LedgerView {
    LedgerView { available: v.available.remove(k), reserved: v.reserved.remove(k) }
}

/// The map after depositing a batch: each input key now holds a record with
/// that input's value and the given script and path; a later duplicate wins.
pub open spec fn spec_deposit(
    m: Map<(Seq<u8>, u32), UtxoDetailsV>,
    utxos: Seq<(Seq<u8>, u32, u64)>,
    script: Seq<u8>,
    path: Seq<Seq<u8>>,
) -> Map<(Seq<u8>, u32), UtxoDetailsV>
    decreases utxos.len(),
{
    if utxos.len() == 0 {
        m
    } else {
        let last = utxos.last();
        spec_deposit(m, utxos.drop_last(), script, path).insert(
            (last.0, last.1),
            UtxoDetailsV { value: last.2, script, path },
        )
    }
}

/// Tracks the UTXOs the bridge owns and which of them are reserved.
pub struct UtxoLedger {
    utxo_storage: Vec<(UtxoKey, UtxoDetails)>,
    used_utxos_registry: Vec<(UtxoKey, UsedUtxoDetails)>,
}

/// The entries of the spendable store, as key-view/value-view pairs.
pub open spec fn utxo_entry_views(s: Seq<(UtxoKey, UtxoDetails)>) -> Seq<
    ((Seq<u8>, u32), UtxoDetailsV),
> {
    s.map(|i: int, e: (UtxoKey, UtxoDetails)| (key_view(e.0), e.1@))
}

/// The entries of the reservation registry, as key-view/value-view pairs.
pub open spec fn used_entry_views(s: Seq<(UtxoKey, UsedUtxoDetails)>) -> Seq<
    ((Seq<u8>, u32), UsedUtxoV),
> {
    s.map(|i: int, e: (UtxoKey, UsedUtxoDetails)| (key_view(e.0), e.1@))
}

impl View for UtxoLedger {
    type V = LedgerView;

    open spec fn view(&self) -> LedgerView {
        LedgerView {
            available: pairs_map(self.utxo_entries()),
            reserved: pairs_map(self.used_entries()),
        }
    }
}

impl UtxoLedger {
    /// The entries of the spendable store, in storage order.
    pub closed spec fn utxo_entries(&self) -> Seq<((Seq<u8>, u32), UtxoDetailsV)> {
        utxo_entry_views(self.utxo_storage@)
    }

    /// The entries of the reservation registry, in storage order.
    pub closed spec fn used_entries(&self) -> Seq<((Seq<u8>, u32), UsedUtxoV)> {
        used_entry_views(self.used_utxos_registry@)
    }

    /// Both stores hold pairwise distinct keys and respect the size bounds.
    pub open spec fn wf(&self) -> bool {
        &&& unique_keys(self.utxo_entries())
        &&& unique_keys(self.used_entries())
        &&& forall|i: int|
            0 <= i < self.utxo_entries().len() ==> {
                &&& (#[trigger] self.utxo_entries()[i]).0.0.len() == 32
                &&& self.utxo_entries()[i].1.script.len() <= MAX_SCRIPT_SIZE
            }
        &&& forall|i: int|
            0 <= i < self.used_entries().len() ==> {
                &&& (#[trigger] self.used_entries()[i]).0.0.len() == 32
                &&& self.used_entries()[i].1.owner.len() <= MAX_BITCOIN_ADDRESS_SIZE
            }
    }

    /// A fresh, empty ledger.
    pub fn new() -> (r: UtxoLedger)
        ensures
            r.wf(),
            r@.available == Map::<(Seq<u8>, u32), UtxoDetailsV>::empty(),
            r@.reserved == Map::<(Seq<u8>, u32), UsedUtxoV>::empty(),
    {
        UtxoLedger { utxo_storage: Vec::new(), used_utxos_registry: Vec::new() }
    }

    fn find_utxo(&self, key: &UtxoKey) -> (r: Option<usize>)
        ensures
            match r {
                Some(i) => i < self.utxo_storage@.len() && key_view(
                    self.utxo_storage@[i as int].0,
                ) == key_view(*key),
                None => forall|i: int|
                    0 <= i < self.utxo_storage@.len() ==> key_view(
                        (#[trigger] self.utxo_storage@[i]).0,
                    ) != key_view(*key),
            },
    {
        let n = self.utxo_storage.len();
        let mut i: usize = 0;
        while i < n
            invariant
                0 <= i <= n,
                n == self.utxo_storage@.len(),
                forall|k: int|
                    0 <= k < i ==> key_view((#[trigger] self.utxo_storage@[k]).0) != key_view(
                        *key,
                    ),
            decreases n - i,
        {
            if key_eq(&self.utxo_storage[i].0, key) {
                return Some(i);
            }
            i = i + 1;
        }
        None
    }

    fn find_used(&self, key: &UtxoKey) -> (r: Option<usize>)
        ensures
            match r {
                Some(i) => i < self.used_utxos_registry@.len() && key_view(
                    self.used_utxos_registry@[i as int].0,
                ) == key_view(*key),
                None => forall|i: int|
                    0 <= i < self.used_utxos_registry@.len() ==> key_view(
                        (#[trigger] self.used_utxos_registry@[i]).0,
                    ) != key_view(*key),
            },
    {
        let n = self.used_utxos_registry.len();
        let mut i: usize = 0;
        while i < n
            invariant
                0 <= i <= n,
                n == self.used_utxos_registry@.len(),
                forall|k: int|
                    0 <= k < i ==> key_view((#[trigger] self.used_utxos_registry@[k]).0)
                        != key_view(*key),
            decreases n - i,
        {
            if key_eq(&self.used_utxos_registry[i].0, key) {
                return Some(i);
            }
            i = i + 1;
        }
        None
    }

    /// Adds one record per input UTXO, associating the locking script of the
    /// owning address and the signing derivation path. Depositing a key that
    /// is already present overwrites its record.
    pub fn deposit(&mut self, utxos: &Vec<Utxo>, script: &Vec<u8>, derivation_path: &Vec<Vec<u8>>)
        requires
            old(self).wf(),
            forall|i: int| 0 <= i < utxos@.len() ==> (#[trigger] utxos@[i]).outpoint.txid@.len()
                == 32,
            script@.len() <= MAX_SCRIPT_SIZE,
        ensures
            final(self).wf(),
            final(self)@.available == spec_deposit(
                old(self)@.available,
                utxos@.map(|i: int, u: Utxo| (u.outpoint.txid@, u.outpoint.vout, u.value)),
                script@,
                derivation_path.deep_view(),
            ),
            final(self)@.reserved == old(self)@.reserved,
    {
        let ghost inputs = utxos@.map(
            |i: int, u: Utxo| (u.outpoint.txid@, u.outpoint.vout, u.value),
        );
        let n = utxos.len();
        let mut i: usize = 0;
        while i < n
            invariant
                self.wf(),
                n == utxos@.len(),
                0 <= i <= n,
                forall|k: int| 0 <= k < utxos@.len() ==> (#[trigger] utxos@[k]).outpoint.txid@.len()
                    == 32,
                script@.len() <= MAX_SCRIPT_SIZE,
                inputs == utxos@.map(
                    |k: int, u: Utxo| (u.outpoint.txid@, u.outpoint.vout, u.value),
                ),
                self@.available == spec_deposit(
                    old(self)@.available,
                    inputs.subrange(0, i as int),
                    script@,
                    derivation_path.deep_view(),
                ),
                self@.reserved == old(self)@.reserved,
            decreases n - i,
        {
            let utxo = &utxos[i];
            let key = UtxoKey { tx_id: crate::types::vec_to_array32(&utxo.outpoint.txid), vout: utxo.outpoint.vout };
            let details = UtxoDetails {
                value: utxo.value,
                script_buf: clone_bytes(script),
                derivation_path: clone_blobs(derivation_path),
            };
            proof {
                assert(key_view(key) == (inputs[i as int].0, inputs[i as int].1));
                assert(inputs.subrange(0, i + 1 as int).drop_last() =~= inputs.subrange(
                    0,
                    i as int,
                ));
                assert(inputs.subrange(0, i + 1 as int).last() == inputs[i as int]);
            }
            match self.find_utxo(&key) {
                Some(at) => {
                    let ghost s = utxo_entry_views(self.utxo_storage@);
                    proof {
                        assert(s[at as int].0 == key_view(key));
                        lemma_update(s, at as int, details@);
                    }
                    self.utxo_storage[at] = (key, details);
                    proof {
                        assert(utxo_entry_views(self.utxo_storage@) =~= s.update(
                            at as int,
                            (s[at as int].0, details@),
                        ));
                    }
                },
                None => {
                    let ghost s = utxo_entry_views(self.utxo_storage@);
                    proof {
                        lemma_push(s, key_view(key), details@);
                    }
                    self.utxo_storage.push((key, details));
                    proof {
                        assert(utxo_entry_views(self.utxo_storage@) =~= s.push(
                            (key_view(key), details@),
                        ));
                        assert(unique_keys(utxo_entry_views(self.utxo_storage@)));
                    }
                },
            }
            i = i + 1;
        }
        proof {
            assert(inputs.subrange(0, n as int) =~= inputs);
        }
    }

    /// Lists every UTXO in the store as transaction-input-ready data,
    /// including UTXOs that are currently reserved, in storage
    /// (insertion) order: callers that need an order sort, callers that
    /// need exclusivity cross-reference the reservations.
    pub fn load_all(&self) -> (r: (Vec<UtxoKey>, Vec<TxInputInfo>))
        requires
            self.wf(),
        ensures
            r.0@.len() == self.utxo_entries().len(),
            r.1@.len() == self.utxo_entries().len(),
            forall|i: int|
                0 <= i < r.0@.len() ==> key_view(#[trigger] r.0@[i]) == self.utxo_entries()[i].0,
            forall|i: int|
                0 <= i < r.1@.len() ==> {
                    &&& (#[trigger] r.1@[i]).outpoint.txid@ == self.utxo_entries()[i].0.0
                    &&& r.1@[i].outpoint.vout == self.utxo_entries()[i].0.1
                    &&& r.1@[i].value == self.utxo_entries()[i].1.value
                    &&& r.1@[i].script_pubkey@ == self.utxo_entries()[i].1.script
                    &&& r.1@[i].derivation_path.deep_view() == self.utxo_entries()[i].1.path
                },
    {
        let mut keys: Vec<UtxoKey> = Vec::new();
        let mut infos: Vec<TxInputInfo> = Vec::new();
        let n = self.utxo_storage.len();
        let mut i: usize = 0;
        while i < n
            invariant
                0 <= i <= n,
                n == self.utxo_storage@.len(),
                keys@.len() == i,
                infos@.len() == i,
                forall|k: int|
                    0 <= k < i ==> key_view(#[trigger] keys@[k]) == key_view(
                        self.utxo_storage@[k].0,
                    ),
                forall|k: int|
                    0 <= k < i ==> {
                        &&& (#[trigger] infos@[k]).outpoint.txid@
                            == self.utxo_storage@[k].0.tx_id@
                        &&& infos@[k].outpoint.vout == self.utxo_storage@[k].0.vout
                        &&& infos@[k].value == self.utxo_storage@[k].1.value
                        &&& infos@[k].script_pubkey@ == self.utxo_storage@[k].1.script_buf@
                        &&& infos@[k].derivation_path.deep_view()
                            == self.utxo_storage@[k].1.derivation_path.deep_view()
                    },
            decreases n - i,
        {
            let entry = &self.utxo_storage[i];
            keys.push(entry.0);
            infos.push(
                TxInputInfo {
                    outpoint: Outpoint { txid: array32_to_vec(&entry.0.tx_id), vout: entry.0.vout },
                    value: entry.1.value,
                    script_pubkey: clone_bytes(&entry.1.script_buf),
                    derivation_path: clone_blobs(&entry.1.derivation_path),
                },
            );
            i = i + 1;
        }
        (keys, infos)
    }

    /// Marks the UTXO as used: records who reserved it and when. Fails,
    /// changing nothing, when the key is not in the spendable store;
    /// re-reserving a present key overwrites the reservation.
    pub fn mark_as_used(&mut self, key: UtxoKey, address: String, now: u64) -> (r: bool)
        requires
            old(self).wf(),
            key.tx_id@.len() == 32,
            address@.len() <= MAX_BITCOIN_ADDRESS_SIZE,
        ensures
            final(self).wf(),
            r == old(self)@.available.contains_key(key_view(key)),
            final(self)@ == spec_reserve(
                old(self)@,
                key_view(key),
                UsedUtxoV { used_at: now, owner: address@ },
            ),
    {
        proof {
            crate::assoc::lemma_contains(utxo_entry_views(self.utxo_storage@), key_view(key));
        }
        match self.find_utxo(&key) {
            None => {
                proof {
                    lemma_absent(utxo_entry_views(self.utxo_storage@), key_view(key));
                }
                false
            },
            Some(at) => {
                proof {
                    assert(utxo_entry_views(self.utxo_storage@)[at as int].0 == key_view(key));
                }
                let record = UsedUtxoDetails { used_at: now, owner_address: address };
                match self.find_used(&key) {
                    Some(u) => {
                        let ghost s = used_entry_views(self.used_utxos_registry@);
                        proof {
                            assert(s[u as int].0 == key_view(key));
                            lemma_update(s, u as int, record@);
                        }
                        self.used_utxos_registry[u] = (key, record);
                        proof {
                            assert(used_entry_views(self.used_utxos_registry@) =~= s.update(
                                u as int,
                                (s[u as int].0, record@),
                            ));
                        }
                    },
                    None => {
                        let ghost s = used_entry_views(self.used_utxos_registry@);
                        proof {
                            lemma_push(s, key_view(key), record@);
                        }
                        self.used_utxos_registry.push((key, record));
                        proof {
                            assert(used_entry_views(self.used_utxos_registry@) =~= s.push(
                                (key_view(key), record@),
                            ));
                            assert(unique_keys(used_entry_views(self.used_utxos_registry@)));
                        }
                    },
                }
                true
            },
        }
    }

    /// Lists all currently reserved UTXOs with their reservation
    /// metadata, in storage (insertion) order.
    pub fn load_used_utxos(&self) -> (r: Vec<(UtxoKey, UsedUtxoDetails)>)
        requires
            self.wf(),
        ensures
            r@.len() == self.used_entries().len(),
            forall|i: int|
                0 <= i < r@.len() ==> {
                    &&& key_view((#[trigger] r@[i]).0) == self.used_entries()[i].0
                    &&& r@[i].1@ == self.used_entries()[i].1
                },
    {
        let mut out: Vec<(UtxoKey, UsedUtxoDetails)> = Vec::new();
        let n = self.used_utxos_registry.len();
        let mut i: usize = 0;
        while i < n
            invariant
                0 <= i <= n,
                n == self.used_utxos_registry@.len(),
                out@.len() == i,
                forall|k: int|
                    0 <= k < i ==> {
                        &&& key_view((#[trigger] out@[k]).0) == key_view(
                            self.used_utxos_registry@[k].0,
                        )
                        &&& out@[k].1@ == self.used_utxos_registry@[k].1@
                    },
            decreases n - i,
        {
            let entry = &self.used_utxos_registry[i];
            let record = UsedUtxoDetails {
                used_at: entry.1.used_at,
                owner_address: entry.1.owner_address.clone(),
            };
            out.push((entry.0, record));
            i = i + 1;
        }
        out
    }

    /// Removes the spent UTXO from both the spendable store and the
    /// reservation registry; called only after the spending transaction was
    /// confirmed sent.
    pub fn remove_spent_utxo(&mut self, key: &UtxoKey)
        requires
            old(self).wf(),
        ensures
            final(self).wf(),
            final(self)@ == spec_finalize(old(self)@, key_view(*key)),
    {
        match self.find_utxo(key) {
            Some(at) => {
                let ghost s = utxo_entry_views(self.utxo_storage@);
                proof {
                    assert(s[at as int].0 == key_view(*key));
                    lemma_remove(s, at as int);
                }
                self.utxo_storage.remove(at);
                proof {
                    assert(utxo_entry_views(self.utxo_storage@) =~= s.remove(at as int));
                }
            },
            None => {
                proof {
                    lemma_absent(utxo_entry_views(self.utxo_storage@), key_view(*key));
                    assert(pairs_map(utxo_entry_views(self.utxo_storage@)).remove(key_view(*key))
                        =~= pairs_map(utxo_entry_views(self.utxo_storage@)));
                }
            },
        }
        self.remove_unspent_only(key);
    }

    /// Removes only the reservation, returning the UTXO to the spendable
    /// pool; called when a spend attempt fails before broadcast.
    pub fn remove_unspent_utxo(&mut self, key: &UtxoKey)
        requires
            old(self).wf(),
        ensures
            final(self).wf(),
            final(self)@ == spec_release(old(self)@, key_view(*key)),
    {
        self.remove_unspent_only(key);
    }

    /// Whether the key currently carries a reservation.
    pub fn is_reserved(&self, key: &UtxoKey) -> (r: bool)
        requires
            self.wf(),
        ensures
            r == self@.reserved.contains_key(key_view(*key)),
    {
        proof {
            crate::assoc::lemma_contains(self.used_entries(), key_view(*key));
        }
        match self.find_used(key) {
            Some(at) => {
                proof {
                    lemma_index(self.used_entries(), at as int);
                }
                true
            },
            None => {
                proof {
                    lemma_absent(self.used_entries(), key_view(*key));
                }
                false
            },
        }
    }

    fn remove_unspent_only(&mut self, key: &UtxoKey)
        requires
            old(self).wf(),
        ensures
            final(self).wf(),
            final(self).utxo_storage == old(self).utxo_storage,
            final(self)@.available == old(self)@.available,
            final(self)@.reserved == old(self)@.reserved.remove(key_view(*key)),
    {
        match self.find_used(key) {
            Some(at) => {
                let ghost s = used_entry_views(self.used_utxos_registry@);
                proof {
                    assert(s[at as int].0 == key_view(*key));
                    lemma_remove(s, at as int);
                }
                self.used_utxos_registry.remove(at);
                proof {
                    assert(used_entry_views(self.used_utxos_registry@) =~= s.remove(at as int));
                }
            },
            None => {
                proof {
                    lemma_absent(used_entry_views(self.used_utxos_registry@), key_view(*key));
                    assert(pairs_map(used_entry_views(self.used_utxos_registry@)).remove(
                        key_view(*key),
                    ) =~= pairs_map(used_entry_views(self.used_utxos_registry@)));
                }
            },
        }
    }
}

/// Law: reserving a key and then releasing it leaves the spendable map --
/// everything `load_all` observes -- exactly as it was; if the key carried
/// no reservation before, the whole ledger state is restored.
pub proof fn law_reserve_release_round_trip(v: LedgerView, k: (Seq<u8>, u32), u: UsedUtxoV)
    ensures
        spec_release(spec_reserve(v, k, u), k).available == v.available,
        !v.reserved.contains_key(k) ==> spec_release(spec_reserve(v, k, u), k) == v,
{
    if v.available.contains_key(k) {
        assert(v.reserved.insert(k, u).remove(k) =~= v.reserved.remove(k));
    }
    if !v.reserved.contains_key(k) {
        assert(v.reserved.remove(k) =~= v.reserved);
        if v.available.contains_key(k) {
            assert(v.reserved.insert(k, u).remove(k) =~= v.reserved);
        }
    }
}

/// Law: reserving a key and then finalizing it as spent removes the key
/// from both maps, and a later attempt to reserve the same key changes
/// nothing, whatever metadata it carries.
pub proof fn law_reserve_finalize_removes(
    v: LedgerView,
    k: (Seq<u8>, u32),
    u: UsedUtxoV,
    u2: UsedUtxoV,
)
    ensures
        !spec_finalize(spec_reserve(v, k, u), k).available.contains_key(k),
        !spec_finalize(spec_reserve(v, k, u), k).reserved.contains_key(k),
        spec_reserve(spec_finalize(spec_reserve(v, k, u), k), k, u2) == spec_finalize(
            spec_reserve(v, k, u),
            k,
        ),
{
}

/// Law: reserving and releasing never change the spendable map, so what
/// `load_all` returns stays the deposited set until a finalized spend
/// removes an entry.
pub proof fn law_available_stable_under_reservation(
    v: LedgerView,
    k: (Seq<u8>, u32),
    u: UsedUtxoV,
)
    ensures
        spec_reserve(v, k, u).available == v.available,
        spec_release(v, k).available == v.available,
{
}

/// Law: depositing writes exactly the batch's keys; any other key keeps
/// the record -- or the absence -- it had before.
pub proof fn law_deposit_preserves_others(
    m: Map<(Seq<u8>, u32), UtxoDetailsV>,
    utxos: Seq<(Seq<u8>, u32, u64)>,
    script: Seq<u8>,
    path: Seq<Seq<u8>>,
    k: (Seq<u8>, u32),
)
    requires
        forall|i: int| 0 <= i < utxos.len() ==> ((#[trigger] utxos[i]).0, utxos[i].1) != k,
    ensures
        spec_deposit(m, utxos, script, path).contains_key(k) == m.contains_key(k),
        m.contains_key(k) ==> spec_deposit(m, utxos, script, path)[k] == m[k],
    decreases utxos.len(),
{
    if utxos.len() > 0 {
        law_deposit_preserves_others(m, utxos.drop_last(), script, path, k);
        assert((utxos.last().0, utxos.last().1) != k);
    }
}

/// Law: after a deposit, a key whose last occurrence in the batch is entry
/// `i` holds exactly that entry's value with the batch's script and path.
pub proof fn law_deposit_writes_batch(
    m: Map<(Seq<u8>, u32), UtxoDetailsV>,
    utxos: Seq<(Seq<u8>, u32, u64)>,
    script: Seq<u8>,
    path: Seq<Seq<u8>>,
    i: int,
)
    requires
        0 <= i < utxos.len(),
        forall|j: int|
            i < j < utxos.len() ==> ((#[trigger] utxos[j]).0, utxos[j].1) != (
                utxos[i].0,
                utxos[i].1,
            ),
    ensures
        spec_deposit(m, utxos, script, path).contains_key((utxos[i].0, utxos[i].1)),
        spec_deposit(m, utxos, script, path)[(utxos[i].0, utxos[i].1)] == (UtxoDetailsV {
            value: utxos[i].2,
            script,
            path,
        }),
    decreases utxos.len(),
{
    if i == utxos.len() - 1 {
    } else {
        assert(utxos.drop_last()[i] == utxos[i]);
        law_deposit_writes_batch(m, utxos.drop_last(), script, path, i);
        assert((utxos.last().0, utxos.last().1) != (utxos[i].0, utxos[i].1));
    }
}

/// Law: on a well-formed ledger the entry list that `load_all` reports and
/// the spendable map agree item for item, so the listing is exactly the
/// deposited set.
pub proof fn law_load_all_exact(led: UtxoLedger)
    requires
        led.wf(),
    ensures
        forall|i: int|
            0 <= i < led.utxo_entries().len() ==> {
                &&& led@.available.contains_key((#[trigger] led.utxo_entries()[i]).0)
                &&& led@.available[led.utxo_entries()[i].0] == led.utxo_entries()[i].1
            },
        forall|k: (Seq<u8>, u32)|
            led@.available.contains_key(k) ==> exists|i: int|
                0 <= i < led.utxo_entries().len() && (#[trigger] led.utxo_entries()[i]).0 == k,
{
    assert forall|i: int| 0 <= i < led.utxo_entries().len() implies {
        &&& led@.available.contains_key((#[trigger] led.utxo_entries()[i]).0)
        &&& led@.available[led.utxo_entries()[i].0] == led.utxo_entries()[i].1
    } by {
        lemma_index(led.utxo_entries(), i);
    }
    assert forall|k: (Seq<u8>, u32)| led@.available.contains_key(k) implies exists|i: int|
        0 <= i < led.utxo_entries().len() && (#[trigger] led.utxo_entries()[i]).0 == k by {
        crate::assoc::lemma_contains(led.utxo_entries(), k);
    }
}

} // verus!
