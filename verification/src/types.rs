//! Plain value types shared across the bridge: chain identifiers, hashes,
//! and the error taxonomy.

use vstd::prelude::*;

verus! {

/// Compares two byte slices element by element.
pub fn bytes_eq(a: &[u8], b: &[u8]) -> (r: bool)
    ensures
        r == (a@ == b@),
{
    if a.len() != b.len() {
        assert(a@.len() != b@.len());
        return false;
    }
    let n = a.len();
    let mut i: usize = 0;
    while i < n
        invariant
            0 <= i <= n,
            n == a@.len() == b@.len(),
            forall|k: int| 0 <= k < i ==> a@[k] == b@[k],
        decreases n - i,
    {
        if a[i] != b[i] {
            return false;
        }
        i = i + 1;
    }
    proof {
        assert(a@ =~= b@);
    }
    true
}

/// Copies a byte vector; the copy has the same contents.
pub fn clone_bytes(v: &Vec<u8>) -> (r: Vec<u8>)
    ensures
        r@ == v@,
{
    let r = v.clone();
    proof {
        assert forall|i: int| 0 <= i < v@.len() implies r@[i] == v@[i] by {
            assert(vstd::pervasive::cloned::<u8>(v[i], r[i]));
        }
        assert(r@ =~= v@);
    }
    r
}

/// Copies a vector of byte vectors; the copy has the same contents.
pub fn clone_blobs(v: &Vec<Vec<u8>>) -> (r: Vec<Vec<u8>>)
    ensures
        r.deep_view() == v.deep_view(),
{
    let mut r: Vec<Vec<u8>> = Vec::new();
    let n = v.len();
    let mut i: usize = 0;
    while i < n
        invariant
            0 <= i <= n,
            n == v@.len(),
            r@.len() == i,
            forall|k: int| 0 <= k < i ==> #[trigger] r@[k]@ == v@[k]@,
        decreases n - i,
    {
        r.push(clone_bytes(&v[i]));
        i = i + 1;
    }
    proof {
        assert forall|k: int| 0 <= k < v@.len() implies r.deep_view()[k] == v.deep_view()[k] by {
            assert(r@[k].deep_view() =~= r@[k]@);
            assert(v@[k].deep_view() =~= v@[k]@);
        }
        assert(r.deep_view() =~= v.deep_view());
    }
    r
}

/// Copies a 32-byte slice into an array.
pub fn slice_to_array32(v: &[u8]) -> (r: [u8; 32])
    requires
        v@.len() == 32,
    ensures
        r@ == v@,
{
    let mut r = [0u8; 32];
    let mut i: usize = 0;
    while i < 32
        invariant
            0 <= i <= 32,
            v@.len() == 32,
            r@.len() == 32,
            forall|k: int| 0 <= k < i ==> r@[k] == v@[k],
        decreases 32 - i,
    {
        r[i] = v[i];
        i = i + 1;
    }
    proof {
        assert(r@ =~= v@);
    }
    r
}

/// Copies the bytes of a 32-byte array into a vector.
pub fn array32_to_vec(a: &[u8; 32]) -> (r: Vec<u8>)
    ensures
        r@ == a@,
{
    let mut r: Vec<u8> = Vec::new();
    let mut i: usize = 0;
    while i < 32
        invariant
            0 <= i <= 32,
            r@ =~= a@.subrange(0, i as int),
        decreases 32 - i,
    {
        r.push(a[i]);
        proof {
            assert(r@ =~= a@.subrange(0, i + 1 as int));
        }
        i = i + 1;
    }
    proof {
        assert(a@.subrange(0, 32) =~= a@);
    }
    r
}

/// Copies a 32-byte vector into an array.
pub fn vec_to_array32(v: &Vec<u8>) -> (r: [u8; 32])
    requires
        v@.len() == 32,
    ensures
        r@ == v@,
{
    let mut r = [0u8; 32];
    let mut i: usize = 0;
    while i < 32
        invariant
            0 <= i <= 32,
            v@.len() == 32,
            r@.len() == 32,
            forall|k: int| 0 <= k < i ==> r@[k] == v@[k],
        decreases 32 - i,
    {
        r[i] = v[i];
        i = i + 1;
    }
    proof {
        assert(r@ =~= v@);
    }
    r
}

/// A 20-byte EVM account or contract address.
#[derive(Clone, Copy, Debug)]
pub struct H160 {
    pub bytes: [u8; 20],
}

/// A 32-byte EVM transaction hash.
#[derive(Clone, Copy, Debug)]
pub struct H256 {
    pub bytes: [u8; 32],
}

/// A 32-byte identifier that encodes a chain id together with an address or
/// principal, used to key mint orders by sender and by source token.
#[derive(Clone, Copy, Debug)]
pub struct Id256 {
    pub bytes: [u8; 32],
}

impl PartialEq for H160 {
    fn eq(&self, o: &H160) -> (r: bool) {
        bytes_eq(self.bytes.as_slice(), o.bytes.as_slice())
    }
}

impl vstd::std_specs::cmp::PartialEqSpecImpl for H160 {
    open spec fn obeys_eq_spec() -> bool {
        true
    }

    open spec fn eq_spec(&self, o: &H160) -> bool {
        self.bytes@ == o.bytes@
    }
}

impl PartialEq for H256 {
    fn eq(&self, o: &H256) -> (r: bool) {
        bytes_eq(self.bytes.as_slice(), o.bytes.as_slice())
    }
}

impl vstd::std_specs::cmp::PartialEqSpecImpl for H256 {
    open spec fn obeys_eq_spec() -> bool {
        true
    }

    open spec fn eq_spec(&self, o: &H256) -> bool {
        self.bytes@ == o.bytes@
    }
}

impl PartialEq for Id256 {
    fn eq(&self, o: &Id256) -> (r: bool) {
        bytes_eq(self.bytes.as_slice(), o.bytes.as_slice())
    }
}

impl vstd::std_specs::cmp::PartialEqSpecImpl for Id256 {
    open spec fn obeys_eq_spec() -> bool {
        true
    }

    open spec fn eq_spec(&self, o: &Id256) -> bool {
        self.bytes@ == o.bytes@
    }
}

impl H160 {
    /// The all-zero address, used as a placeholder destination.
    pub fn zero() -> (r: H160)
        ensures
            r.bytes@ =~= Seq::new(20, |i: int| 0u8),
    {
        H160 { bytes: [0u8; 20] }
    }
}

impl Id256 {
    /// Reads a 32-byte identifier from raw bytes; any other length is
    /// rejected.
    pub fn from_slice(v: &[u8]) -> (r: Option<Id256>)
        ensures
            v@.len() == 32 ==> (r matches Some(id) && id.bytes@ == v@),
            v@.len() != 32 ==> r is None,
    {
        if v.len() == 32 {
            Some(Id256 { bytes: slice_to_array32(v) })
        } else {
            None
        }
    }
}

/// The Bitcoin-style network a value belongs to.
#[derive(Clone, Copy, Debug, PartialEq, Eq, Structural)]
pub enum Network {
    Bitcoin,
    Testnet,
    Signet,
    Regtest,
}

/// A number for each network, used where a specification needs a plain
/// value.
pub open spec fn network_code(n: Network) -> int {
    match n {
        Network::Bitcoin => 0,
        Network::Testnet => 1,
        Network::Signet => 2,
        Network::Regtest => 3,
    }
}

/// Why a bridge operation failed.
#[derive(Debug)]
pub enum BridgeError {
    /// The EVM parameters were never initialized: the bridge is not
    /// bootstrapped yet.
    NotInitialized(String),
    /// The requested amount does not cover the configured minter fee.
    ValueTooSmall(String),
    /// The inscription payload was malformed or unrecognized.
    InvalidInscription(String),
    /// An address string could not be parsed or belongs to another network.
    MalformedAddress(String),
    /// The external signer refused or failed to sign.
    SigningFailed(String),
    /// Broadcasting a transaction to a chain failed.
    ChainSendFailed(String),
    /// Not enough spendable UTXOs to cover the requested amount.
    UtxoUnavailable(String),
    /// A referenced operation or inscription is absent.
    NotFound(String),
    /// A scheduler task handler reported an error.
    TaskExecutionFailed(String),
}

/// Data of a `Minted` log of the bridge contract: a mint order was executed
/// on chain, so the stored order can be dropped.
#[derive(Debug)]
pub struct MintedEventData {
    pub amount: u128,
    pub sender_id: Vec<u8>,
    pub nonce: u32,
}

/// The mathematical contents of a `MintedEventData`.
pub struct MintedEventV {
    pub amount: u128,
    pub sender_id: Seq<u8>,
    pub nonce: u32,
}

impl View for MintedEventData {
    type V = MintedEventV;

    open spec fn view(&self) -> MintedEventV {
        MintedEventV { amount: self.amount, sender_id: self.sender_id@, nonce: self.nonce }
    }
}

/// Data of a `Burnt` log of the bridge contract: wrapped tokens were burned
/// and the named recipient is owed an outbound transfer.
#[derive(Debug)]
pub struct BurntEventData {
    pub operation_id: u32,
    pub amount: u128,
    pub recipient_id: Vec<u8>,
    pub to_token: Vec<u8>,
}

/// The mathematical contents of a `BurntEventData`.
pub struct BurntEventV {
    pub operation_id: u32,
    pub amount: u128,
    pub recipient_id: Seq<u8>,
    pub to_token: Seq<u8>,
}

impl View for BurntEventData {
    type V = BurntEventV;

    open spec fn view(&self) -> BurntEventV {
        BurntEventV {
            operation_id: self.operation_id,
            amount: self.amount,
            recipient_id: self.recipient_id@,
            to_token: self.to_token@,
        }
    }
}

/// Copies a minted-event record; the copy has the same contents.
pub fn clone_minted_event(e: &MintedEventData) -> (r: MintedEventData)
    ensures
        r@ == e@,
{
    MintedEventData { amount: e.amount, sender_id: clone_bytes(&e.sender_id), nonce: e.nonce }
}

/// Copies a burnt-event record; the copy has the same contents.
pub fn clone_burnt_event(e: &BurntEventData) -> (r: BurntEventData)
    ensures
        r@ == e@,
{
    BurntEventData {
        operation_id: e.operation_id,
        amount: e.amount,
        recipient_id: clone_bytes(&e.recipient_id),
        to_token: clone_bytes(&e.to_token),
    }
}

} // verus!
