//! Byte layouts of the persisted records, with their size bounds
//! enforced at encode time: a key is exactly thirty-six bytes; a UTXO
//! record and a reservation record stay within fixed budgets.

use vstd::prelude::*;

use crate::hexstr::{encode_hex, spec_hex};
use crate::ledger::{key_view, UsedUtxoDetails, UtxoDetails, UtxoDetailsV, UtxoKey,
    MAX_BITCOIN_ADDRESS_SIZE, MAX_DERIVATION_PATH_SIZE, MAX_SCRIPT_SIZE};
use crate::ops::spec_u32_be;

verus! {

/// The encoded size of a key: thirty-two id bytes and four index bytes.
pub const UTXO_KEY_SIZE: usize = 36;

/// The size budget of an encoded UTXO record.
pub const UTXO_DETAILS_BOUND: usize = 266;

/// The big-endian bytes of a 64-bit value.
pub open spec fn spec_u64_be(x: u64) -> Seq<u8> {
    seq![
        (x >> 56) as u8,
        ((x >> 48) & 0xff) as u8,
        ((x >> 40) & 0xff) as u8,
        ((x >> 32) & 0xff) as u8,
        ((x >> 24) & 0xff) as u8,
        ((x >> 16) & 0xff) as u8,
        ((x >> 8) & 0xff) as u8,
        (x & 0xff) as u8,
    ]
}

/// The bytes a key persists as: the transaction id, then the output
/// index in big-endian.
pub open spec fn spec_key_bytes(k: UtxoKey) -> Seq<u8> {
    k.tx_id@ + spec_u32_be(k.vout)
}

/// Keys with the same encoding are the same key.
pub proof fn lemma_key_bytes_injective(k1: UtxoKey, k2: UtxoKey)
    requires
        spec_key_bytes(k1) == spec_key_bytes(k2),
    ensures
        key_view(k1) == key_view(k2),
{
    let s1 = spec_key_bytes(k1);
    let s2 = spec_key_bytes(k2);
    assert forall|i: int| 0 <= i < 32 implies k1.tx_id@[i] == k2.tx_id@[i] by {
        assert(s1[i] == k1.tx_id@[i]);
        assert(s2[i] == k2.tx_id@[i]);
    }
    assert(k1.tx_id@ =~= k2.tx_id@);
    let a = k1.vout;
    let b = k2.vout;
    assert(spec_key_bytes(k1)[32] == (a >> 24) as u8);
    assert(spec_key_bytes(k2)[32] == (b >> 24) as u8);
    assert(spec_key_bytes(k1)[33] == ((a >> 16) & 0xff) as u8);
    assert(spec_key_bytes(k2)[33] == ((b >> 16) & 0xff) as u8);
    assert(spec_key_bytes(k1)[34] == ((a >> 8) & 0xff) as u8);
    assert(spec_key_bytes(k2)[34] == ((b >> 8) & 0xff) as u8);
    assert(spec_key_bytes(k1)[35] == (a & 0xff) as u8);
    assert(spec_key_bytes(k2)[35] == (b & 0xff) as u8);
    assert(a == b) by (bit_vector)
        requires
            (a >> 24) as u8 == (b >> 24) as u8,
            ((a >> 16) & 0xff) as u8 == ((b >> 16) & 0xff) as u8,
            ((a >> 8) & 0xff) as u8 == ((b >> 8) & 0xff) as u8,
            (a & 0xff) as u8 == (b & 0xff) as u8,
    ;
}

impl UtxoKey {
    /// Persists the key: its exact, fixed-size byte layout.
    pub fn to_bytes(&self) -> (r: Vec<u8>)
        ensures
            r@ == spec_key_bytes(*self),
            r@.len() == UTXO_KEY_SIZE,
    {
        let mut r = crate::types::array32_to_vec(&self.tx_id);
        r.push((self.vout >> 24) as u8);
        r.push(((self.vout >> 16) & 0xff) as u8);
        r.push(((self.vout >> 8) & 0xff) as u8);
        r.push((self.vout & 0xff) as u8);
        proof {
            assert(r@ =~= spec_key_bytes(*self));
        }
        r
    }

    /// Reads a persisted key back; anything but exactly thirty-six bytes
    /// is rejected.
    pub fn from_bytes(bytes: &[u8]) -> (r: Option<UtxoKey>)
        ensures
            r is Some <==> bytes@.len() == UTXO_KEY_SIZE,
            r matches Some(k) ==> spec_key_bytes(k) == bytes@,
    {
        if bytes.len() != UTXO_KEY_SIZE {
            return None;
        }
        let mut tx_id = [0u8; 32];
        let mut i: usize = 0;
        while i < 32
            invariant
                0 <= i <= 32,
                bytes@.len() == 36,
                tx_id@.len() == 32,
                forall|k: int| 0 <= k < i ==> tx_id@[k] == bytes@[k],
            decreases 32 - i,
        {
            tx_id[i] = bytes[i];
            i = i + 1;
        }
        let b32 = bytes[32] as u32;
        let b33 = bytes[33] as u32;
        let b34 = bytes[34] as u32;
        let b35 = bytes[35] as u32;
        let vout: u32 = (b32 << 24) | (b33 << 16) | (b34 << 8) | b35;
        proof {
            assert((vout >> 24) as u8 == b32 as u8 && ((vout >> 16) & 0xff) as u8 == b33 as u8
                && ((vout >> 8) & 0xff) as u8 == b34 as u8 && (vout & 0xff) as u8
                == b35 as u8) by (bit_vector)
                requires
                    vout == (b32 << 24) | (b33 << 16) | (b34 << 8) | b35,
                    b32 < 256 && b33 < 256 && b34 < 256 && b35 < 256,
            ;
            assert(bytes@[32] == b32 as u8 && bytes@[33] == b33 as u8 && bytes@[34] == b34 as u8
                && bytes@[35] == b35 as u8);
        }
        let k = UtxoKey { tx_id, vout };
        proof {
            assert(spec_key_bytes(k) =~= bytes@);
        }
        Some(k)
    }
}

/// The bytes of an encoded derivation path: a length byte before each
/// element.
pub open spec fn spec_path_bytes(path: Seq<Seq<u8>>) -> Seq<u8>
    decreases path.len(),
{
    if path.len() == 0 {
        Seq::empty()
    } else {
        spec_path_bytes(path.drop_last()) + seq![path.last().len() as u8] + path.last()
    }
}

/// The encoded size of a derivation path: one length byte per element
/// plus the elements themselves.
pub open spec fn spec_path_size(path: Seq<Seq<u8>>) -> int
    decreases path.len(),
{
    if path.len() == 0 {
        0
    } else {
        spec_path_size(path.drop_last()) + 1 + path.last().len()
    }
}

/// The encoded path is exactly as large as its size says.
pub proof fn lemma_path_bytes_len(path: Seq<Seq<u8>>)
    ensures
        spec_path_bytes(path).len() == spec_path_size(path),
        spec_path_size(path) >= path.len(),
    decreases path.len(),
{
    if path.len() > 0 {
        lemma_path_bytes_len(path.drop_last());
    }
}

/// The bytes a UTXO record persists as: the value in big-endian, the
/// script with a length byte, and the derivation path.
pub open spec fn spec_details_bytes(v: UtxoDetailsV) -> Seq<u8> {
    spec_u64_be(v.value) + seq![v.script.len() as u8] + v.script + seq![v.path.len() as u8]
        + spec_path_bytes(v.path)
}

impl UtxoDetails {
    /// Persists the record. The bounds on the script and on the path are
    /// enforced here, at encode time, so a stored record never exceeds
    /// its budget.
    pub fn to_bytes(&self) -> (r: Vec<u8>)
        requires
            self.script_buf@.len() <= MAX_SCRIPT_SIZE,
            spec_path_size(self.derivation_path.deep_view()) <= MAX_DERIVATION_PATH_SIZE,
        ensures
            r@ == spec_details_bytes(self@),
            r@.len() <= UTXO_DETAILS_BOUND,
    {
        let ghost path_view = self.derivation_path.deep_view();
        proof {
            lemma_path_bytes_len(path_view);
        }
        let mut r: Vec<u8> = Vec::new();
        let v = self.value;
        r.push((v >> 56) as u8);
        r.push(((v >> 48) & 0xff) as u8);
        r.push(((v >> 40) & 0xff) as u8);
        r.push(((v >> 32) & 0xff) as u8);
        r.push(((v >> 24) & 0xff) as u8);
        r.push(((v >> 16) & 0xff) as u8);
        r.push(((v >> 8) & 0xff) as u8);
        r.push((v & 0xff) as u8);
        r.push(self.script_buf.len() as u8);
        let mut i: usize = 0;
        while i < self.script_buf.len()
            invariant
                0 <= i <= self.script_buf@.len(),
                self.script_buf@.len() <= MAX_SCRIPT_SIZE,
                r@ =~= spec_u64_be(self.value) + seq![self.script_buf@.len() as u8]
                    + self.script_buf@.subrange(0, i as int),
            decreases self.script_buf@.len() - i,
        {
            r.push(self.script_buf[i]);
            proof {
                assert(self.script_buf@.subrange(0, i + 1 as int) =~= self.script_buf@.subrange(
                    0,
                    i as int,
                ).push(self.script_buf@[i as int]));
            }
            i = i + 1;
        }
        proof {
            assert(self.script_buf@.subrange(0, self.script_buf@.len() as int)
                =~= self.script_buf@);
            assert(path_view.len() <= spec_path_size(path_view));
        }
        r.push(self.derivation_path.len() as u8);
        let n = self.derivation_path.len();
        let mut p: usize = 0;
        while p < n
            invariant
                0 <= p <= n,
                n == path_view.len(),
                path_view == self.derivation_path.deep_view(),
                spec_path_size(path_view) <= MAX_DERIVATION_PATH_SIZE,
                r@ =~= spec_u64_be(self.value) + seq![self.script_buf@.len() as u8]
                    + self.script_buf@ + seq![path_view.len() as u8] + spec_path_bytes(
                    path_view.subrange(0, p as int),
                ),
            decreases n - p,
        {
            proof {
                assert(path_view.subrange(0, p + 1 as int).drop_last() =~= path_view.subrange(
                    0,
                    p as int,
                ));
                assert(path_view.subrange(0, p + 1 as int).last() == path_view[p as int]);
                lemma_path_size_prefix(path_view, p as int);
                lemma_path_bytes_len(path_view.subrange(0, p as int));
                assert(path_view[p as int].len() + 1 <= spec_path_size(path_view)
                    - spec_path_size(path_view.subrange(0, p as int)));
            }
            r.push(self.derivation_path[p].len() as u8);
            let elem = &self.derivation_path[p];
            let mut e: usize = 0;
            while e < elem.len()
                invariant
                    0 <= e <= elem@.len(),
                    elem@ == path_view[p as int],
                    0 <= p < path_view.len(),
                    r@ =~= spec_u64_be(self.value) + seq![self.script_buf@.len() as u8]
                        + self.script_buf@ + seq![path_view.len() as u8] + spec_path_bytes(
                        path_view.subrange(0, p as int),
                    ) + seq![path_view[p as int].len() as u8] + elem@.subrange(0, e as int),
                decreases elem@.len() - e,
            {
                r.push(elem[e]);
                proof {
                    assert(elem@.subrange(0, e + 1 as int) =~= elem@.subrange(0, e as int).push(
                        elem@[e as int],
                    ));
                }
                e = e + 1;
            }
            proof {
                assert(elem@.subrange(0, elem@.len() as int) =~= elem@);
                assert(spec_path_bytes(path_view.subrange(0, p + 1 as int)) =~= spec_path_bytes(
                    path_view.subrange(0, p as int),
                ) + seq![path_view[p as int].len() as u8] + path_view[p as int]);
            }
            p = p + 1;
        }
        proof {
            assert(path_view.subrange(0, n as int) =~= path_view);
            assert(r@ =~= spec_details_bytes(self@));
            lemma_path_bytes_len(path_view);
        }
        r
    }
}

/// Path prefixes never outgrow the whole path's encoded size.
proof fn lemma_path_size_prefix(path: Seq<Seq<u8>>, p: int)
    requires
        0 <= p < path.len(),
    ensures
        spec_path_size(path.subrange(0, p)) + 1 + path[p].len() <= spec_path_size(path),
        spec_path_size(path.subrange(0, p)) >= 0,
    decreases path.len(),
{
    lemma_path_size_nonneg(path.subrange(0, p));
    if p == path.len() - 1 {
        assert(path.subrange(0, p) =~= path.drop_last());
        assert(path[p] == path.last());
    } else {
        assert(path.drop_last().subrange(0, p) =~= path.subrange(0, p));
        assert(path.drop_last()[p] == path[p]);
        lemma_path_size_prefix(path.drop_last(), p);
        lemma_path_size_nonneg(seq![path.last()]);
        assert(spec_path_size(path) == spec_path_size(path.drop_last()) + 1
            + path.last().len());
    }
}

/// An encoded path size is never negative.
proof fn lemma_path_size_nonneg(path: Seq<Seq<u8>>)
    ensures
        spec_path_size(path) >= 0,
    decreases path.len(),
{
    if path.len() > 0 {
        lemma_path_size_nonneg(path.drop_last());
    }
}

/// Every path element leaves room for itself and its length byte.
proof fn lemma_path_size_elem(path: Seq<Seq<u8>>, i: int)
    requires
        0 <= i < path.len(),
    ensures
        path[i].len() + 1 <= spec_path_size(path),
{
    lemma_path_size_prefix(path, i);
}

/// Path encoding distributes over concatenation, in bytes and in size.
proof fn lemma_path_bytes_concat(a: Seq<Seq<u8>>, b: Seq<Seq<u8>>)
    ensures
        spec_path_bytes(a + b) == spec_path_bytes(a) + spec_path_bytes(b),
        spec_path_size(a + b) == spec_path_size(a) + spec_path_size(b),
    decreases b.len(),
{
    if b.len() == 0 {
        assert(a + b =~= a);
        assert(spec_path_bytes(a) + spec_path_bytes(b) =~= spec_path_bytes(a));
    } else {
        lemma_path_bytes_concat(a, b.drop_last());
        assert((a + b).drop_last() =~= a + b.drop_last());
        assert((a + b).last() == b.last());
        assert(spec_path_bytes(a) + (spec_path_bytes(b.drop_last()) + seq![
            b.last().len() as u8,
        ] + b.last()) =~= (spec_path_bytes(a) + spec_path_bytes(b.drop_last())) + seq![
            b.last().len() as u8,
        ] + b.last());
    }
}

/// A non-empty path encodes as its first element's length byte, the
/// first element, and the rest.
proof fn lemma_path_bytes_front(path: Seq<Seq<u8>>)
    requires
        path.len() > 0,
    ensures
        spec_path_bytes(path) == seq![path[0].len() as u8] + path[0] + spec_path_bytes(
            path.drop_first(),
        ),
        spec_path_size(path) == 1 + path[0].len() + spec_path_size(path.drop_first()),
{
    let head = seq![path[0]];
    assert(path =~= head + path.drop_first());
    lemma_path_bytes_concat(head, path.drop_first());
    assert(head.drop_last() =~= Seq::<Seq<u8>>::empty());
    assert(spec_path_bytes(Seq::<Seq<u8>>::empty()) =~= Seq::<u8>::empty());
    assert(spec_path_size(Seq::<Seq<u8>>::empty()) == 0);
    assert(head.last() == path[0]);
    assert(spec_path_bytes(head) =~= seq![path[0].len() as u8] + path[0]);
    assert(spec_path_size(head) == 1 + path[0].len());
    assert(spec_path_bytes(head) + spec_path_bytes(path.drop_first()) =~= seq![
        path[0].len() as u8,
    ] + path[0] + spec_path_bytes(path.drop_first()));
}

/// A record is within the persistence bounds.
pub open spec fn spec_details_wf(v: UtxoDetailsV) -> bool {
    &&& v.script.len() <= MAX_SCRIPT_SIZE
    &&& spec_path_size(v.path) <= MAX_DERIVATION_PATH_SIZE
}

/// Where each field of a record stands in its encoding.
proof fn lemma_details_bytes_shape(v: UtxoDetailsV)
    ensures
        spec_details_bytes(v).len() == 10 + v.script.len() + spec_path_size(v.path),
        spec_details_bytes(v).subrange(0, 8) == spec_u64_be(v.value),
        spec_details_bytes(v)[8] == v.script.len() as u8,
        spec_details_bytes(v).subrange(9, 9 + v.script.len() as int) == v.script,
        spec_details_bytes(v)[9 + v.script.len() as int] == v.path.len() as u8,
        spec_details_bytes(v).subrange(
            10 + v.script.len() as int,
            spec_details_bytes(v).len() as int,
        ) == spec_path_bytes(v.path),
{
    lemma_path_bytes_len(v.path);
    let e = spec_details_bytes(v);
    assert(e.subrange(0, 8) =~= spec_u64_be(v.value));
    assert(e.subrange(9, 9 + v.script.len() as int) =~= v.script);
    assert(e.subrange(10 + v.script.len() as int, e.len() as int) =~= spec_path_bytes(v.path));
}

/// Paths of the same length and small elements with the same encoding
/// are the same path.
proof fn lemma_path_bytes_injective(p1: Seq<Seq<u8>>, p2: Seq<Seq<u8>>)
    requires
        p1.len() == p2.len(),
        forall|i: int| 0 <= i < p1.len() ==> (#[trigger] p1[i]).len() < 256,
        forall|i: int| 0 <= i < p2.len() ==> (#[trigger] p2[i]).len() < 256,
        spec_path_bytes(p1) == spec_path_bytes(p2),
    ensures
        p1 == p2,
    decreases p1.len(),
{
    if p1.len() > 0 {
        lemma_path_bytes_front(p1);
        lemma_path_bytes_front(p2);
        let b = spec_path_bytes(p1);
        assert(b[0] == p1[0].len() as u8);
        assert(b[0] == p2[0].len() as u8);
        assert(p1[0].len() == p2[0].len());
        assert(p1[0] =~= p2[0]) by {
            assert forall|k: int| 0 <= k < p1[0].len() implies p1[0][k] == p2[0][k] by {
                assert(b[1 + k] == p1[0][k]);
                assert(b[1 + k] == p2[0][k]);
            }
        }
        assert(spec_path_bytes(p1.drop_first()) =~= spec_path_bytes(p2.drop_first())) by {
            let n0 = 1 + p1[0].len() as int;
            assert(spec_path_bytes(p1.drop_first()) =~= b.subrange(n0, b.len() as int));
            assert(spec_path_bytes(p2.drop_first()) =~= b.subrange(n0, b.len() as int));
        }
        lemma_path_bytes_injective(p1.drop_first(), p2.drop_first());
        assert(p1 =~= p2) by {
            assert(forall|i: int| 1 <= i < p1.len() ==> #[trigger] p1[i] == p1.drop_first()[i
                - 1]);
            assert(forall|i: int| 1 <= i < p2.len() ==> #[trigger] p2[i] == p2.drop_first()[i
                - 1]);
        }
    } else {
        assert(p1 =~= p2);
    }
}

/// Law: within-bounds records with the same encoding are the same
/// record, so decoding gives back exactly the record encoded.
pub proof fn lemma_details_bytes_injective(v1: UtxoDetailsV, v2: UtxoDetailsV)
    requires
        spec_details_wf(v1),
        spec_details_wf(v2),
        spec_details_bytes(v1) == spec_details_bytes(v2),
    ensures
        v1 == v2,
{
    lemma_details_bytes_shape(v1);
    lemma_details_bytes_shape(v2);
    lemma_path_bytes_len(v1.path);
    lemma_path_bytes_len(v2.path);
    let e = spec_details_bytes(v1);
    // The script-length byte fixes the script length, and with it every
    // field boundary.
    assert(v1.script.len() == v2.script.len());
    assert(v1.script =~= v2.script) by {
        assert(e.subrange(9, 9 + v1.script.len() as int) == v1.script);
        assert(e.subrange(9, 9 + v2.script.len() as int) == v2.script);
    }
    assert(v1.path.len() <= spec_path_size(v1.path));
    assert(v2.path.len() <= spec_path_size(v2.path));
    assert(v1.path.len() == v2.path.len());
    assert(spec_path_bytes(v1.path) == spec_path_bytes(v2.path)) by {
        assert(e.subrange(10 + v1.script.len() as int, e.len() as int) == spec_path_bytes(
            v1.path,
        ));
        assert(e.subrange(10 + v2.script.len() as int, e.len() as int) == spec_path_bytes(
            v2.path,
        ));
    }
    assert forall|i: int| 0 <= i < v1.path.len() implies (#[trigger] v1.path[i]).len()
        < 256 by {
        lemma_path_size_elem(v1.path, i);
    }
    assert forall|i: int| 0 <= i < v2.path.len() implies (#[trigger] v2.path[i]).len()
        < 256 by {
        lemma_path_size_elem(v2.path, i);
    }
    lemma_path_bytes_injective(v1.path, v2.path);
    // The value bytes fix the value.
    let a = v1.value;
    let b = v2.value;
    assert(spec_u64_be(a) == e.subrange(0, 8) && spec_u64_be(b) == e.subrange(0, 8));
    assert(spec_u64_be(a)[0] == spec_u64_be(b)[0] && spec_u64_be(a)[1] == spec_u64_be(b)[1]
        && spec_u64_be(a)[2] == spec_u64_be(b)[2] && spec_u64_be(a)[3] == spec_u64_be(b)[3]
        && spec_u64_be(a)[4] == spec_u64_be(b)[4] && spec_u64_be(a)[5] == spec_u64_be(b)[5]
        && spec_u64_be(a)[6] == spec_u64_be(b)[6] && spec_u64_be(a)[7] == spec_u64_be(b)[7]);
    assert(a == b) by (bit_vector)
        requires
            (a >> 56) as u8 == (b >> 56) as u8,
            ((a >> 48) & 0xff) as u8 == ((b >> 48) & 0xff) as u8,
            ((a >> 40) & 0xff) as u8 == ((b >> 40) & 0xff) as u8,
            ((a >> 32) & 0xff) as u8 == ((b >> 32) & 0xff) as u8,
            ((a >> 24) & 0xff) as u8 == ((b >> 24) & 0xff) as u8,
            ((a >> 16) & 0xff) as u8 == ((b >> 16) & 0xff) as u8,
            ((a >> 8) & 0xff) as u8 == ((b >> 8) & 0xff) as u8,
            (a & 0xff) as u8 == (b & 0xff) as u8,
    ;
}

/// What the early bytes of a within-bounds record's encoding fix.
proof fn lemma_details_encoding_facts(v: UtxoDetailsV, bytes: Seq<u8>)
    requires
        spec_details_wf(v),
        bytes == spec_details_bytes(v),
    ensures
        bytes.len() == 10 + v.script.len() + spec_path_size(v.path),
        bytes.len() >= 10 + v.script.len(),
        v.path.len() <= spec_path_size(v.path),
        0 <= spec_path_size(v.path),
        bytes[8] == v.script.len() as u8,
        bytes[9 + v.script.len() as int] == v.path.len() as u8,
        bytes.subrange(10 + v.script.len() as int, bytes.len() as int) == spec_path_bytes(
            v.path,
        ),
{
    lemma_details_bytes_shape(v);
    lemma_path_bytes_len(v.path);
}

/// Where the next path element of a within-bounds record's encoding
/// stands, given how much of the path came before it.
proof fn lemma_details_step(v: UtxoDetailsV, bytes: Seq<u8>, prefix_size: int, p: int)
    requires
        spec_details_wf(v),
        bytes == spec_details_bytes(v),
        0 <= p < v.path.len(),
        prefix_size == spec_path_size(v.path.subrange(0, p)),
    ensures
        0 <= prefix_size,
        10 + v.script.len() + prefix_size < bytes.len(),
        bytes[10 + v.script.len() + prefix_size] == v.path[p].len() as u8,
        v.path[p].len() < 256,
        10 + v.script.len() + prefix_size + 1 + v.path[p].len() <= bytes.len(),
        spec_path_size(v.path.subrange(0, p + 1)) == prefix_size + 1 + v.path[p].len(),
        spec_path_size(v.path.subrange(0, p + 1)) <= spec_path_size(v.path),
        bytes.subrange(
            10 + v.script.len() + prefix_size + 1,
            10 + v.script.len() + prefix_size + 1 + v.path[p].len() as int,
        ) == v.path[p],
        v.path.subrange(0, p + 1) == v.path.subrange(0, p).push(v.path[p]),
{
    lemma_details_bytes_shape(v);
    lemma_path_bytes_len(v.path);
    let ps = 10 + v.script.len() as int;
    let pre = v.path.subrange(0, p);
    let suf = v.path.skip(p);
    assert(v.path =~= pre + suf);
    lemma_path_bytes_concat(pre, suf);
    lemma_path_bytes_len(pre);
    lemma_path_bytes_len(suf);
    lemma_path_size_nonneg(pre);
    lemma_path_bytes_front(suf);
    assert(suf[0] == v.path[p]);
    lemma_path_size_elem(v.path, p);
    let pb = spec_path_bytes(v.path);
    assert(bytes.subrange(ps, bytes.len() as int) == pb);
    assert(pb == spec_path_bytes(pre) + spec_path_bytes(suf));
    assert(pb[prefix_size] == spec_path_bytes(suf)[0]);
    assert(spec_path_bytes(suf)[0] == suf[0].len() as u8);
    assert(bytes[ps + prefix_size] == pb[prefix_size]);
    assert(bytes.subrange(ps + prefix_size + 1, ps + prefix_size + 1 + v.path[p].len() as int)
        =~= v.path[p]) by {
        assert forall|k: int| 0 <= k < v.path[p].len() implies bytes[ps + prefix_size + 1 + k]
            == v.path[p][k] by {
            assert(bytes[ps + prefix_size + 1 + k] == pb[prefix_size + 1 + k]);
            assert(pb[prefix_size + 1 + k] == spec_path_bytes(suf)[1 + k]);
            assert(spec_path_bytes(suf)[1 + k] == suf[0][k]);
        }
    }
    let pre1 = v.path.subrange(0, p + 1);
    assert(pre1 =~= pre.push(v.path[p]));
    assert(pre.push(v.path[p]).drop_last() =~= pre);
    assert(spec_path_size(pre1) == prefix_size + 1 + v.path[p].len());
    assert(v.path =~= pre1 + v.path.skip(p + 1));
    lemma_path_bytes_concat(pre1, v.path.skip(p + 1));
    lemma_path_size_nonneg(v.path.skip(p + 1));
}

/// A text's UTF-8 encoding takes at most four bytes per character.
proof fn lemma_encode_utf8_len(chars: Seq<char>)
    ensures
        vstd::utf8::encode_utf8(chars).len() <= 4 * chars.len(),
    decreases chars.len(),
{
    if chars.len() > 0 {
        lemma_encode_utf8_len(chars.drop_first());
    }
}

impl UsedUtxoDetails {
    /// Persists the reservation: the timestamp in big-endian, then the
    /// owner address as UTF-8 text. The address bound is enforced here.
    pub fn to_bytes(&self) -> (r: Vec<u8>)
        requires
            self.owner_address@.len() <= MAX_BITCOIN_ADDRESS_SIZE,
        ensures
            r@ == spec_u64_be(self.used_at) + vstd::utf8::encode_utf8(self.owner_address@),
            r@.len() <= 8 + 4 * MAX_BITCOIN_ADDRESS_SIZE,
    {
        proof {
            lemma_encode_utf8_len(self.owner_address@);
        }
        let mut r: Vec<u8> = Vec::new();
        let v = self.used_at;
        r.push((v >> 56) as u8);
        r.push(((v >> 48) & 0xff) as u8);
        r.push(((v >> 40) & 0xff) as u8);
        r.push(((v >> 32) & 0xff) as u8);
        r.push(((v >> 24) & 0xff) as u8);
        r.push(((v >> 16) & 0xff) as u8);
        r.push(((v >> 8) & 0xff) as u8);
        r.push((v & 0xff) as u8);
        let text = self.owner_address.as_str().as_bytes();
        let mut i: usize = 0;
        while i < text.len()
            invariant
                0 <= i <= text@.len(),
                text@ == vstd::utf8::encode_utf8(self.owner_address@),
                r@ =~= spec_u64_be(self.used_at) + text@.subrange(0, i as int),
            decreases text@.len() - i,
        {
            r.push(text[i]);
            proof {
                assert(text@.subrange(0, i + 1 as int) =~= text@.subrange(0, i as int).push(
                    text@[i as int],
                ));
            }
            i = i + 1;
        }
        proof {
            assert(text@.subrange(0, text@.len() as int) =~= text@);
        }
        r
    }
}

/// The decimal digit character of a value below ten.
pub open spec fn spec_dec_digit(n: int) -> char {
    if n == 0 {
        '0'
    } else if n == 1 {
        '1'
    } else if n == 2 {
        '2'
    } else if n == 3 {
        '3'
    } else if n == 4 {
        '4'
    } else if n == 5 {
        '5'
    } else if n == 6 {
        '6'
    } else if n == 7 {
        '7'
    } else if n == 8 {
        '8'
    } else {
        '9'
    }
}

/// The decimal text of a value, most significant digit first.
pub open spec fn spec_dec(n: int) -> Seq<char>
    recommends
        n >= 0,
    decreases n,
{
    if n < 10 {
        seq![spec_dec_digit(n)]
    } else {
        spec_dec(n / 10).push(spec_dec_digit(n % 10))
    }
}

fn dec_digit_str(d: u32) -> (r: String)
    requires
        d < 10,
    ensures
        r@ == seq![spec_dec_digit(d as int)],
{
    let r = match d {
        0 => String::from_str("0"),
        1 => String::from_str("1"),
        2 => String::from_str("2"),
        3 => String::from_str("3"),
        4 => String::from_str("4"),
        5 => String::from_str("5"),
        6 => String::from_str("6"),
        7 => String::from_str("7"),
        8 => String::from_str("8"),
        _ => String::from_str("9"),
    };
    proof {
        reveal_strlit("0");
        reveal_strlit("1");
        reveal_strlit("2");
        reveal_strlit("3");
        reveal_strlit("4");
        reveal_strlit("5");
        reveal_strlit("6");
        reveal_strlit("7");
        reveal_strlit("8");
        reveal_strlit("9");
        assert(r@ =~= seq![spec_dec_digit(d as int)]);
    }
    r
}

/// Writes a value in decimal.
pub fn u32_to_decimal(n: u32) -> (r: String)
    ensures
        r@ == spec_dec(n as int),
    decreases n,
{
    if n < 10 {
        dec_digit_str(n)
    } else {
        let mut s = u32_to_decimal(n / 10);
        let d = dec_digit_str(n % 10);
        s.append(d.as_str());
        proof {
            assert(s@ =~= spec_dec((n / 10) as int).push(spec_dec_digit((n % 10) as int)));
        }
        s
    }
}

impl UtxoKey {
    /// The key's transaction id as people read it: lowercase hex.
    pub fn display_txid(&self) -> (r: String)
        ensures
            r@ == spec_hex(self.tx_id@),
    {
        encode_hex(self.tx_id.as_slice())
    }

    /// The key as people read it: the transaction id in hex, a colon,
    /// and the output index in decimal. Stands in for a display form,
    /// which this crate does not implement.
    pub fn display_string(&self) -> (r: String)
        ensures
            r@ == spec_hex(self.tx_id@) + seq![':'] + spec_dec(self.vout as int),
    {
        let mut s = encode_hex(self.tx_id.as_slice());
        s.append(":");
        let d = u32_to_decimal(self.vout);
        s.append(d.as_str());
        proof {
            reveal_strlit(":");
            assert(s@ =~= spec_hex(self.tx_id@) + seq![':'] + spec_dec(self.vout as int));
        }
        s
    }
}

impl UtxoDetails {
    /// Reads a persisted record back: it succeeds on exactly the byte
    /// strings that encode a within-bounds record, and whatever is
    /// returned re-encodes to the input, so decoding inverts encoding.
    #[verifier::loop_isolation(false)]
    #[verifier::rlimit(100)]
    pub fn from_bytes(bytes: &[u8]) -> (r: Option<UtxoDetails>)
        ensures
            r matches Some(d) ==> {
                &&& spec_details_bytes(d@) == bytes@
                &&& d.script_buf@.len() <= MAX_SCRIPT_SIZE
                &&& spec_path_size(d.derivation_path.deep_view()) <= MAX_DERIVATION_PATH_SIZE
            },
            forall|v: UtxoDetailsV|
                #![trigger spec_details_bytes(v)]
                spec_details_wf(v) && bytes@ == spec_details_bytes(v) ==> r is Some,
    {
        if bytes.len() < 10 {
            proof {
                assert forall|v: UtxoDetailsV|
                    #![trigger spec_details_bytes(v)]
                    spec_details_wf(v) && bytes@ == spec_details_bytes(v) implies false by {
                    lemma_details_encoding_facts(v, bytes@);
                }
            }
            return None;
        }
        let b0 = bytes[0] as u64;
        let b1 = bytes[1] as u64;
        let b2 = bytes[2] as u64;
        let b3 = bytes[3] as u64;
        let b4 = bytes[4] as u64;
        let b5 = bytes[5] as u64;
        let b6 = bytes[6] as u64;
        let b7 = bytes[7] as u64;
        let value: u64 = (b0 << 56) | (b1 << 48) | (b2 << 40) | (b3 << 32) | (b4 << 24) | (b5
            << 16) | (b6 << 8) | b7;
        proof {
            assert((value >> 56) as u8 == b0 as u8 && ((value >> 48) & 0xff) as u8 == b1 as u8
                && ((value >> 40) & 0xff) as u8 == b2 as u8 && ((value >> 32) & 0xff) as u8
                == b3 as u8 && ((value >> 24) & 0xff) as u8 == b4 as u8 && ((value >> 16)
                & 0xff) as u8 == b5 as u8 && ((value >> 8) & 0xff) as u8 == b6 as u8 && (value
                & 0xff) as u8 == b7 as u8) by (bit_vector)
                requires
                    value == (b0 << 56) | (b1 << 48) | (b2 << 40) | (b3 << 32) | (b4 << 24) | (
                    b5 << 16) | (b6 << 8) | b7,
                    b0 < 256 && b1 < 256 && b2 < 256 && b3 < 256 && b4 < 256 && b5 < 256 && b6
                        < 256 && b7 < 256,
            ;
            assert(spec_u64_be(value) =~= bytes@.subrange(0, 8));
        }
        let script_len = bytes[8] as usize;
        proof {
            assert forall|v: UtxoDetailsV|
                #![trigger spec_details_bytes(v)]
                spec_details_wf(v) && bytes@ == spec_details_bytes(v) implies v.script.len()
                == script_len by {
                lemma_details_encoding_facts(v, bytes@);
            }
        }
        if script_len > MAX_SCRIPT_SIZE {
            return None;
        }
        if bytes.len() < 10 + script_len {
            proof {
                assert forall|v: UtxoDetailsV|
                    #![trigger spec_details_bytes(v)]
                    spec_details_wf(v) && bytes@ == spec_details_bytes(v) implies false by {
                    lemma_details_encoding_facts(v, bytes@);
                }
            }
            return None;
        }
        let mut script_buf: Vec<u8> = Vec::new();
        let mut i: usize = 0;
        while i < script_len
            invariant
                0 <= i <= script_len,
                script_buf@ =~= bytes@.subrange(9, 9 + i as int),
            decreases script_len - i,
        {
            script_buf.push(bytes[9 + i]);
            proof {
                assert(bytes@.subrange(9, 9 + (i + 1) as int) =~= bytes@.subrange(
                    9,
                    9 + i as int,
                ).push(bytes@[9 + i as int]));
            }
            i = i + 1;
        }
        let path_start: usize = 10 + script_len;
        let path_count = bytes[9 + script_len] as usize;
        proof {
            assert forall|v: UtxoDetailsV|
                #![trigger spec_details_bytes(v)]
                spec_details_wf(v) && bytes@ == spec_details_bytes(v) implies v.path.len()
                == path_count && spec_path_size(v.path.subrange(0, 0)) == 0 by {
                lemma_details_encoding_facts(v, bytes@);
                assert(v.path.subrange(0, 0) =~= Seq::<Seq<u8>>::empty());
            }
        }
        let mut derivation_path: Vec<Vec<u8>> = Vec::new();
        let mut off: usize = path_start;
        let mut p: usize = 0;
        while p < path_count
            invariant
                0 <= p <= path_count,
                path_start <= off <= bytes@.len(),
                derivation_path@.len() == p,
                spec_path_bytes(derivation_path.deep_view()) =~= bytes@.subrange(
                    path_start as int,
                    off as int,
                ),
                spec_path_size(derivation_path.deep_view()) == off - path_start,
                off - path_start <= MAX_DERIVATION_PATH_SIZE,
                forall|v: UtxoDetailsV|
                    #![trigger spec_details_bytes(v)]
                    spec_details_wf(v) && bytes@ == spec_details_bytes(v) ==> {
                        &&& v.script.len() == script_len
                        &&& v.path.len() == path_count
                        &&& derivation_path.deep_view() == v.path.subrange(0, p as int)
                        &&& off - path_start == spec_path_size(v.path.subrange(0, p as int))
                    },
            decreases path_count - p,
        {
            if off >= bytes.len() {
                proof {
                    assert forall|v: UtxoDetailsV|
                        #![trigger spec_details_bytes(v)]
                        spec_details_wf(v) && bytes@ == spec_details_bytes(v) implies false by {
                        lemma_details_step(v, bytes@, off - path_start, p as int);
                    }
                }
                return None;
            }
            let elen = bytes[off] as usize;
            proof {
                assert forall|v: UtxoDetailsV|
                    #![trigger spec_details_bytes(v)]
                    spec_details_wf(v) && bytes@ == spec_details_bytes(v) implies v.path[
                    p as int].len() == elen by {
                    lemma_details_step(v, bytes@, off - path_start, p as int);
                }
            }
            if off + 1 + elen > bytes.len() {
                proof {
                    assert forall|v: UtxoDetailsV|
                        #![trigger spec_details_bytes(v)]
                        spec_details_wf(v) && bytes@ == spec_details_bytes(v) implies false by {
                        lemma_details_step(v, bytes@, off - path_start, p as int);
                    }
                }
                return None;
            }
            if off + 1 + elen - path_start > MAX_DERIVATION_PATH_SIZE {
                proof {
                    assert forall|v: UtxoDetailsV|
                        #![trigger spec_details_bytes(v)]
                        spec_details_wf(v) && bytes@ == spec_details_bytes(v) implies false by {
                        lemma_details_step(v, bytes@, off - path_start, p as int);
                        assert(spec_path_size(v.path.subrange(0, p + 1 as int))
                            <= MAX_DERIVATION_PATH_SIZE);
                    }
                }
                return None;
            }
            let mut elem: Vec<u8> = Vec::new();
            let mut e: usize = 0;
            while e < elen
                invariant
                    0 <= e <= elen,
                    off + 1 + elen <= bytes@.len(),
                    elem@ =~= bytes@.subrange(off + 1 as int, off + 1 + e as int),
                decreases elen - e,
            {
                elem.push(bytes[off + 1 + e]);
                proof {
                    assert(bytes@.subrange(off + 1 as int, off + 1 + (e + 1) as int)
                        =~= bytes@.subrange(off + 1 as int, off + 1 + e as int).push(
                        bytes@[off + 1 + e as int],
                    ));
                }
                e = e + 1;
            }
            let ghost prev_path = derivation_path.deep_view();
            let ghost off0 = off as int;
            derivation_path.push(elem);
            proof {
                assert(derivation_path.deep_view().drop_last() =~= prev_path);
                assert(derivation_path.deep_view().last() =~= bytes@.subrange(
                    off + 1 as int,
                    off + 1 + elen as int,
                ));
                assert(spec_path_bytes(derivation_path.deep_view()) =~= bytes@.subrange(
                    path_start as int,
                    off + 1 + elen as int,
                ));
                assert forall|v: UtxoDetailsV|
                    #![trigger spec_details_bytes(v)]
                    spec_details_wf(v) && bytes@ == spec_details_bytes(v) implies {
                    &&& derivation_path.deep_view() == v.path.subrange(0, p + 1 as int)
                    &&& off0 + 1 + elen - path_start == spec_path_size(
                        v.path.subrange(0, p + 1 as int),
                    )
                } by {
                    lemma_details_step(v, bytes@, off0 - path_start, p as int);
                    assert(elem@ == v.path[p as int]);
                    assert(derivation_path.deep_view() =~= v.path.subrange(0, p as int).push(
                        v.path[p as int],
                    ));
                }
            }
            off = off + 1 + elen;
            p = p + 1;
        }
        if off != bytes.len() {
            proof {
                assert forall|v: UtxoDetailsV|
                    #![trigger spec_details_bytes(v)]
                    spec_details_wf(v) && bytes@ == spec_details_bytes(v) implies false by {
                    lemma_details_encoding_facts(v, bytes@);
                    assert(v.path.subrange(0, path_count as int) =~= v.path);
                }
            }
            return None;
        }
        let d = UtxoDetails { value, script_buf, derivation_path };
        proof {
            assert(d.derivation_path.deep_view().len() == path_count);
            assert(spec_details_bytes(d@) =~= bytes@);
        }
        Some(d)
    }
}

} // verus!
