//! Immutable, hash-linked containers of ordered transactions, and their
//! canonical byte encoding, from which a block's digest is always recomputed.

use crate::hashing::{push_u64_be, sha256, sha256_of, u64_be_bytes};
use crate::transaction::{Transaction, TxView};
use vstd::prelude::*;
use vstd::string::StrSliceExecFns;
use vstd::utf8::encode_utf8;

verus! {

/// A block of the chain. The genesis block has index 0 and the empty
/// previous-hash sentinel; every later block records the digest of its
/// predecessor. A block's own digest is never stored: it is recomputed
/// from the canonical encoding, so a stale or forged cached hash cannot
/// exist.
#[derive(Debug)]
pub struct Block {
    pub index: u64,
    pub timestamp: u64,
    pub transactions: Vec<Transaction>,
    pub nonce: u64,
    pub previous_hash: Vec<u8>,
}

/// The mathematical value of a [`Block`].
pub ghost struct BlockView {
    pub index: u64,
    pub timestamp: u64,
    pub transactions: Seq<TxView>,
    pub nonce: u64,
    pub previous_hash: Seq<u8>,
}

impl View for Block {
    type V = BlockView;

    open spec fn view(&self) -> BlockView {
        BlockView {
            index: self.index,
            timestamp: self.timestamp,
            transactions: self.transactions.deep_view(),
            nonce: self.nonce,
            previous_hash: self.previous_hash@,
        }
    }
}

impl DeepView for Block {
    type V = BlockView;

    open spec fn deep_view(&self) -> BlockView {
        self.view()
    }
}

/// Canonical encoding of one transaction: each string is preceded by the
/// length of its UTF-8 form, so distinct field values never collide.
pub open spec fn tx_bytes(t: TxView) -> Seq<u8> {
    u64_be_bytes(encode_utf8(t.sender).len() as u64) + encode_utf8(t.sender) + u64_be_bytes(
        encode_utf8(t.recipient).len() as u64,
    ) + encode_utf8(t.recipient) + u64_be_bytes(t.amount)
}

/// Canonical encoding of a transaction sequence, in order.
pub open spec fn txs_bytes(ts: Seq<TxView>) -> Seq<u8>
    decreases ts.len(),
{
    if ts.len() == 0 {
        Seq::empty()
    } else {
        tx_bytes(ts[0]) + txs_bytes(ts.drop_first())
    }
}

/// Appending one transaction extends the encoding at its end.
pub proof fn lemma_txs_bytes_push(ts: Seq<TxView>, t: TxView)
    ensures
        txs_bytes(ts.push(t)) == txs_bytes(ts) + tx_bytes(t),
    decreases ts.len(),
{
    if ts.len() == 0 {
        reveal_with_fuel(txs_bytes, 3);
        assert(ts.push(t)[0] == t);
        assert(ts.push(t).drop_first() =~= Seq::<TxView>::empty());
        assert(txs_bytes(ts.push(t)) =~= txs_bytes(ts) + tx_bytes(t));
    } else {
        reveal_with_fuel(txs_bytes, 3);
        assert(ts.push(t).drop_first() =~= ts.drop_first().push(t));
        lemma_txs_bytes_push(ts.drop_first(), t);
        assert(ts.push(t)[0] == ts[0]);
        assert(txs_bytes(ts.push(t)) == tx_bytes(ts[0]) + txs_bytes(ts.drop_first().push(t)));
        assert(txs_bytes(ts.push(t)) =~= txs_bytes(ts) + tx_bytes(t));
    }
}

/// Canonical encoding of a whole block: index, timestamp, transaction
/// count, transactions, nonce, and the length-prefixed previous hash.
pub open spec fn block_bytes(b: BlockView) -> Seq<u8> {
    u64_be_bytes(b.index) + u64_be_bytes(b.timestamp) + u64_be_bytes(b.transactions.len() as u64)
        + txs_bytes(b.transactions) + u64_be_bytes(b.nonce) + u64_be_bytes(
        b.previous_hash.len() as u64,
    ) + b.previous_hash
}

/// The digest of a block: SHA-256 of its canonical encoding.
pub open spec fn hash_of(b: BlockView) -> Seq<u8> {
    sha256_of(block_bytes(b))
}

/// Appends the canonical encoding of `t` to `out`.
fn push_tx_bytes(out: &mut Vec<u8>, t: &Transaction)
    ensures
        final(out)@ == old(out)@ + tx_bytes(t@),
{
    let mut sender_bytes = t.sender.as_str().as_bytes_vec();
    push_u64_be(out, sender_bytes.len() as u64);
    out.append(&mut sender_bytes);
    let mut recipient_bytes = t.recipient.as_str().as_bytes_vec();
    push_u64_be(out, recipient_bytes.len() as u64);
    out.append(&mut recipient_bytes);
    push_u64_be(out, t.amount);
    assert(out@ =~= old(out)@ + tx_bytes(t@));
}

/// Appends a copy of every byte of `src` to `out`.
fn push_bytes(out: &mut Vec<u8>, src: &Vec<u8>)
    ensures
        final(out)@ == old(out)@ + src@,
{
    let mut i: usize = 0;
    while i < src.len()
        invariant
            i <= src.len(),
            out@ == old(out)@ + src@.take(i as int),
        decreases src.len() - i,
    {
        out.push(src[i]);
        proof {
            assert(src@.take(i + 1 as int) =~= src@.take(i as int).push(src@[i as int]));
            assert(out@ =~= old(out)@ + src@.take(i + 1 as int));
        }
        i = i + 1;
    }
    assert(src@.take(src@.len() as int) =~= src@);
}

/// A fresh byte vector with the same contents.
pub fn dup_bytes(src: &Vec<u8>) -> (r: Vec<u8>)
    ensures
        r@ == src@,
{
    let mut out: Vec<u8> = Vec::new();
    push_bytes(&mut out, src);
    out
}

/// A fresh transaction vector with the same values.
pub fn dup_transactions(src: &Vec<Transaction>) -> (r: Vec<Transaction>)
    ensures
        r.deep_view() == src.deep_view(),
{
    let mut out: Vec<Transaction> = Vec::new();
    let mut i: usize = 0;
    while i < src.len()
        invariant
            i <= src.len(),
            out.deep_view() == src.deep_view().take(i as int),
        decreases src.len() - i,
    {
        let ghost out_before = out.deep_view();
        let d = src[i].duplicate();
        out.push(d);
        proof {
            assert(d@ == src@[i as int]@);
            assert(out_before.len() == i);
            assert forall|k: int|
                0 <= k < out@.len() implies out.deep_view()[k] == src.deep_view().take(
                i + 1 as int,
            )[k] by {
                assert(out.deep_view()[k] == out@[k].deep_view());
                if k < i {
                    assert(out@[k].deep_view() == out_before[k]);
                    assert(out_before[k] == src.deep_view().take(i as int)[k]);
                } else {
                    assert(out@[k] == d);
                }
                assert(src.deep_view().take(i + 1 as int)[k] == src@[k].deep_view());
            }
            assert(out.deep_view() =~= src.deep_view().take(i + 1 as int));
        }
        i = i + 1;
    }
    assert(src.deep_view().take(src.deep_view().len() as int) =~= src.deep_view());
    out
}

impl Block {
    /// The canonical byte encoding of this block.
    pub fn encode(&self) -> (r: Vec<u8>)
        ensures
            r@ == block_bytes(self@),
    {
        let mut out: Vec<u8> = Vec::new();
        push_u64_be(&mut out, self.index);
        push_u64_be(&mut out, self.timestamp);
        push_u64_be(&mut out, self.transactions.len() as u64);
        let ghost ts = self.transactions.deep_view();
        let mut i: usize = 0;
        let ghost prefix = out@;
        while i < self.transactions.len()
            invariant
                i <= self.transactions.len(),
                ts == self.transactions.deep_view(),
                out@ == prefix + txs_bytes(ts.take(i as int)),
            decreases self.transactions.len() - i,
        {
            push_tx_bytes(&mut out, &self.transactions[i]);
            proof {
                assert(ts.take(i + 1 as int) =~= ts.take(i as int).push(ts[i as int]));
                lemma_txs_bytes_push(ts.take(i as int), ts[i as int]);
            }
            i = i + 1;
        }
        proof {
            assert(ts.take(ts.len() as int) =~= ts);
        }
        push_u64_be(&mut out, self.nonce);
        push_u64_be(&mut out, self.previous_hash.len() as u64);
        push_bytes(&mut out, &self.previous_hash);
        assert(out@ =~= block_bytes(self@));
        out
    }

    /// The digest of this block, recomputed from its canonical encoding.
    pub fn hash(&self) -> (r: Vec<u8>)
        ensures
            r@ == hash_of(self@),
            r@.len() == 32,
    {
        let encoded = self.encode();
        sha256(&encoded)
    }

    /// A fresh block with the same value.
    pub fn duplicate(&self) -> (b: Block)
        ensures
            b@ == self@,
    {
        Block {
            index: self.index,
            timestamp: self.timestamp,
            transactions: dup_transactions(&self.transactions),
            nonce: self.nonce,
            previous_hash: dup_bytes(&self.previous_hash),
        }
    }
}

/// Compares two byte vectors for equality of contents.
pub fn bytes_eq(a: &Vec<u8>, b: &Vec<u8>) -> (r: bool)
    ensures
        r == (a@ == b@),
{
    if a.len() != b.len() {
        return false;
    }
    let mut i: usize = 0;
    while i < a.len()
        invariant
            i <= a.len(),
            a@.len() == b@.len(),
            forall|j: int| 0 <= j < i ==> a@[j] == b@[j],
        decreases a.len() - i,
    {
        if a[i] != b[i] {
            return false;
        }
        i = i + 1;
    }
    proof {
        assert(a@ =~= b@);
    }
    true
}

} // verus!
