//! The authoritative ledger: the append-only chain, the pending-transaction
//! pool, whole-chain validation, and the operations that extend or replace
//! the chain.

use crate::block::{bytes_eq, dup_transactions, hash_of, Block, BlockView};
use crate::hashing::digest_meets;
use crate::miner::{candidate, mine_block};
use crate::transaction::{insert_sorted, tx_sorted, valid_tx, Transaction, TxView};
use vstd::prelude::*;

verus! {

/// Why a submitted transaction was rejected.
#[derive(Debug, PartialEq, Eq, Structural)]
pub enum LedgerError {
    InvalidTransaction,
}

/// Structural validity of a whole chain at a given difficulty: non-empty,
/// the genesis sentinel shape at position 0, indices equal to positions,
/// every previous-hash equal to the digest of the predecessor, and every
/// block's digest satisfying the difficulty predicate.
pub open spec fn valid_chain(c: Seq<BlockView>, difficulty: u64) -> bool {
    &&& c.len() > 0
    &&& c[0].index == 0
    &&& c[0].previous_hash == Seq::<u8>::empty()
    &&& forall|i: int| 0 <= i < c.len() ==> (#[trigger] c[i].index) as int == i
    &&& forall|i: int| 1 <= i < c.len() ==> (#[trigger] c[i].previous_hash) == hash_of(c[i - 1])
    &&& forall|i: int| 0 <= i < c.len() ==> digest_meets(hash_of(#[trigger] c[i]), difficulty)
}

/// The ledger: a valid chain, a strictly sorted pool of well-formed pending
/// transactions, and the proof-of-work difficulty.
#[derive(Debug)]
pub struct Blockchain {
    pub chain: Vec<Block>,
    pub pending_transactions: Vec<Transaction>,
    pub difficulty: u64,
}

impl Blockchain {
    /// The ledger's invariant.
    pub open spec fn wf(self) -> bool {
        &&& valid_chain(self.chain.deep_view(), self.difficulty)
        &&& tx_sorted(self.pending_transactions.deep_view())
        &&& forall|i: int|
            0 <= i < self.pending_transactions.deep_view().len() ==> valid_tx(
                #[trigger] self.pending_transactions.deep_view()[i],
            )
    }

    /// The genesis block value at this difficulty with nonce `n`.
    pub open spec fn genesis_candidate(n: u64) -> BlockView {
        candidate(0, 0, Seq::empty(), Seq::empty(), n)
    }

    /// A fresh ledger: an empty pool and a chain holding only a mined
    /// genesis block (index 0, timestamp 0, no transactions, the empty
    /// previous-hash sentinel). `None` only in the practically unreachable
    /// case that no nonce satisfies the difficulty.
    pub fn new_with(difficulty: u64) -> (r: Option<Blockchain>)
        ensures
            match r {
                Some(bc) => {
                    &&& bc.wf()
                    &&& bc.difficulty == difficulty
                    &&& bc.chain.deep_view().len() == 1
                    &&& bc.chain.deep_view()[0] == Self::genesis_candidate(
                        bc.chain.deep_view()[0].nonce,
                    )
                    &&& bc.pending_transactions@.len() == 0
                },
                None => forall|n: u64|
                    !digest_meets(hash_of(Self::genesis_candidate(n)), difficulty),
            },
    {
        let transactions: Vec<Transaction> = Vec::new();
        let previous_hash: Vec<u8> = Vec::new();
        match mine_block(0, 0, transactions, previous_hash, difficulty) {
            Some(genesis) => {
                let mut chain: Vec<Block> = Vec::new();
                chain.push(genesis);
                let bc = Blockchain {
                    chain,
                    pending_transactions: Vec::new(),
                    difficulty,
                };
                proof {
                    let c = bc.chain.deep_view();
                    assert(c.len() == 1);
                    assert(c[0] == bc.chain@[0]@);
                    assert(bc.chain@[0]@.transactions =~= Seq::<TxView>::empty());
                    assert(bc.chain@[0]@.previous_hash =~= Seq::<u8>::empty());
                    assert(c[0] == Self::genesis_candidate(c[0].nonce));
                    assert(c[0].index == 0);
                    assert(digest_meets(hash_of(c[0]), difficulty));
                    assert(valid_chain(c, difficulty));
                    assert(bc.pending_transactions.deep_view().len() == 0);
                    assert(bc.wf());
                }
                Some(bc)
            },
            None => {
                proof {
                    assert(transactions.deep_view() =~= Seq::<TxView>::empty());
                }
                None
            },
        }
    }

    /// The current chain, oldest block first.
    pub fn chain(&self) -> (r: &Vec<Block>)
        ensures
            r@ == self.chain@,
            r.deep_view() == self.chain.deep_view(),
    {
        &self.chain
    }

    /// Validates the transaction's fields and inserts it into the pending
    /// pool; resubmitting an identical transaction is a no-op. On success
    /// returns the index the containing block will have (the current chain
    /// length), purely as a hint.
    pub fn submit_transaction(&mut self, tx: Transaction) -> (r: Result<usize, LedgerError>)
        requires
            old(self).wf(),
        ensures
            final(self).wf(),
            final(self).chain == old(self).chain,
            final(self).difficulty == old(self).difficulty,
            r is Ok <==> valid_tx(tx@),
            r is Ok ==> r == Ok::<usize, LedgerError>(old(self).chain.len())
                && final(self).pending_transactions.deep_view().to_set()
                == old(self).pending_transactions.deep_view().to_set().insert(tx@),
            r is Err ==> r == Err::<usize, LedgerError>(LedgerError::InvalidTransaction)
                && final(self).pending_transactions == old(self).pending_transactions,
    {
        if tx.sender.as_str().is_empty() || tx.recipient.as_str().is_empty() {
            return Err(LedgerError::InvalidTransaction);
        }
        let ghost p0 = self.pending_transactions.deep_view();
        let ghost txv = tx@;
        insert_sorted(&mut self.pending_transactions, tx);
        proof {
            let p1 = self.pending_transactions.deep_view();
            assert forall|i: int| 0 <= i < p1.len() implies valid_tx(p1[i]) by {
                assert(p1.contains(p1[i]));
                assert(p1.to_set().contains(p1[i]));
                if p1[i] != txv {
                    assert(p0.to_set().contains(p1[i]));
                    let j = choose|j: int| 0 <= j < p0.len() && p0[j] == p1[i];
                    assert(valid_tx(p0[j]));
                }
            }
        }
        Ok(self.chain.len())
    }

    /// Decides `valid_chain` for a candidate chain at this ledger's
    /// difficulty. Pure: reads only.
    #[verifier::rlimit(50)]
    pub fn is_valid_chain(&self, cand: &Vec<Block>) -> (r: bool)
        ensures
            r == valid_chain(cand.deep_view(), self.difficulty),
    {
        let ghost c = cand.deep_view();
        if cand.len() == 0 {
            return false;
        }
        if cand[0].index != 0 {
            proof {
                assert(c[0].index != 0);
            }
            return false;
        }
        if !cand[0].previous_hash.is_empty() {
            proof {
                assert(c[0].previous_hash.len() > 0);
            }
            return false;
        }
        proof {
            assert(c[0].previous_hash =~= Seq::<u8>::empty());
        }
        let mut i: usize = 0;
        while i < cand.len()
            invariant
                i <= cand.len(),
                c == cand.deep_view(),
                c.len() > 0,
                c[0].previous_hash == Seq::<u8>::empty(),
                c[0].index == 0,
                forall|j: int| 0 <= j < i ==> (#[trigger] c[j].index) as int == j,
                forall|j: int| 1 <= j < i ==> (#[trigger] c[j].previous_hash) == hash_of(c[j - 1]),
                forall|j: int|
                    0 <= j < i ==> digest_meets(hash_of(#[trigger] c[j]), self.difficulty),
            decreases cand.len() - i,
        {
            let blk_index = cand[i].index;
            if blk_index != i as u64 {
                proof {
                    assert(c[i as int].index as int != i as int);
                }
                return false;
            }
            let h = cand[i].hash();
            if !crate::hashing::meets_difficulty(&h, self.difficulty) {
                proof {
                    assert(!digest_meets(hash_of(c[i as int]), self.difficulty));
                }
                return false;
            }
            if i > 0 {
                let ph = cand[i - 1].hash();
                if !bytes_eq(&cand[i].previous_hash, &ph) {
                    proof {
                        assert(c[i as int].previous_hash != hash_of(c[i as int - 1]));
                    }
                    return false;
                }
            }
            i = i + 1;
        }
        true
    }

    /// Atomically swaps in a strictly longer valid chain; the pool and the
    /// difficulty are untouched.
    pub fn replace_chain(&mut self, cand: Vec<Block>)
        requires
            old(self).wf(),
            valid_chain(cand.deep_view(), old(self).difficulty),
            cand@.len() > old(self).chain@.len(),
        ensures
            final(self).wf(),
            final(self).chain == cand,
            final(self).pending_transactions == old(self).pending_transactions,
            final(self).difficulty == old(self).difficulty,
    {
        self.chain = cand;
    }

    /// Snapshots the whole pending pool into a candidate block with index
    /// equal to the chain length and the digest of the chain tip as its
    /// previous hash, mines a proof for it, appends the finished block, and
    /// clears exactly the included transactions. Returns a copy of the
    /// appended block, or `None` (ledger untouched) in the practically
    /// unreachable case that no nonce satisfies the difficulty.
    pub fn mine_next_block(&mut self, timestamp: u64) -> (r: Option<Block>)
        requires
            old(self).wf(),
            old(self).chain@.len() < u64::MAX,
        ensures
            final(self).difficulty == old(self).difficulty,
            match r {
                Some(b) => {
                    &&& final(self).wf()
                    &&& final(self).chain.deep_view() == old(self).chain.deep_view().push(b@)
                    &&& b@.index as int == old(self).chain@.len()
                    &&& b@.timestamp == timestamp
                    &&& b@.transactions == old(self).pending_transactions.deep_view()
                    &&& b@.previous_hash == hash_of(old(self).chain.deep_view().last())
                    &&& digest_meets(hash_of(b@), old(self).difficulty)
                    &&& final(self).pending_transactions@.len() == 0
                },
                None => *final(self) == *old(self) && forall|n: u64|
                    !digest_meets(
                        hash_of(
                            #[trigger] candidate(
                                old(self).chain@.len() as u64,
                                timestamp,
                                old(self).pending_transactions.deep_view(),
                                hash_of(old(self).chain.deep_view().last()),
                                n,
                            ),
                        ),
                        old(self).difficulty,
                    ),
            },
    {
        let index = self.chain.len() as u64;
        let tip = self.chain.len() - 1;
        let previous_hash = self.chain[tip].hash();
        let snapshot = dup_transactions(&self.pending_transactions);
        let ghost pool0 = self.pending_transactions.deep_view();
        match mine_block(index, timestamp, snapshot, previous_hash, self.difficulty) {
            Some(mined) => {
                let result = mined.duplicate();
                let ghost c0 = self.chain.deep_view();
                let ghost bv = mined@;
                self.chain.push(mined);
                self.pending_transactions.clear();
                proof {
                    assert(self.chain.deep_view() =~= c0.push(bv));
                    assert(self.pending_transactions.deep_view() =~= Seq::<TxView>::empty());
                    let c1 = self.chain.deep_view();
                    assert(c1[c1.len() - 1] == bv);
                    assert(bv.previous_hash == hash_of(c0[c0.len() - 1]));
                    assert(valid_chain(c1, self.difficulty)) by {
                        assert(forall|i: int| 0 <= i < c0.len() ==> c1[i] == c0[i]);
                        assert(c1[0] == c0[0]);
                    }
                }
                Some(result)
            },
            None => None,
        }
    }
}

/// In a valid chain every non-genesis block records the digest of its
/// predecessor and an index one above it.
pub proof fn lemma_valid_chain_links(c: Seq<BlockView>, difficulty: u64, i: int)
    requires
        valid_chain(c, difficulty),
        1 <= i < c.len(),
    ensures
        c[i].previous_hash == hash_of(c[i - 1]),
        c[i].index == c[i - 1].index + 1,
{
}

/// In a valid chain every block's digest, the genesis block's included,
/// satisfies the difficulty predicate.
pub proof fn lemma_valid_chain_proofs(c: Seq<BlockView>, difficulty: u64, i: int)
    requires
        valid_chain(c, difficulty),
        0 <= i < c.len(),
    ensures
        digest_meets(hash_of(c[i]), difficulty),
{
}

} // verus!
