//! Proof-of-work search: find a nonce that makes a candidate block's digest
//! satisfy the difficulty predicate.

use crate::block::{hash_of, Block, BlockView};
use crate::hashing::{digest_meets, meets_difficulty};
use crate::transaction::Transaction;
use vstd::prelude::*;

verus! {

/// The candidate block formed from the given fields and a trial nonce.
pub open spec fn candidate(
    index: u64,
    timestamp: u64,
    transactions: Seq<crate::transaction::TxView>,
    previous_hash: Seq<u8>,
    nonce: u64,
) -> BlockView {
    BlockView { index, timestamp, transactions, nonce, previous_hash }
}

/// Searches nonces upward from 0 for one whose digest satisfies the
/// difficulty predicate, and returns the finished block. Returns `None`
/// only in the practically unreachable case that no 64-bit nonce works;
/// the search is CPU-bound and mutates nothing.
#[verifier::loop_isolation(false)]
pub fn mine_block(
    index: u64,
    timestamp: u64,
    transactions: Vec<Transaction>,
    previous_hash: Vec<u8>,
    difficulty: u64,
) -> (r: Option<Block>)
    ensures
        match r {
            Some(b) => b@ == candidate(
                index,
                timestamp,
                transactions.deep_view(),
                previous_hash@,
                b@.nonce,
            ) && digest_meets(hash_of(b@), difficulty) && forall|n: u64|
                n < b@.nonce ==> !digest_meets(
                    hash_of(
                        #[trigger] candidate(
                            index,
                            timestamp,
                            transactions.deep_view(),
                            previous_hash@,
                            n,
                        ),
                    ),
                    difficulty,
                ),
            None => forall|n: u64|
                !digest_meets(
                    hash_of(
                        candidate(index, timestamp, transactions.deep_view(), previous_hash@, n),
                    ),
                    difficulty,
                ),
        },
{
    let ghost txs = transactions.deep_view();
    let ghost prev = previous_hash@;
    let mut block = Block { index, timestamp, transactions, nonce: 0, previous_hash };
    loop
        invariant
            block.index == index,
            block.timestamp == timestamp,
            block.transactions.deep_view() == txs,
            block.previous_hash@ == prev,
            forall|n: u64|
                n < block.nonce ==> !digest_meets(
                    hash_of(candidate(index, timestamp, txs, prev, n)),
                    difficulty,
                ),
        decreases u64::MAX - block.nonce,
    {
        let digest = block.hash();
        if meets_difficulty(&digest, difficulty) {
            proof {
                assert(block@ == candidate(index, timestamp, txs, prev, block.nonce));
            }
            return Some(block);
        }
        if block.nonce == u64::MAX {
            proof {
                assert forall|n: u64|
                    !digest_meets(
                        hash_of(candidate(index, timestamp, txs, prev, n)),
                        difficulty,
                    ) by {
                    if n == u64::MAX {
                        assert(candidate(index, timestamp, txs, prev, n) == block@);
                    }
                }
            }
            return None;
        }
        block.nonce = block.nonce + 1;
    }
}

} // verus!
