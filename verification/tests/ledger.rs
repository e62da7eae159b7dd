use blockchain::block::Block;
use blockchain::blockchain::{Blockchain, LedgerError};
use blockchain::transaction::Transaction;

fn tx(sender: &str, recipient: &str, amount: u64) -> Transaction {
    Transaction { sender: sender.to_string(), recipient: recipient.to_string(), amount }
}

fn dup_chain(chain: &Vec<Block>) -> Vec<Block> {
    chain.iter().map(|b| b.duplicate()).collect()
}

#[test]
fn mine() {
    let blockchain = Blockchain::new_with(1);
    assert!(blockchain.is_some());
}

#[test]
fn genesis_shape() {
    let ledger = Blockchain::new_with(1).unwrap();
    let chain = ledger.chain();
    assert_eq!(chain.len(), 1);
    assert_eq!(chain[0].index, 0);
    assert_eq!(chain[0].timestamp, 0);
    assert!(chain[0].transactions.is_empty());
    assert!(chain[0].previous_hash.is_empty());
}

#[test]
fn genesis_only_chain_is_valid() {
    let ledger = Blockchain::new_with(1).unwrap();
    assert!(ledger.is_valid_chain(ledger.chain()));
}

#[test]
fn submit_and_mine_includes_exactly_the_submission() {
    let mut ledger = Blockchain::new_with(1).unwrap();
    let index = ledger.submit_transaction(tx("A", "B", 10)).unwrap();
    assert_eq!(index, 1);
    let block = ledger.mine_next_block(7).unwrap();
    assert_eq!(block.index, 1);
    assert_eq!(block.timestamp, 7);
    assert_eq!(block.transactions.len(), 1);
    assert_eq!(block.transactions[0].sender, "A");
    assert_eq!(block.transactions[0].recipient, "B");
    assert_eq!(block.transactions[0].amount, 10);
    assert_eq!(ledger.chain().len(), 2);
    assert_eq!(ledger.pending_transactions.len(), 0);
    assert!(ledger.is_valid_chain(ledger.chain()));
}

#[test]
fn resubmitting_identical_transaction_is_a_no_op() {
    let mut ledger = Blockchain::new_with(1).unwrap();
    ledger.submit_transaction(tx("A", "B", 10)).unwrap();
    ledger.submit_transaction(tx("A", "B", 10)).unwrap();
    assert_eq!(ledger.pending_transactions.len(), 1);
}

#[test]
fn pool_is_kept_in_sender_recipient_amount_order() {
    let mut ledger = Blockchain::new_with(1).unwrap();
    ledger.submit_transaction(tx("B", "A", 5)).unwrap();
    ledger.submit_transaction(tx("A", "B", 10)).unwrap();
    ledger.submit_transaction(tx("A", "B", 2)).unwrap();
    assert_eq!(ledger.pending_transactions.len(), 3);
    assert_eq!(ledger.pending_transactions[0].sender, "A");
    assert_eq!(ledger.pending_transactions[0].amount, 2);
    assert_eq!(ledger.pending_transactions[1].sender, "A");
    assert_eq!(ledger.pending_transactions[1].amount, 10);
    assert_eq!(ledger.pending_transactions[2].sender, "B");
}

#[test]
fn malformed_transactions_are_rejected() {
    let mut ledger = Blockchain::new_with(1).unwrap();
    let empty_sender = ledger.submit_transaction(tx("", "B", 10));
    assert_eq!(empty_sender, Err(LedgerError::InvalidTransaction));
    let empty_recipient = ledger.submit_transaction(tx("A", "", 10));
    assert_eq!(empty_recipient, Err(LedgerError::InvalidTransaction));
    assert_eq!(ledger.pending_transactions.len(), 0);
}

#[test]
fn mining_an_empty_pool_appends_an_empty_block() {
    let mut ledger = Blockchain::new_with(1).unwrap();
    let block = ledger.mine_next_block(3).unwrap();
    assert_eq!(block.index, 1);
    assert!(block.transactions.is_empty());
    assert_eq!(ledger.chain().len(), 2);
    assert!(ledger.is_valid_chain(ledger.chain()));
}

#[test]
fn chain_links_record_predecessor_hashes() {
    let mut ledger = Blockchain::new_with(1).unwrap();
    ledger.mine_next_block(1).unwrap();
    ledger.mine_next_block(2).unwrap();
    let chain = ledger.chain();
    assert_eq!(chain.len(), 3);
    for i in 1..chain.len() {
        assert_eq!(chain[i].previous_hash, chain[i - 1].hash());
        assert_eq!(chain[i].index, chain[i - 1].index + 1);
    }
    for block in chain.iter() {
        assert!(blockchain::hashing::meets_difficulty(&block.hash(), 1));
    }
}

#[test]
fn broken_link_is_rejected() {
    let mut ledger = Blockchain::new_with(1).unwrap();
    ledger.mine_next_block(1).unwrap();
    let mut tampered = dup_chain(ledger.chain());
    tampered[1].previous_hash = vec![0u8; 32];
    assert!(!ledger.is_valid_chain(&tampered));
}

#[test]
fn non_monotonic_index_is_rejected() {
    let ledger = Blockchain::new_with(1).unwrap();
    let genesis = ledger.chain()[0].duplicate();
    let twice = vec![ledger.chain()[0].duplicate(), genesis];
    assert!(!ledger.is_valid_chain(&twice));
}

#[test]
fn insufficient_proof_is_rejected() {
    let ledger = Blockchain::new_with(1).unwrap();
    // No 256-bit digest can carry 300 leading zero bits, so at this
    // difficulty every proof fails.
    let strict = Blockchain {
        chain: dup_chain(ledger.chain()),
        pending_transactions: Vec::new(),
        difficulty: 300,
    };
    assert!(!strict.is_valid_chain(ledger.chain()));
}

#[test]
fn empty_chain_is_rejected() {
    let ledger = Blockchain::new_with(1).unwrap();
    let empty: Vec<Block> = Vec::new();
    assert!(!ledger.is_valid_chain(&empty));
}

#[test]
fn replace_chain_swaps_the_chain() {
    let mut ledger = Blockchain::new_with(1).unwrap();
    let mut longer = Blockchain::new_with(1).unwrap();
    longer.mine_next_block(1).unwrap();
    ledger.replace_chain(dup_chain(longer.chain()));
    assert_eq!(ledger.chain().len(), 2);
    assert!(ledger.is_valid_chain(ledger.chain()));
}
