use blockchain::block::Block;
use blockchain::blockchain::Blockchain;
use blockchain::consensus::resolve_conflicts;
use blockchain::registry::{NodeRegistry, RegistryError};

fn dup_chain(chain: &Vec<Block>) -> Vec<Block> {
    chain.iter().map(|b| b.duplicate()).collect()
}

#[test]
fn resolution_adopts_longer_valid_peer_chain() {
    // Genesis-only local chain, one peer with a valid 3-block chain, one
    // peer unreachable: the local chain is replaced and has length 3.
    let mut local = Blockchain::new_with(1).unwrap();
    let mut peer = Blockchain::new_with(1).unwrap();
    peer.mine_next_block(1).unwrap();
    peer.mine_next_block(2).unwrap();
    let fetched = vec![Some(dup_chain(peer.chain())), None];
    let replaced = resolve_conflicts(&mut local, fetched);
    assert!(replaced);
    assert_eq!(local.chain().len(), 3);
    assert!(local.is_valid_chain(local.chain()));
}

#[test]
fn resolution_discards_longer_invalid_peer_chain() {
    // A valid local chain of length 5 against a peer reporting length 7
    // that fails validation: the local chain stays authoritative.
    let mut local = Blockchain::new_with(1).unwrap();
    for t in 1..5 {
        local.mine_next_block(t).unwrap();
    }
    assert_eq!(local.chain().len(), 5);
    let mut bogus = dup_chain(local.chain());
    bogus.push(local.chain()[4].duplicate());
    bogus.push(local.chain()[4].duplicate());
    assert_eq!(bogus.len(), 7);
    assert!(!local.is_valid_chain(&bogus));
    let fetched = vec![Some(bogus)];
    let replaced = resolve_conflicts(&mut local, fetched);
    assert!(!replaced);
    assert_eq!(local.chain().len(), 5);
}

#[test]
fn resolution_ignores_shorter_and_equal_peer_chains() {
    let mut local = Blockchain::new_with(1).unwrap();
    local.mine_next_block(1).unwrap();
    let equal = dup_chain(local.chain());
    let shorter = vec![local.chain()[0].duplicate()];
    let fetched = vec![Some(shorter), Some(equal), None];
    let replaced = resolve_conflicts(&mut local, fetched);
    assert!(!replaced);
    assert_eq!(local.chain().len(), 2);
}

#[test]
fn resolution_keeps_local_chain_on_a_tie() {
    let mut local = Blockchain::new_with(1).unwrap();
    let mut peer = Blockchain::new_with(1).unwrap();
    peer.mine_next_block(1).unwrap();
    peer.mine_next_block(2).unwrap();
    let fetched = vec![Some(dup_chain(peer.chain())), Some(dup_chain(peer.chain()))];
    let replaced = resolve_conflicts(&mut local, fetched);
    assert!(!replaced);
    assert_eq!(local.chain().len(), 1);
}

#[test]
fn resolution_with_no_peers_keeps_local_chain() {
    let mut local = Blockchain::new_with(1).unwrap();
    let replaced = resolve_conflicts(&mut local, Vec::new());
    assert!(!replaced);
    assert_eq!(local.chain().len(), 1);
}

#[test]
fn registering_a_batch_with_a_malformed_url_changes_nothing() {
    let mut registry = NodeRegistry::new();
    let nodes = vec!["http://x/".to_string(), "not a url".to_string()];
    let r = registry.register_all(&nodes);
    assert_eq!(r, Err(RegistryError::InvalidNodeUrl));
    assert_eq!(registry.list().len(), 0);
}

#[test]
fn registering_a_valid_batch_stores_normalized_addresses() {
    let mut registry = NodeRegistry::new();
    let nodes = vec!["http://x".to_string(), "http://y:8080/chain".to_string()];
    let total = registry.register_all(&nodes).unwrap();
    assert_eq!(total, 2);
    // The parser normalizes "http://x" to "http://x/".
    assert!(registry.list().contains(&"http://x/".to_string()));
    assert!(registry.list().contains(&"http://y:8080/chain".to_string()));
}

#[test]
fn registering_a_duplicate_address_is_a_no_op() {
    let mut registry = NodeRegistry::new();
    registry.register("http://x/".to_string());
    registry.register("http://x/".to_string());
    assert_eq!(registry.list().len(), 1);
}
