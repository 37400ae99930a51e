use blockchain::chain::{Block, Chain, ChainError};

fn grown(n: usize) -> Chain {
    let mut c = Chain::new().unwrap();
    while c.len() < n {
        let data = format!("block {}", c.len());
        assert!(c.add_block(&data).is_some());
    }
    c
}

#[test]
fn genesis_block_shape() {
    let c = Chain::new().unwrap();
    assert_eq!(c.len(), 1);
    let g = &c.blocks()[0];
    assert_eq!(g.index, 0);
    assert_eq!(g.prev_hash.len(), 32);
    assert!(g.prev_hash.iter().any(|b| *b != 0));
    assert_eq!(g.data, "genesis block");
    assert_eq!(g.hash.len(), 32);
    assert!(c.is_valid_chain());
}

#[test]
fn independent_genesis_blocks_differ() {
    let a = Chain::new().unwrap();
    let b = Chain::new().unwrap();
    assert_ne!(a.blocks()[0].prev_hash, b.blocks()[0].prev_hash);
}

#[test]
fn append_two_blocks() {
    let mut c = Chain::new().unwrap();
    let first = c.add_block("first block").unwrap();
    assert_eq!(first.index, 1);
    assert_eq!(first.data, "first block");
    c.add_block("next block");
    assert_eq!(c.len(), 3);
    let indices: Vec<usize> = c.blocks().iter().map(|b| b.index).collect();
    assert_eq!(indices, vec![0, 1, 2]);
    assert_eq!(c.blocks()[1].prev_hash, c.blocks()[0].hash);
    assert_eq!(c.blocks()[2].prev_hash, c.blocks()[1].hash);
    assert!(c.is_valid_chain());
}

#[test]
fn appended_chains_stay_valid() {
    let c = grown(10);
    assert_eq!(c.len(), 10);
    assert!(c.is_valid_chain());
}

#[test]
fn longer_valid_chain_is_adopted() {
    let mut a = grown(3);
    let mut b = grown(5);
    let b_blocks = b.blocks().clone();
    let a_blocks = a.blocks().clone();
    let latest = a.replace_chain(&b_blocks).expect("longer chain adopted");
    assert_eq!(latest.hash, b_blocks[4].hash);
    assert_eq!(a.len(), 5);
    assert_eq!(a.to_string(), b.to_string());
    assert!(b.replace_chain(&a_blocks).is_none());
    assert_eq!(b.len(), 5);
    assert_eq!(b.blocks()[4].hash, b_blocks[4].hash);
}

#[test]
fn equal_length_chain_is_rejected() {
    let mut a = grown(3);
    let b = grown(3);
    let before = a.to_string();
    assert!(a.replace_chain(b.blocks()).is_none());
    assert_eq!(a.to_string(), before);
}

#[test]
fn invalid_candidate_is_rejected() {
    let mut a = grown(3);
    let mut b = grown(5);
    b.tamper_block(2, "x");
    assert!(!b.is_valid_chain());
    assert!(a.replace_chain(b.blocks()).is_none());
    assert_eq!(a.len(), 3);
}

#[test]
fn tampered_local_chain_rejects_candidates() {
    let mut c = grown(3);
    c.tamper_block(1, "x");
    assert!(!c.is_valid_chain());
    assert_eq!(c.blocks()[1].data, "x");
    let shorter = grown(2);
    let same = grown(3);
    let longer = grown(4);
    assert!(c.replace_chain(shorter.blocks()).is_none());
    assert!(c.replace_chain(same.blocks()).is_none());
    assert!(c.replace_chain(longer.blocks()).is_none());
    assert_eq!(c.len(), 3);
    assert_eq!(c.blocks()[1].data, "x");
}

#[test]
fn tamper_any_later_block_breaks_validity() {
    for i in 1..4 {
        let mut c = grown(4);
        let hash = c.blocks()[i].hash.clone();
        c.tamper_block(i, "x");
        assert_eq!(c.blocks()[i].hash, hash);
        assert!(!c.is_valid_chain());
    }
}

#[test]
fn tamper_genesis_keeps_links() {
    let mut c = grown(3);
    c.tamper_block(0, "x");
    assert!(c.is_valid_chain());
}

#[test]
fn nth_block_in_and_out_of_range() {
    let c = grown(3);
    let b = c.nth_block(2).unwrap();
    assert_eq!(b.index, 2);
    assert_eq!(b.hash, c.blocks()[2].hash);
    assert_eq!(c.nth_block(3).err(), Some(ChainError::IndexOutOfRange));
    assert_eq!(c.print_nth_block(1).unwrap(), c.blocks()[1].to_string());
    assert_eq!(c.print_nth_block(7), Err(ChainError::IndexOutOfRange));
}

#[test]
fn chain_text_concatenates_blocks() {
    let c = grown(3);
    let expected: String = c.blocks().iter().map(|b| b.to_string()).collect();
    assert_eq!(c.to_string(), expected);
}

#[test]
fn broadcast_latest_is_tail() {
    let c = grown(4);
    let latest = c.broadcast_latest().unwrap();
    assert_eq!(latest.index, 3);
    assert_eq!(latest.hash, c.blocks()[3].hash);
}

#[test]
fn block_links_checked_field_by_field() {
    let c = grown(2);
    let prev = &c.blocks()[0];
    let cur = &c.blocks()[1];
    assert!(Chain::is_valid_block(prev, cur));
    assert!(!Chain::is_valid_block(cur, prev));
    let mut wrong_index = cur.clone();
    wrong_index.index = 5;
    assert!(!Chain::is_valid_block(prev, &wrong_index));
    let mut wrong_prev = cur.clone();
    wrong_prev.prev_hash[0] ^= 1;
    assert!(!Chain::is_valid_block(prev, &wrong_prev));
    let digest = cur.hash.clone();
    assert!(Chain::links_given_digest(prev, cur, &digest));
    assert!(!Chain::links_given_digest(prev, cur, &vec![0u8; 32]));
}

#[test]
fn link_block_is_deterministic() {
    let genesis = Chain::link_block(None, "genesis block", 7, vec![1, 2, 3]);
    assert_eq!(genesis.index, 0);
    assert_eq!(genesis.prev_hash, vec![1, 2, 3]);
    assert_eq!(genesis.ts, 7);
    let next = Chain::link_block(Some(&genesis), "next", 9, vec![]);
    assert_eq!(next.index, 1);
    assert_eq!(next.prev_hash, genesis.hash);
    assert!(Chain::is_valid_block(&genesis, &next));
    let again = Chain::link_block(Some(&genesis), "next", 9, vec![]);
    assert_eq!(again.hash, next.hash);
    let later = Chain::link_block(Some(&genesis), "next", 10, vec![]);
    assert_ne!(later.hash, next.hash);
}

#[test]
fn hash_block_fills_digest() {
    let b = Block {
        index: 1,
        hash: vec![],
        prev_hash: vec![0u8; 32],
        ts: 1000,
        data: "abc".to_string(),
    };
    let h = Chain::hash_block(&b);
    assert_eq!(h.index, 1);
    assert_eq!(h.data, "abc");
    assert_eq!(
        h.hash,
        vec![
            176, 77, 19, 201, 22, 27, 75, 132, 217, 119, 7, 72, 224, 101, 139, 133, 13, 73, 140,
            113, 114, 61, 101, 16, 234, 121, 18, 179, 75, 173, 7, 154
        ]
    );
}

#[test]
fn genesis_from_given_seed_and_time() {
    let c = Chain::with_genesis(vec![7; 32], 42);
    assert_eq!(c.len(), 1);
    let g = &c.blocks()[0];
    assert_eq!(g.index, 0);
    assert_eq!(g.prev_hash, vec![7; 32]);
    assert_eq!(g.ts, 42);
    assert_eq!(g.data, "genesis block");
    assert_eq!(g.hash.len(), 32);
    let again = Chain::with_genesis(vec![7; 32], 42);
    assert_eq!(again.to_string(), c.to_string());
}

#[test]
fn append_at_given_time() {
    let mut c = Chain::with_genesis(vec![1; 32], 5);
    let b = c.append_at("payload", 6, vec![]).unwrap();
    assert_eq!(b.index, 1);
    assert_eq!(b.ts, 6);
    assert_eq!(b.data, "payload");
    assert_eq!(c.blocks()[1].prev_hash, c.blocks()[0].hash);
    assert!(c.is_valid_chain());
}

#[test]
fn append_stops_at_largest_index() {
    let start = Block {
        index: usize::MAX - 1,
        hash: vec![],
        prev_hash: vec![0; 32],
        ts: 0,
        data: "far".to_string(),
    };
    let b0 = Chain::hash_block(&start);
    let b1 = Chain::link_block(Some(&b0), "top", 1, vec![]);
    assert_eq!(b1.index, usize::MAX);
    let mut c = Chain::with_genesis(vec![0; 32], 0);
    assert!(c.replace_chain(&vec![b0, b1]).is_some());
    let before = c.to_string();
    assert!(c.append_at("x", 2, vec![]).is_none());
    assert!(c.add_block("x").is_none());
    assert_eq!(c.to_string(), before);
    assert_eq!(c.len(), 2);
}
