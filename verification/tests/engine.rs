use block_events::api::{BlockEvent, BlockExtended, BlockHash, BlockHeader, TxMerkleNode};
use block_events::{BlockHeadersCache, CandidateStep};

fn hash(n: u64) -> BlockHash {
    BlockHash { w0: n, w1: 0, w2: 0, w3: 0 }
}

fn block(id: u64, prev: u64, height: u32) -> BlockExtended {
    BlockExtended {
        id: hash(id),
        height,
        version: 2,
        prev_blockhash: hash(prev),
        merkle_root: TxMerkleNode { w0: id, w1: 1, w2: 2, w3: 3 },
        time: 1_600_000_000 + height,
        bits: 0x1d00ffff,
        nonce: 42,
    }
}

fn events_of(step: CandidateStep) -> Vec<BlockEvent<BlockHeader>> {
    match step {
        CandidateStep::Events(events) => events,
        CandidateStep::Fetch(search) => {
            panic!("expected events, engine asked to fetch {:?}", search.awaited)
        }
    }
}

#[test]
fn test_cache_new_is_seeded() {
    let cache = BlockHeadersCache::new(hash(7));
    assert_eq!(cache.tip, hash(7));
    assert!(cache.active_headers.is_empty());
    assert!(cache.stale_headers.is_empty());
}

#[test]
fn test_validate_new_header_accepts_linear_extension() {
    let mut cache = BlockHeadersCache::new(hash(0));
    let a = block(1, 0, 100);
    assert!(cache.validate_new_header(a));
    assert_eq!(cache.tip, hash(1));
    assert_eq!(cache.active_headers, vec![a]);
    assert!(cache.stale_headers.is_empty());
}

#[test]
fn test_validate_new_header_rejects_unknown_parent() {
    let mut cache = BlockHeadersCache::new(hash(0));
    let orphan = block(5, 9, 100);
    assert!(!cache.validate_new_header(orphan));
    assert_eq!(cache.tip, hash(0));
    assert!(cache.active_headers.is_empty());
}

// For a sequence of N linear announcements the engine emits exactly N
// `Connected` events, in announcement order, and the tip ends at the last
// announced identity.
#[test]
fn test_linear_announcements_connect_in_order() {
    let mut cache = BlockHeadersCache::new(hash(0));
    let candidates = vec![block(1, 0, 100), block(2, 1, 101), block(3, 2, 102), block(4, 3, 103)];
    let mut emitted: Vec<BlockEvent<BlockHeader>> = Vec::new();
    for candidate in &candidates {
        emitted.extend(events_of(cache.process_candidate(*candidate)));
    }
    let expected: Vec<BlockEvent<BlockHeader>> = candidates
        .iter()
        .map(|c| BlockEvent::Connected(BlockHeader::from(*c)))
        .collect();
    assert_eq!(emitted, expected);
    assert_eq!(cache.tip, hash(4));
    assert_eq!(cache.active_headers, candidates);
}

#[test]
fn test_rollback_active_chain_returns_newest_first() {
    let a = block(1, 0, 100);
    let b = block(2, 1, 101);
    let c = block(3, 2, 102);
    let mut cache = BlockHeadersCache {
        tip: hash(3),
        active_headers: vec![a, b, c],
        stale_headers: Vec::new(),
    };
    let disconnected = cache.rollback_active_chain(a);
    assert_eq!(disconnected, vec![c, b]);
    assert_eq!(cache.tip, hash(1));
    assert_eq!(cache.active_headers, vec![a]);
    assert_eq!(cache.stale_headers, vec![c, b]);
}

#[test]
fn test_rollback_to_current_tip_removes_nothing() {
    let a = block(1, 0, 100);
    let mut cache = BlockHeadersCache {
        tip: hash(1),
        active_headers: vec![a],
        stale_headers: Vec::new(),
    };
    let disconnected = cache.rollback_active_chain(a);
    assert!(disconnected.is_empty());
    assert_eq!(cache.active_headers, vec![a]);
}

#[test]
fn test_apply_fork_chain_connects_oldest_first() {
    let a = block(1, 0, 100);
    // fork branch newest first: e <- d, with d extending a
    let d = block(4, 1, 101);
    let e = block(5, 4, 102);
    let mut cache = BlockHeadersCache {
        tip: hash(1),
        active_headers: vec![a],
        stale_headers: Vec::new(),
    };
    let (new_tip, connected) = cache.apply_fork_chain(vec![e, d]);
    assert_eq!(connected, vec![d, e]);
    assert_eq!(new_tip, hash(5));
    assert_eq!(cache.tip, hash(5));
    assert_eq!(cache.active_headers, vec![a, d, e]);
}

// Reorg: with an active chain of three blocks, displacing the two above the
// common ancestor in favour of a two-block fork emits exactly two
// `Disconnected` events in descending height order followed by two
// `Connected` events in ascending height order, and the tip ends at the
// newest fork block.
#[test]
fn test_reorg_disconnects_then_connects() {
    let a = block(1, 0, 100);
    let b = block(2, 1, 101);
    let c = block(3, 2, 102);
    let mut cache = BlockHeadersCache {
        tip: hash(3),
        active_headers: vec![a, b, c],
        stale_headers: Vec::new(),
    };
    // fork: d extends a, e extends d; announce e first (newest)
    let d = block(4, 1, 101);
    let e = block(5, 4, 102);
    let step = cache.process_candidate(e);
    let search = match step {
        CandidateStep::Fetch(search) => search,
        CandidateStep::Events(events) => panic!("unexpected events {:?}", events),
    };
    assert_eq!(search.awaited, hash(4));
    assert_eq!(search.fork_branch, vec![e]);
    let step = cache.process_fetched(search, d);
    let search = match step {
        CandidateStep::Fetch(search) => search,
        CandidateStep::Events(events) => panic!("unexpected events {:?}", events),
    };
    assert_eq!(search.awaited, hash(1));
    assert_eq!(search.fork_branch, vec![e, d]);
    let step = cache.process_fetched(search, a);
    let events = events_of(step);
    assert_eq!(
        events,
        vec![
            BlockEvent::Disconnected(102, hash(3)),
            BlockEvent::Disconnected(101, hash(2)),
            BlockEvent::Connected(BlockHeader::from(d)),
            BlockEvent::Connected(BlockHeader::from(e)),
        ]
    );
    assert_eq!(cache.tip, hash(5));
    assert_eq!(cache.active_headers, vec![a, d, e]);
    assert_eq!(cache.stale_headers, vec![c, b]);
}

// Concrete scenario: tip at height 100 with hash A on the active chain.
// Candidate B with parent A is connected and becomes the tip. A candidate C
// whose parent X is unknown makes the engine fetch ancestors backward from C
// until it finds A in the active chain; the resolution then disconnects
// (101, B) and connects the fork headers oldest first: X, then C.
#[test]
fn test_concrete_fork_scenario() {
    let a = block(10, 9, 100);
    let mut cache = BlockHeadersCache {
        tip: hash(10),
        active_headers: vec![a],
        stale_headers: Vec::new(),
    };
    let b = block(11, 10, 101);
    let events = events_of(cache.process_candidate(b));
    assert_eq!(events, vec![BlockEvent::Connected(BlockHeader::from(b))]);
    assert_eq!(cache.tip, hash(11));

    let x = block(20, 10, 101);
    let c = block(21, 20, 102);
    let step = cache.process_candidate(c);
    let search = match step {
        CandidateStep::Fetch(search) => search,
        CandidateStep::Events(events) => panic!("unexpected events {:?}", events),
    };
    assert_eq!(search.awaited, hash(20));
    let step = cache.process_fetched(search, x);
    let search = match step {
        CandidateStep::Fetch(search) => search,
        CandidateStep::Events(events) => panic!("unexpected events {:?}", events),
    };
    assert_eq!(search.awaited, hash(10));
    assert_eq!(search.fork_branch, vec![c, x]);
    let events = events_of(cache.process_fetched(search, a));
    assert_eq!(
        events,
        vec![
            BlockEvent::Disconnected(101, hash(11)),
            BlockEvent::Connected(BlockHeader::from(x)),
            BlockEvent::Connected(BlockHeader::from(c)),
        ]
    );
    assert_eq!(cache.tip, hash(21));
    assert_eq!(cache.active_headers, vec![a, x, c]);
    assert_eq!(cache.stale_headers, vec![b]);
}

// A candidate whose identity is already active and whose parent is not the
// tip resolves as a rollback to itself: the chain above it is disconnected
// and nothing is connected.
#[test]
fn test_already_active_candidate_rolls_back_to_itself() {
    let a = block(1, 0, 100);
    let b = block(2, 1, 101);
    let c = block(3, 2, 102);
    let mut cache = BlockHeadersCache {
        tip: hash(3),
        active_headers: vec![a, b, c],
        stale_headers: Vec::new(),
    };
    let events = events_of(cache.process_candidate(b));
    assert_eq!(events, vec![BlockEvent::Disconnected(102, hash(3))]);
    assert_eq!(cache.tip, hash(2));
    assert_eq!(cache.active_headers, vec![a, b]);
    assert_eq!(cache.stale_headers, vec![c]);
}

#[test]
fn test_block_header_from_extended_keeps_header_fields() {
    let b = block(8, 7, 500);
    let header = BlockHeader::from(b);
    assert_eq!(header.version, b.version);
    assert_eq!(header.prev_blockhash, b.prev_blockhash);
    assert_eq!(header.merkle_root, b.merkle_root);
    assert_eq!(header.time, b.time);
    assert_eq!(header.bits, b.bits);
    assert_eq!(header.nonce, b.nonce);
}
