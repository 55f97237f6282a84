use block_events::api::{
    BlockEvent, BlockExtended, BlockHash, BlockHeader, Error, MempoolSpaceWebSocketRequestData,
    TxMerkleNode,
};
use block_events::backfill::BackfillState;
use block_events::messages::{
    build_request_message, build_websocket_request_message, get_default_websocket_address,
    Network, RequestMessage,
};
use block_events::BlockHeadersCache;

fn hash(n: u64) -> BlockHash {
    BlockHash { w0: n, w1: 0, w2: 0, w3: 0 }
}

fn block(id: u64, prev: u64, height: u32) -> BlockExtended {
    BlockExtended {
        id: hash(id),
        height,
        version: 2,
        prev_blockhash: hash(prev),
        merkle_root: TxMerkleNode { w0: id, w1: 1, w2: 2, w3: 3 },
        time: 1_600_000_000 + height,
        bits: 0x1d00ffff,
        nonce: 42,
    }
}

// Subscribing with a checkpoint whose hash does not match the provider's
// header at that height fails synchronously with `CheckpointInvalid`, before
// any header is fetched.
#[test]
fn test_invalid_checkpoint_fails_before_any_event() {
    let result = BackfillState::new((20, hash(99)), hash(20), 25);
    assert_eq!(result, Err(Error::CheckpointInvalid));
    assert_eq!(
        Error::CheckpointInvalid.message(),
        "The checkpoint passed is invalid, it should exist in the blockchain."
    );
}

// Backfilling from a valid checkpoint at height h with the tip at height t
// walks exactly the heights h..=t, ascending; fed through the cache, those
// headers come out as exactly t - h + 1 `Connected` events in ascending
// height order.
#[test]
fn test_checkpoint_backfill_covers_heights_ascending() {
    let checkpoint_height: u32 = 20;
    let tip_height: u32 = 23;
    let mut state =
        BackfillState::new((checkpoint_height, hash(20)), hash(20), tip_height).unwrap();

    let mut heights = Vec::new();
    while let Some(height) = state.next_to_fetch() {
        heights.push(height);
        state.advance();
    }
    assert_eq!(heights, vec![20, 21, 22, 23]);
    assert_eq!(state.next_to_fetch(), None);

    // seed the cache at the checkpoint's parent, then replay the headers
    let mut cache = BlockHeadersCache::new(hash(19));
    let mut emitted: Vec<BlockEvent<BlockHeader>> = Vec::new();
    for height in &heights {
        let candidate = block(*height as u64, *height as u64 - 1, *height);
        match cache.process_candidate(candidate) {
            block_events::CandidateStep::Events(events) => emitted.extend(events),
            block_events::CandidateStep::Fetch(_) => panic!("backfill header did not extend tip"),
        }
    }
    assert_eq!(emitted.len(), (tip_height - checkpoint_height + 1) as usize);
    for (i, event) in emitted.iter().enumerate() {
        let expected = block(20 + i as u64, 19 + i as u64, 20 + i as u32);
        assert_eq!(*event, BlockEvent::Connected(BlockHeader::from(expected)));
    }
    assert_eq!(cache.tip, hash(23));
}

#[test]
fn test_backfill_refresh_tip_picks_up_new_heights() {
    let mut state = BackfillState::new((10, hash(10)), hash(10), 11).unwrap();
    assert_eq!(state.next_to_fetch(), Some(10));
    state.advance();
    assert_eq!(state.next_to_fetch(), Some(11));
    state.advance();
    assert_eq!(state.next_to_fetch(), None);
    state.refresh_tip(13);
    assert_eq!(state.next_to_fetch(), Some(12));
    state.advance();
    assert_eq!(state.next_to_fetch(), Some(13));
    state.advance();
    assert_eq!(state.next_to_fetch(), None);
}

// The cursor survives the largest possible tip height: stepping past the
// final height must not overflow.
#[test]
fn test_backfill_at_largest_height() {
    let mut state = BackfillState::new((u32::MAX, hash(1)), hash(1), u32::MAX).unwrap();
    assert_eq!(state.next_to_fetch(), Some(u32::MAX));
    state.advance();
    assert_eq!(state.next_to_fetch(), None);
}

#[test]
fn test_build_websocket_request_message_wants_blocks() {
    let message = build_websocket_request_message(&MempoolSpaceWebSocketRequestData::Blocks);
    assert_eq!(message.action, "want");
    assert_eq!(message.data, vec!["blocks".to_string()]);

    let message =
        build_websocket_request_message(&MempoolSpaceWebSocketRequestData::MempoolBlocks);
    assert_eq!(message.action, "want");
    assert_eq!(message.data, vec!["mempool-blocks".to_string()]);

    let message = build_websocket_request_message(
        &MempoolSpaceWebSocketRequestData::TrackAddress("bc1q0000".to_string()),
    );
    assert_eq!(message.action, "want");
    assert!(message.data.is_empty());
}

#[test]
fn test_get_default_websocket_address_per_network() {
    assert_eq!(
        get_default_websocket_address(&Network::Bitcoin),
        "wss://mempool.space/api/v1/ws"
    );
    assert_eq!(
        get_default_websocket_address(&Network::Regtest),
        "ws://localhost:8999/api/v1/ws"
    );
    assert_eq!(
        get_default_websocket_address(&Network::Testnet),
        "wss://mempool.space/testnet/api/v1/ws"
    );
    assert_eq!(
        get_default_websocket_address(&Network::Signet),
        "wss://mempool.space/signet/api/v1/ws"
    );
}

#[test]
fn test_build_request_message_block_data_feeds() {
    let message = build_request_message(true, false, false, "");
    match message {
        RequestMessage::BlockData(m) => {
            assert_eq!(m.action, "want");
            assert_eq!(m.data, vec!["mempool-blocks".to_string(), "blocks".to_string()]);
        }
        RequestMessage::TrackAddress(t) => panic!("unexpected track address {:?}", t),
    }

    let message = build_request_message(true, false, true, "");
    match message {
        RequestMessage::BlockData(m) => assert_eq!(m.data, vec!["blocks".to_string()]),
        RequestMessage::TrackAddress(t) => panic!("unexpected track address {:?}", t),
    }

    let message = build_request_message(false, false, false, "bc1qexample");
    match message {
        RequestMessage::TrackAddress(t) => assert_eq!(t.track_address, "bc1qexample"),
        RequestMessage::BlockData(m) => panic!("unexpected block data {:?}", m),
    }
}

#[test]
fn test_error_messages() {
    assert_eq!(
        Error::CheckpointInvalid.message(),
        "The checkpoint passed is invalid, it should exist in the blockchain."
    );
    assert_eq!(
        Error::ConnectionFailure.message(),
        "failed to establish the live block notification connection"
    );
    assert_eq!(Error::ProviderFailure.message(), "a block data provider request failed");
    assert_eq!(
        Error::ProtocolViolation.message(),
        "unexpected message shape on the live block notification connection"
    );
}
