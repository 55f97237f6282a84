//! The data model: block identities, headers, the events the engine emits,
//! and the messages exchanged with the notification service.

use vstd::prelude::*;

verus! {

/// A block identity: the 256-bit content hash of a header, held as four
/// 64-bit words (word 0 holds the lowest-order bytes).
#[derive(Clone, Copy, Debug, PartialEq, Eq, Structural)]
pub struct BlockHash {
    pub w0: u64,
    pub w1: u64,
    pub w2: u64,
    pub w3: u64,
}

/// The root of a block's transaction merkle tree, carried through unchanged.
#[derive(Clone, Copy, Debug, PartialEq, Eq, Structural)]
pub struct TxMerkleNode {
    pub w0: u64,
    pub w1: u64,
    pub w2: u64,
    pub w3: u64,
}

/// An extended block header, as the block data provider reports it: the
/// header fields plus the block's own identity and height.
#[derive(Clone, Copy, Debug, PartialEq, Eq, Structural)]
pub struct BlockExtended {
    pub id: BlockHash,
    pub height: u32,
    pub version: i32,
    pub prev_blockhash: BlockHash,
    pub merkle_root: TxMerkleNode,
    pub time: u32,
    pub bits: u32,
    pub nonce: u32,
}

/// A plain block header: what an extended header carries once its identity
/// and height are dropped.
#[derive(Clone, Copy, Debug, PartialEq, Eq, Structural)]
pub struct BlockHeader {
    pub version: i32,
    pub prev_blockhash: BlockHash,
    pub merkle_root: TxMerkleNode,
    pub time: u32,
    pub bits: u32,
    pub nonce: u32,
}

/// The header fields of an extended header, as a spec-level value.
pub open spec fn header_of(extended: BlockExtended) -> BlockHeader {
    BlockHeader {
        version: extended.version,
        prev_blockhash: extended.prev_blockhash,
        merkle_root: extended.merkle_root,
        time: extended.time,
        bits: extended.bits,
        nonce: extended.nonce,
    }
}

impl From<BlockExtended> for BlockHeader {
    fn from(extended: BlockExtended) -> (header: BlockHeader) {
        BlockHeader {
            version: extended.version,
            prev_blockhash: extended.prev_blockhash,
            merkle_root: extended.merkle_root,
            time: extended.time,
            bits: extended.bits,
            nonce: extended.nonce,
        }
    }
}

impl vstd::std_specs::convert::FromSpecImpl<BlockExtended> for BlockHeader {
    open spec fn obeys_from_spec() -> bool {
        true
    }

    open spec fn from_spec(extended: BlockExtended) -> BlockHeader {
        header_of(extended)
    }
}

/// Why a subscription could not be started, or why an event stream ended.
#[derive(Clone, Copy, Debug, PartialEq, Eq, Structural)]
pub enum Error {
    /// The caller's checkpoint hash does not match the provider's header at
    /// the checkpoint height; fatal before any event is produced.
    CheckpointInvalid,
    /// The live notification connection could not be established; fatal
    /// before any event is produced.
    ConnectionFailure,
    /// A block data provider call failed; fatal to the resolution in
    /// progress.
    ProviderFailure,
    /// The live connection delivered a message of an unexpected shape; the
    /// stream ends.
    ProtocolViolation,
}

impl Error {
    /// A human-readable description of the error.
    pub fn message(&self) -> (text: String)
        ensures
            *self is CheckpointInvalid ==> text@
                == "The checkpoint passed is invalid, it should exist in the blockchain."@,
            *self is ConnectionFailure ==> text@
                == "failed to establish the live block notification connection"@,
            *self is ProviderFailure ==> text@ == "a block data provider request failed"@,
            *self is ProtocolViolation ==> text@
                == "unexpected message shape on the live block notification connection"@,
    {
        match self {
            Error::CheckpointInvalid => "The checkpoint passed is invalid, it should exist in the blockchain.".to_owned(),
            Error::ConnectionFailure => "failed to establish the live block notification connection".to_owned(),
            Error::ProviderFailure => "a block data provider request failed".to_owned(),
            Error::ProtocolViolation => "unexpected message shape on the live block notification connection".to_owned(),
        }
    }
}

/// An event of the block stream: a header joining the active chain, or a
/// previously active block (given by height and identity) displaced by a
/// reorganization.
#[derive(Clone, Copy, Debug, PartialEq, Eq, Structural)]
pub enum BlockEvent<T> {
    /// The block extends the active chain being streamed.
    Connected(T),
    /// The block at this height, with this identity, was disconnected from
    /// the active chain by a fork or reorganization and is now stale.
    Disconnected(u32, BlockHash),
}

/// An inbound notification of the mempool.space WebSocket service: one new
/// candidate block per message.
#[derive(Clone, Copy, Debug, PartialEq, Eq, Structural)]
pub struct MempoolSpaceWebSocketMessage {
    pub block: BlockExtended,
}

/// The subscription request sent to the mempool.space WebSocket service right
/// after connecting, declaring which event feeds are wanted.
#[derive(Debug, Clone)]
pub struct MempoolSpaceWebSocketRequestMessage {
    pub action: String,
    pub data: Vec<String>,
}

/// The candidate feeds a mempool.space WebSocket subscription can declare
/// interest in.
#[derive(Debug, Clone)]
pub enum MempoolSpaceWebSocketRequestData {
    /// Listen for new blocks only.
    Blocks,
    /// Subscribe to mempool-block events.
    MempoolBlocks,
    /// Subscribe to all events related to an address, given in its canonical
    /// string form.
    TrackAddress(String),
}

} // verus!
