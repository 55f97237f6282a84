//! Building the outbound messages of the live notification connection, and
//! picking the default WebSocket address for a network.

use vstd::prelude::*;

use crate::api::MempoolSpaceWebSocketRequestData;
use crate::api::MempoolSpaceWebSocketRequestMessage;

verus! {

/// The bitcoin network a deployment targets; it decides which mempool.space
/// endpoint the live connection uses by default.
#[derive(Clone, Copy, Debug, PartialEq, Eq, Structural)]
pub enum Network {
    Bitcoin,
    Testnet,
    Signet,
    Regtest,
}

/// The default WebSocket address of the mempool.space service for the given
/// network: the production endpoint for mainnet, a local endpoint for
/// regtest, and the network-prefixed endpoint otherwise.
pub fn get_default_websocket_address(network: &Network) -> (address: String)
    ensures
        *network is Bitcoin ==> address@ == "wss://mempool.space/api/v1/ws"@,
        *network is Regtest ==> address@ == "ws://localhost:8999/api/v1/ws"@,
        *network is Testnet ==> address@ == "wss://mempool.space/testnet/api/v1/ws"@,
        *network is Signet ==> address@ == "wss://mempool.space/signet/api/v1/ws"@,
{
    match network {
        Network::Bitcoin => "wss://mempool.space/api/v1/ws".to_owned(),
        Network::Regtest => "ws://localhost:8999/api/v1/ws".to_owned(),
        Network::Testnet => "wss://mempool.space/testnet/api/v1/ws".to_owned(),
        Network::Signet => "wss://mempool.space/signet/api/v1/ws".to_owned(),
    }
}

/// The feed names a request message declares for the chosen request data:
/// exactly one for the block and mempool-block feeds, none for address
/// tracking, which the service is asked for through a different message.
pub open spec fn request_data_items(data: MempoolSpaceWebSocketRequestData) -> Seq<Seq<char>> {
    match data {
        MempoolSpaceWebSocketRequestData::Blocks => seq!["blocks"@],
        MempoolSpaceWebSocketRequestData::MempoolBlocks => seq!["mempool-blocks"@],
        MempoolSpaceWebSocketRequestData::TrackAddress(_) => Seq::empty(),
    }
}

/// Build the subscription request sent right after connecting: the `want`
/// action together with the feed names for the requested data.
pub fn build_websocket_request_message(data: &MempoolSpaceWebSocketRequestData) -> (message:
    MempoolSpaceWebSocketRequestMessage)
    ensures
        message.action@ == "want"@,
        message.data@.map_values(|s: String| s@) == request_data_items(*data),
{
    let mut message = MempoolSpaceWebSocketRequestMessage {
        action: "want".to_owned(),
        data: Vec::new(),
    };
    match data {
        MempoolSpaceWebSocketRequestData::Blocks => {
            message.data.push("blocks".to_owned());
        },
        MempoolSpaceWebSocketRequestData::MempoolBlocks => {
            message.data.push("mempool-blocks".to_owned());
        },
        MempoolSpaceWebSocketRequestData::TrackAddress(..) => {},
    }
    proof {
        assert(message.data@.map_values(|s: String| s@) =~= request_data_items(*data));
    }
    message
}

/// A command-line request for block data feeds.
#[derive(Debug, Clone)]
pub struct BlockDataMessage {
    pub action: String,
    pub data: Vec<String>,
}

/// A command-line request to track a single address, given in its canonical
/// string form.
#[derive(Debug, Clone)]
pub struct TrackAddressMessage {
    pub track_address: String,
}

/// The first message a command-line session sends: either a block data
/// request or an address tracking request.
#[derive(Debug, Clone)]
pub enum RequestMessage {
    BlockData(BlockDataMessage),
    TrackAddress(TrackAddressMessage),
}

/// The feed names a command-line block data request carries, honouring the
/// two opt-out switches: mempool blocks first, then blocks.
pub open spec fn chosen_feeds(no_blocks: bool, no_mempool_blocks: bool) -> Seq<Seq<char>> {
    (if !no_mempool_blocks {
        seq!["mempool-blocks"@]
    } else {
        Seq::empty()
    }) + (if !no_blocks {
        seq!["blocks"@]
    } else {
        Seq::empty()
    })
}

/// Build the first message of a command-line session: a block data request
/// for the feeds left switched on when `blocks_data` is chosen, and an
/// address tracking request for the given address otherwise.
pub fn build_request_message(
    blocks_data: bool,
    no_blocks: bool,
    no_mempool_blocks: bool,
    track_address: &str,
) -> (message: RequestMessage)
    ensures
        blocks_data ==> (message matches RequestMessage::BlockData(m) && m.action@ == "want"@
            && m.data@.map_values(|s: String| s@) == chosen_feeds(no_blocks, no_mempool_blocks)),
        !blocks_data ==> (message matches RequestMessage::TrackAddress(t) && t.track_address@
            == track_address@),
{
    if blocks_data {
        let mut data: Vec<String> = Vec::new();
        if !no_mempool_blocks {
            data.push("mempool-blocks".to_owned());
        }
        if !no_blocks {
            data.push("blocks".to_owned());
        }
        proof {
            assert(data@.map_values(|s: String| s@) =~= chosen_feeds(no_blocks, no_mempool_blocks));
        }
        RequestMessage::BlockData(BlockDataMessage { action: "want".to_owned(), data })
    } else {
        RequestMessage::TrackAddress(TrackAddressMessage { track_address: track_address.to_owned() })
    }
}

} // verus!
