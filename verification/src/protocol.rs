//! Messages exchanged between peers, and the JSON-RPC error object.

use vstd::prelude::*;
use crate::block::Block;
use crate::consensus_types::Event;
use crate::transaction::Transaction;

verus! {

/// Messages exchanged between peers.
pub enum NetworkMessage {
    /// A new transaction broadcast.
    NewTransaction(Transaction),
    /// A consensus event to be added to the DAG.
    SyncEvent(Event),
    /// Request events that this peer is missing; the hashes of the events
    /// the requester already has.
    RequestEvents { known_hashes: Vec<crate::crypto::Hash> },
    /// Response with events the requester was missing.
    ResponseEvents { events: Vec<Event> },
    /// A new finalised block announcement.
    NewBlock(Block),
    /// Request a block by height.
    RequestBlock { height: u64 },
    /// Response with the requested block.
    ResponseBlock { block: Option<Block> },
    /// Ping (keepalive).
    Ping,
    /// Pong (keepalive response).
    Pong,
}

/// The error object of a JSON-RPC response.
#[derive(Debug)]
pub struct JsonRpcError {
    pub code: i64,
    pub message: String,
}

} // verus!
