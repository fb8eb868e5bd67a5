//! Contract events streamed to clients over server-sent events.
use vstd::prelude::*;

verus! {

/// A contract event, tagged on the wire by its `type`.
#[derive(Debug, Clone)]
pub enum ContractEvent {
    IpCommitted { ip_id: u64, owner: String, commitment_hash: String, timestamp: u64 },
    SwapInitiated { swap_id: u64, ip_id: u64, seller: String, buyer: String, price: u64 },
    SwapAccepted { swap_id: u64, buyer: String },
    SwapCompleted { swap_id: u64, seller: String, buyer: String },
}

} // verus!
