//! Proximity routing for a Kademlia-style overlay network: identifiers under
//! the XOR metric, bounded buckets, a self-refining routing table, and the
//! bookkeeping that correlates queries with their responses.
use vstd::prelude::*;

pub mod address;
pub mod coordinator;
pub mod lookup;
pub mod messages;
pub mod node;
pub mod node_bucket;
pub mod routing_table;
pub mod transaction;

verus! {
} // verus!
