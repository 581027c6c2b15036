//! Core message-processing engine of a Kademlia-style DHT routing node.
//!
//! Each node owns a signing identity, keeps a table of peers ordered by XOR
//! distance in a 512-bit address space, and routes GET/PUT/POST traffic
//! through the overlay toward addresses by recursive forwarding.  Close
//! groups of nodes near an address collectively act as its managers; their
//! roles are computed from each message's source and destination relative to
//! the local routing table.

pub mod codec;
pub mod error;
pub mod filter;
pub mod identity_cache;
pub mod crypto;
pub mod message_header;
pub mod messages;
pub mod name_type;
pub mod node_interface;
pub mod registry;
pub mod routing_node;
pub mod routing_table;
pub mod types;
