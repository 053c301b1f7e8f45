//! Peer discovery and traffic accounting for a node of an incentivized mesh
//! network: the wire format of the discovery packet, the table of discovered
//! peers, and the engine that turns tunnel byte counters and route prices
//! into signed debts.

pub mod dao;
pub mod dashboard;
pub mod identity;
pub mod models;
pub mod peer_listener;
pub mod sms;
pub mod table;
pub mod traffic_watcher;
pub mod tunnel_manager;
pub mod wire;
