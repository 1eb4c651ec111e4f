//! A peer-to-peer LAN: nodes that know a network name and its password agree on
//! addresses in one private subnet and carry each other's IPv4 packets.
//!
//! This crate holds the rules of the network: who owns which address, which
//! packets pass, which connection is used, what goes on the wire.

pub mod id;
pub mod id_map;
pub mod ipv4;
pub mod text;
pub mod keys;
pub mod hashes;
pub mod wire;
pub mod node;
pub mod claims;
pub mod mesh;
pub mod mesh_inv;
pub mod state;
pub mod mesh_laws;
pub mod mesh_effects;
pub mod mesh_conflicts;
pub mod mesh_merging;
pub mod packet;
pub mod tun;
pub mod tun_laws;
pub mod direct_message;
pub mod connection;
pub mod connection_laws;
pub mod snapshot;
pub mod direct_connect;
pub mod secrets;
pub mod auth;
pub mod network;
pub mod overlay;
pub mod router;
pub mod router_laws;
pub mod local_networking;
pub mod direct_connect_actor_lite;
pub mod standalone;
pub mod desktop;
pub mod ui;
pub mod format_laws;
