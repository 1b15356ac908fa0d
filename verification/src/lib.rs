//! Verified core of a WireGuard VPN concentrator: peer identity resolution,
//! address allocation, configuration rendering, change detection, and the
//! decision logic of the interface and NAT controllers.
//!
//! Everything that touches the filesystem, spawns tools, or speaks netlink
//! lives outside this library; the functions here work over plain values and
//! carry contracts that pin their results down.

pub mod addr;
pub mod artifacts;
pub mod assets;
pub mod cli;
pub mod config;
pub mod digest;
pub mod engine;
pub mod errors;
pub mod fsmodel;
pub mod iface;
pub mod ip_alloc;
pub mod nft;
pub mod peers;
pub mod slug;
pub mod text;
