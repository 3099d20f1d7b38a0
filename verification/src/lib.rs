//! Control plane for a single WireGuard VPN interface: deterministic
//! address allocation for peers, key material handling, and synchronization
//! of a persisted peer roster with kernel device state across creation,
//! toggling, deletion and process restart.
//!
//! The kernel itself is reached through a small set of trusted device
//! calls; everything around them — allocation, validation, the peer-table
//! model and the consistency between roster and kernel — is verified.

pub mod addr;
pub mod auth;
pub mod conf;
pub mod config;
pub mod engine;
pub mod error;
pub mod iface;
pub mod keys;
pub mod models;
pub mod peers;
pub mod session;
pub mod text;
