//! Host-side security, authentication, IPC and device-trust logic of the
//! NAVEEN AI desktop host, with machine-checked contracts.

pub mod text;
pub mod keyed;
pub mod encoding;
pub mod security;
pub mod device_security;
pub mod device_fabric;
pub mod auth;
pub mod ipc;
pub mod material;
pub mod transcripts;
pub mod network_gateway;
pub mod capabilities;
pub mod device_identity;
pub mod core_supervisor;
