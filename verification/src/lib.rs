//! Provisioning of TLS-terminated local reverse-proxy endpoints.
//!
//! For a given domain name and backend port the library validates the
//! request, derives the managed certificate and configuration paths,
//! renders the virtual-host definition, sequences the provisioning and
//! deprovisioning side effects through capability traits, and keeps a
//! durable registry of provisioned domains consistent with the live
//! system state.

pub mod codec;
pub mod config;
pub mod error;
pub mod mkcert;
pub mod orchestrator;
pub mod render;
pub mod services;
pub mod sim;
pub mod status;
pub mod systemd;
pub mod time;
pub mod utils;
