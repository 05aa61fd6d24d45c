//! A container network plugin engine: the command protocol, the bridge and
//! veth naming rules, the file-backed address allocator with its single-host
//! and multihost schemes, the registry announcements, and the pure pieces of
//! the companion operator tool. Everything here is plain computation with
//! proved contracts; the kernel, file and network I/O around it lives with
//! the callers.

pub mod bridge;
pub mod checks;
pub mod cli_args;
pub mod cli_config;
pub mod commands;
pub mod config;
pub mod dispatch;
pub mod error;
pub mod gateway_client;
pub mod ip;
pub mod ipam;
pub mod loki;
pub mod podman;
pub mod registry;
pub mod result;
pub mod text;
pub mod veth;

