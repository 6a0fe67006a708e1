//! Verified core of the coast daemon: naming rules and command builders for
//! Docker, socat and database shells, port-forwarding bookkeeping, the compose
//! rewrite of each instance and the override of archive builds, instance
//! lifecycle decisions, MCP install scripts and the encoders the daemon uses.

pub mod text;
pub mod image_loader;
pub mod string_map;
pub mod shared_services;
pub mod port_manager;
pub mod secrets;
pub mod image_loading;
pub mod run_ports;
pub mod compose;
pub mod archive_build;
pub mod lifecycle;
pub mod mcp;
pub mod user_settings;
pub mod records;
pub mod run_setup;
pub mod secret_listing;
pub mod shared_commands;
pub mod provision;
pub mod connection;
pub mod start_flow;
pub mod yaml_text;
pub mod manifest;
