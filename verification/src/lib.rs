//! Authoritative battle royale match rules, their wire format and the mobile input adapter.
pub mod match_types;
pub mod rules;
pub mod simulation;
pub mod match_laws;
pub mod match_invariants;
pub mod wire;
pub mod protocol;
pub mod mobile;
pub mod actions;
pub mod server_adapter;
pub mod hosting;
pub mod host_config;
