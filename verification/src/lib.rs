//! Verified core of the igra-cli node management tool.

pub mod service_categories;
pub mod service_notes;
pub mod strmap;
pub mod text;
pub mod user_manager;
pub mod config;
pub mod firewall;
pub mod nginx;
pub mod patterns;
pub mod log_parser;
pub mod plugin;
pub mod registry;
pub mod network_info;
pub mod security;
pub mod updater;
pub mod system_service;
pub mod audit;
pub mod docker;
pub mod tui;
pub mod storage;
pub mod cli;
pub mod rpc;
pub mod versions;
pub mod wallet;
pub mod ssl;
pub mod backup;
pub mod health;
pub mod metrics;
pub mod l2_monitor;
pub mod host;
