//! Local development domains served by Caddy: the hosts-file block, the
//! shell-profile block, the process and permission checks, and the rules that
//! decide what the app does with what it observes.

pub mod text;
pub mod hosts;
pub mod node_env;
pub mod dns;
pub mod caddy_process;
pub mod caddy_supervisor;
pub mod system_trust;
pub mod auth_helper;
pub mod caddy_install;
pub mod caddy_permissions;
pub mod config_store;
pub mod model;
pub mod commands;
