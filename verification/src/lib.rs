//! A single-host platform-as-a-service core: a world model of projects and
//! deployments reconciled against persistence, a per-deployment container
//! state machine, a hostname label router, and the supporting stores.

pub mod bytes;
pub mod certs;
pub mod conf;
pub mod config;
pub mod commit;
pub mod container;
pub mod docker;
pub mod env;
pub mod ids;
pub mod label;
pub mod map;
pub mod nixpacks;
pub mod paths;
pub mod records;
pub mod sqld;
pub mod submodules;
pub mod tokens;
pub mod workers;
