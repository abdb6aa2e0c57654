//! Cluster-aware and topology-aware connection load balancing for YugabyteDB.

pub mod attempts;
pub mod balance;
pub mod cluster;
pub mod config;
pub mod connect;
pub mod control;
pub mod counts;
pub mod error;
pub mod host;
pub mod host_map;
pub mod laws;
pub mod least_loaded;
pub mod random;
pub mod session;
pub mod target;
pub mod text;
