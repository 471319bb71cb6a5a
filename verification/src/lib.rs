//! Verified core of `chagle`, a reverse proxy that exposes services behind a NAT.

pub mod bandwidth;
pub mod base64;
pub mod channels;
pub mod client;
pub mod config;
pub mod dashboard;
pub mod entries;
pub mod handshake;
pub mod health_check;
pub mod http_proxy;
pub mod key_map;
pub mod load_balance;
pub mod masked;
pub mod metrics;
pub mod name_map;
pub mod plugin;
pub mod protocol;
pub mod proxy_protocol;
pub mod rate;
pub mod server;
pub mod sni;
pub mod text;
pub mod validate;
