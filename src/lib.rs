//! The network core of a master/slave telepresence link: the frame format,
//! congestion detection, the choice of the compression factor `k`, a token
//! bucket and the protocol state of a network module.
pub mod channel;
pub mod config;
pub mod congestion_detection;
pub mod endian;
pub mod hoip;
pub mod k_policy;
pub mod network_analyzer;
pub mod network_module;
pub mod rate_limiter;

pub use network_module::NetworkModule;
