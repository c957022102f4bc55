//! Serving over TLS, with certificates that renew themselves.
pub mod config;
pub mod server;

pub use config::SslConfig;
