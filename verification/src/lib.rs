//! The decision core of an HLS edge server: request parsing, playlist rewriting,
//! viewer sessions, stream lifecycle, segment cache bookkeeping and metrics.
pub mod cache;
pub mod clock;
pub mod config;
pub mod elasticsearch;
pub mod handlers;
pub mod launch;
pub mod load_test;
pub mod manager;
pub mod metrics;
pub mod models;
pub mod paths;
pub mod registry;
pub mod sessions;
pub mod ssl;
pub mod subprocess;
pub mod text;
pub mod vars;
pub mod viewers;
