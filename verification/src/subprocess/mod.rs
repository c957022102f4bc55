//! An edge server that runs one encoder process for each stream, remembers the streams
//! that failed, and counts viewers by address as well as by session.
pub mod client_info;
pub mod handlers;
pub mod manager;
pub mod models;
