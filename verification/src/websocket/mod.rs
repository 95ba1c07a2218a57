//! Requests and subscriptions over WebSockets.

pub mod client;
pub mod connections;
pub mod error;
pub mod server;
pub mod subscription_manager;
pub mod types;
pub mod users;
