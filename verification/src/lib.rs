//! The decisions of a caching load balancer for Ethereum JSON-RPC.

pub mod admin;
pub mod balancer;
pub mod config;
pub mod health;
pub mod json;
pub mod number;
pub mod rpc;
pub mod table;
pub mod text;
pub mod websocket;
