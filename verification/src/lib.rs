//! Core logic of the Ren AI proxy: configuration, at-rest protection of the
//! upstream API key, HTTP request routing and forwarding rules, and the
//! controller that tracks the proxy and tunnel sessions.

pub mod config;
pub mod control;
pub mod proxy;
pub mod text;
