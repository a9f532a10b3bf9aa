//! A reverse proxy and load balancer for the Antelope SHiP (State History Plugin)
//! WebSocket protocol.
//!
//! Clients connect to the router; it selects an upstream SHiP node (range-aware,
//! least-connections) and proxies the WebSocket bidirectionally, failing over to another
//! upstream and de-duplicating replayed blocks on reconnect.
//!
//! This library holds the decisions. It performs no I/O: the sockets, timers and signals
//! belong to the program around it, which performs the actions that the library asks for
//! and reports what happened as events.

pub mod abi;
pub mod bytes;
pub mod cli;
pub mod client_link;
pub mod config_sample;
pub mod connection_handler;
pub mod errors;
pub mod frame;
pub mod functions;
pub mod health;
pub mod idle;
pub mod mock_ship;
pub mod models;
pub mod protocol;
pub mod session;
pub mod string_map;
pub mod tasks;
pub mod text;
pub mod zcd;
