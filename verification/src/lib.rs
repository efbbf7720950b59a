//! Model Context Protocol client and server logic with machine-checked contracts.

pub mod client;
pub mod client_reading;
pub mod collections;
pub mod compatibility;
pub mod compatibility_run;
pub mod compatibility_tls;
pub mod connection;
pub mod dialogue;
pub mod endpoint;
pub mod error;
pub mod event_source;
pub mod http_framing;
pub mod http_registry;
pub mod http_reply;
pub mod http_request;
pub mod http_session;
pub mod identity;
pub mod json;
pub mod json_layout;
pub mod json_parts;
pub mod json_rpc;
pub mod json_text;
pub mod lifecycle;
pub mod listing;
pub mod measuring;
pub mod policy;
pub mod registry_conduct;
pub mod request_reading;
pub mod response_reading;
pub mod round_trip;
pub mod run_reading;
pub mod schema;
pub mod server;
pub mod server_config;
pub mod server_reading;
pub mod server_request;
pub mod server_rpc;
pub mod server_transport;
pub mod serving;
pub mod session;
pub mod session_conduct;
pub mod stdio;
pub mod text;
pub mod tls_config;
pub mod tls_material;
pub mod tls_reading;
pub mod tool_reading;
pub mod trust_file;
pub mod wide_path;
pub mod wire;
pub mod wire_request;
