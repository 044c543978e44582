//! A YAML-driven HTTP mock server: spec files compile into a route table,
//! and each request is answered from that table.

pub mod boilerplate;
pub mod config;
pub mod dispatch;
pub mod endpoint;
pub mod request;
pub mod router;
pub mod spec_parser;
pub mod text;
pub mod wire;
