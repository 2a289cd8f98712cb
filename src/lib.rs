//! A minimal HTTP/1.1 server core: request parsing, response formatting and
//! the per-connection decision of what to answer.

pub mod text;
pub mod http_core;
pub mod server;
pub mod request;
pub mod router;
pub mod db;
pub mod database;
