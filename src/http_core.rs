//! The message types of the server, the request parser and the response formatter.

pub mod http_types;
pub mod request;
pub mod response;
