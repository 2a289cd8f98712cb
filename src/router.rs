//! The key of a routing table. Dispatch does not consult a table yet: the fixed
//! one in `server` stands in for it.

pub mod route;
