//! The proxy's configuration model and the route table built from it.

pub mod types;
pub mod routes;
