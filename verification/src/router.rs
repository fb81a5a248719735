//! The fixed route table of the standalone router.

pub mod routes;
