//! What the HTTP server decides: how it is exposed, what reaches its logs, and what a
//! failed handler answers.

pub mod error;
pub mod links;
pub mod routes;
pub mod share;
pub mod tls;
