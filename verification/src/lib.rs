//! Request filtering for an HTTP front end: rate counting, bot-pool matching, signed
//! challenge cookies and the pages served to clients that are turned away.
pub mod analyze;
pub mod challenge;
pub mod config;
pub mod dns;
pub mod ip_pools;
pub mod net;
pub mod number;
pub mod responses;
pub mod routes;
pub mod state;
pub mod store;
pub mod table;
pub mod text;
