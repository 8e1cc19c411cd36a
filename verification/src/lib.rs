//! A tracker of job applications.
//!
//! The library holds what the tracker decides and computes: dates and
//! records, the statements for the store, the life of an HTTP connection
//! from the request line to the response, the page that lists the records,
//! and the JSON and CSV exports. Reading, writing and running the store are
//! left to the caller.

pub mod date;
pub mod db;
pub mod decimal;
pub mod error;
pub mod export;
pub mod handler;
pub mod job;
pub mod page;
pub mod request;
pub mod response;
pub mod text;
