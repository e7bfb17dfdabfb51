//! A local quiz-bank service library: domain records, the tagged wire
//! codec for requests and responses, the persistence operations against
//! a SQLite store, and the dispatcher that maps each request to its
//! store operation and response.

pub mod api;
pub mod codec;
pub mod db;
pub mod models;
