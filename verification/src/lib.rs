//! Last-writer-wins storage for one volume of a publish/subscribe data plane.
//!
//! A volume declares what it retains and mints one namespace store per
//! configuration. A store keeps, for every key, the record with the highest
//! logical timestamp, whatever the order in which writes arrive.

pub mod backend;
pub mod bridge;
pub mod capability;
pub mod engine;
pub mod error;
pub mod key;
pub mod laws;
pub mod model;
pub mod record;
pub mod storage;
pub mod timestamp;
