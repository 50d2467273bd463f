//! An in-memory key-value store speaking a RESP-style wire protocol.
//!
//! The pipeline is: text buffer -> decoded protocol value -> request ->
//! dispatched operation -> store mutation or read -> result value -> text.

pub mod numbers;
pub mod protocol;
pub mod record;
pub mod repository;
pub mod request;
pub mod commands;
pub mod operations;
pub mod server;
