//! Verified core of the Securum Exire credential-leak guard.
//!
//! The library holds the decisions of the service: how environment files are
//! scanned for credentials, how a response payload is checked for leaked
//! secrets, how configuration sections are chosen and validated, and which
//! keys the blocked-endpoint bookkeeping reads and writes.

pub mod hex;
pub mod digest;
pub mod text;
pub mod string_map;
pub mod env_file;
pub mod json;
pub mod config;
pub mod leak_model;
pub mod leak_check;
pub mod endpoints;
pub mod leak_task;
