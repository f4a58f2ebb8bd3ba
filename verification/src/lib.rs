//! A small store-and-forward message server, without its sockets.
//!
//! People open accounts and register devices, which get identifiers. Whoever has
//! an account can post messages to a device. A message goes to the device at once
//! if it is connected; else it is written to a file and waits. A device that
//! connects logs in, gets what waited for it, and then the messages as they come.
//!
//! Requests come in as plain values and are answered with texts. What has to be
//! done in between (a file, a connection, a pause) is asked for step by step, so
//! that this crate does no input or output of its own.

pub mod account_laws;
pub mod accounts;
pub mod auth;
pub mod delivery;
pub mod delivery_laws;
pub mod fresh;
pub mod json;
pub mod laws;
pub mod reader;
pub mod reply;
pub mod server;
pub mod session;
pub mod session_laws;
pub mod storage;
pub mod table;
pub mod text_laws;
pub mod wire;
pub mod wire_laws;
