//! Control plane of a ring-master daemon: the inventory of the ring
//! buffers in a directory, the reservations each control connection holds,
//! the request state machine of a connection, and the list encoding of
//! `LIST` replies.
//!
//! The daemon itself (sockets, ring files, processes, the port manager) is
//! the caller's: a `session::Session` says what to write and what to do
//! next, and the caller does it.
pub mod connections;
pub mod guarantees;
pub mod inventory;
pub mod listing;
pub mod paths;
pub mod protocol;
pub mod rings;
pub mod session;
pub mod table;
pub mod tcllist;
pub mod text;
