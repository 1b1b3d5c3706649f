//! The session engine of an IRC client: the protocol state of each server
//! connection, the registry of connections, and the decisions of the
//! connection supervisor, with the wire format they share.

pub mod buffer;
pub mod channel;
pub mod client;
pub mod config;
pub mod format;
pub mod history;
pub mod icon;
pub mod membership;
pub mod message;
pub mod mode;
pub mod parse;
pub mod proto;
pub mod registry;
pub mod screen;
pub mod sort;
pub mod stream;
pub mod text;
pub mod user;
pub mod widget;
