//! The verified core of a small IRC server.

pub mod accept;
pub mod channel;
pub mod client;
pub mod command;
pub mod command_laws;
pub mod handler;
pub mod message;
pub mod server;
pub mod server_laws;
pub mod text;
