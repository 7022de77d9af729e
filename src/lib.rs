//! A WebSocket protocol engine: the frame codec, the message assembler and
//! the server side of the upgrade handshake.

pub mod dataframe;
pub mod error;
pub mod handshake;
pub mod header;
pub mod mask;
pub mod message;
pub mod reader;
pub mod receive;
pub mod request;
pub mod send;
