//! A small chat-protocol bot client, written without I/O: bytes from the
//! server go in, lines to write back come out.

pub mod client;
pub mod command;
pub mod error;
pub mod framer;
pub mod parser;

pub use client::{run, Action, Client, ConnectionState, Event};
pub use command::Command;
pub use error::ClientErrors;
pub use framer::LineFramer;
pub use parser::{parse_message, Message, ParsedMessage};
