//! q objects and the q IPC protocol.

pub mod calendar;
pub mod qtime;
pub mod qnull;
pub mod qinf;
pub mod qninf;
pub mod error;
pub mod object;
pub mod getter;
pub mod list;
pub mod table;
pub mod bytes;
pub mod serialize;
pub mod deserialize;
pub mod roundtrip;
pub mod text;
pub mod format;
pub mod qmsg_type;
pub mod connection;
pub mod compression;
pub mod laws;
pub mod inflate_deflate;
pub mod types;

pub use connection::{ConnectionMethod, MessageHeader, Query};
pub use object::K;
pub use types::{Result, C, E, F, G, H, I, J, S, U};
