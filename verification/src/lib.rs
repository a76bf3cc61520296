//! Resolve TeamSpeak server addresses of any kind.
//!
//! A server is named by an ip address, a host name or a server nickname. The
//! library decides what has to be looked up to find it, in which order, and what
//! the replies mean; the lookups themselves are made by the caller.

pub mod address;
pub mod error;
pub mod name;
pub mod nickname;
pub mod outcome;
pub mod parse;
pub mod port;
pub mod resolution;
pub mod srv;
pub mod task;
pub mod text;

pub use crate::error::Error;
pub use crate::resolution::{resolve, resolve_nickname};
pub use crate::task::resolve_tsdns;
