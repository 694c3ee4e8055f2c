//! An in-memory key-value store with lazily expiring keys, together with the
//! codec and command dispatch of the line-oriented wire protocol it is served
//! over.

pub mod clock;
pub mod command;
pub mod decimal;
pub mod decode;
pub mod framing;
pub mod reply;
pub mod session;
pub mod store;
pub mod text;
