//! Synchronisation core of a language server: an incremental line buffer,
//! a store of open documents, and the protocol's session state machine.
pub mod lines;
pub mod buffer;
pub mod vfs;
pub mod session;
pub mod dispatch;
