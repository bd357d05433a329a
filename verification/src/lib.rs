//! Host side of the Flipper Zero RPC link, as a verified protocol core.
//!
//! The crate holds the parts of the link that decide something:
//!
//! - [`codec`]: the length-delimited frame codec, over the variable-length
//!   integers of [`varint`] and the byte buffers of [`buffer`];
//! - [`handshake`]: the steps that take the device from its interactive shell
//!   into RPC mode;
//! - [`transport`]: what a read and a write on the transport come to, and the
//!   single steps of the tasks that serve a connection;
//! - [`proto`]: the numbering and wrapping of outgoing commands;
//! - [`error`]: the failures a caller can observe.
//!
//! Nothing here performs I/O or waits: a runtime feeds these functions the
//! bytes and events it observed and carries out the actions they return.
//! What holds of every run is stated beside the functions it is about, in
//! proof functions whose names begin with `law_`.

pub mod buffer;
pub mod codec;
pub mod error;
pub mod handshake;
pub mod proto;
pub mod transport;
pub mod varint;
