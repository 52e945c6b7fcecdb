//! Client-side implementation of the fastboot device-control protocol:
//! the wire codec for commands and responses, the half-duplex client
//! session state machine, and the windowed accounting used when a large
//! payload is streamed through a bulk transport with several transfers
//! in flight.
//!
//! The concrete transport (USB, serial, ...) and any user interface are
//! external collaborators: they drive the state machines defined here
//! and perform the actual I/O.

pub mod protocol;
pub mod session;
pub mod uploader;
pub mod vars;
