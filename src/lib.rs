//! An encrypted line-oriented chat relay: wire framing, authenticated
//! encryption of each message, the server's registry and broadcast
//! dispatcher, and the connection and client state machines.

pub mod hexcode;
pub mod cipher;
pub mod client;
pub mod frame;
pub mod reader;
pub mod registry;
pub mod text;
