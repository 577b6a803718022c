//! The core of a small in-memory key-value server that speaks a
//! Redis-style wire protocol: the frame codec, the buffering that turns a
//! byte stream into whole frames, the command layer and the store with
//! per-key expiration.

pub mod trusted;
pub mod text;
pub mod frame;
pub mod decimal;
pub mod wire;
pub mod encode;
pub mod decode;
pub mod roundtrip;
pub mod parse;
pub mod db;
pub mod cmd;
pub mod connection;
pub mod server;
pub mod theorems;
pub mod client;
