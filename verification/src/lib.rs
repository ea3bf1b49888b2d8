//! Logic of a bridge between an Android automation client and a game running under Google Play
//! Games on PC: command parsing, the store database reader, frame geometry and the window
//! state machines, with the I/O left to the caller.

pub mod daemon;
pub mod game;
pub mod nemu;
pub mod shim;
pub mod store;
pub mod sys;
pub mod text;
pub mod utils;
pub mod wire;
