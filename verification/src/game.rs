//! The game window's side: frames sized for the client, and the input it is sent.

pub mod capture;
pub mod input;
pub mod window;
