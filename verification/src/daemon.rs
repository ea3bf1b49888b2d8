//! The long-lived processes: the game launcher, the capture daemon and the window it looks after.

pub mod launcher;
pub mod minitouch;
pub mod wgc;
pub mod window_state;
