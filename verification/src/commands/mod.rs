//! What the user can ask for.

pub mod busy;
pub mod interaction;
pub mod mutations;
pub mod probe;
pub mod reply;
pub mod send;
pub mod title;
