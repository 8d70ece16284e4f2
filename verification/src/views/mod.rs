//! What a user interface layer shares with the runtime.

pub mod colors;
pub mod gesture;
