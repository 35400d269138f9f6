//! Path normalisation and backup layout for per-game save data.

pub mod laws;
pub mod layout;
pub mod path;
pub mod prelude;
pub mod text;
