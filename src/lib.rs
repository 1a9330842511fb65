//! A terminal text editor engine: styled cell grids with minimal-diff
//! rendering, a raw input decoder, and a text buffer with a modal command
//! menu.

pub mod strings;
pub mod style;
pub mod grid;
pub mod layout;
pub mod input;
pub mod text;
pub mod frame;
pub mod session;
