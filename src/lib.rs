//! Directory trees rendered in the style of the Unix `tree` utility, with
//! extension and name-pattern filters and optional suppression of folders
//! that hold no visible file.

pub mod item;
pub mod options;
pub mod filter;
pub mod sort;
pub mod traverse;
pub mod render;
pub mod laws;
