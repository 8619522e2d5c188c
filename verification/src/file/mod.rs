//! WZ File

pub mod content;
pub mod image;
pub mod metadata;
pub mod package;
