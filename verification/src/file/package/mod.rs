//! WZ file packages

pub mod content;

pub use content::{ContentRef, Metadata};
