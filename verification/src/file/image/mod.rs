//! WZ Image

pub mod canvas;
pub mod mapped;
pub mod node;
pub mod raw;
pub mod sound;
pub mod uol;
pub mod vector;

pub use canvas::Canvas;
pub use mapped::Image;
pub use node::Node;
pub use sound::Sound;
pub use uol::{UolObject, UolString};
pub use vector::Vector;
