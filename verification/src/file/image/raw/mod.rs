//! The property lists and objects of a WZ image as they are stored

pub mod canvas;
pub mod content;
pub mod object;
pub mod property;

pub use canvas::{Canvas, CanvasFormat};
pub use content::ContentRef;
pub use object::Object;
pub use property::Property;
