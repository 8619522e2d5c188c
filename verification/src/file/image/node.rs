//! Image Node

use crate::file::image::canvas::Canvas;
use crate::file::image::sound::{Sound, SoundView};
use crate::file::image::uol::{UolObject, UolString};
use crate::file::image::vector::Vector;
use crate::types::{F32Bits, F64Bits, Int32, Int64};
use vstd::prelude::*;

verus! {

/// A node of a parsed image
#[derive(Debug)]
pub enum Node {
    /// Null
    Null,
    /// Short
    Short(i16),
    /// Int
    Int(Int32),
    /// Long
    Long(Int64),
    /// Float, by its bits
    Float(F32Bits),
    /// Double, by its bits
    Double(F64Bits),
    /// String
    String(UolString),
    /// Property (its contents are its children)
    Property,
    /// Canvas
    Canvas(Canvas),
    /// Convex shape (its points are its children)
    Convex,
    /// Vector
    Vector(Vector),
    /// UOL
    Uol(UolObject),
    /// Sound
    Sound(Sound),
}

/// A node as plain values
pub enum NodeView {
    /// Null
    Null,
    /// Short
    Short(i16),
    /// Int
    Int(i32),
    /// Long
    Long(i64),
    /// Float bits
    Float(u32),
    /// Double bits
    Double(u64),
    /// String
    String(Seq<char>),
    /// Property
    Property,
    /// Canvas: width, height, format and data
    Canvas(i32, i32, i32, Seq<u8>),
    /// Convex shape
    Convex,
    /// Vector
    Vector((i32, i32)),
    /// UOL path
    Uol(Seq<char>),
    /// Sound
    Sound(SoundView),
}

impl View for Node {
    type V = NodeView;

    open spec fn view(&self) -> NodeView {
        match self {
            Node::Null => NodeView::Null,
            Node::Short(v) => NodeView::Short(*v),
            Node::Int(v) => NodeView::Int(v@),
            Node::Long(v) => NodeView::Long(v@),
            Node::Float(v) => NodeView::Float(v@),
            Node::Double(v) => NodeView::Double(v@),
            Node::String(v) => NodeView::String(v@),
            Node::Property => NodeView::Property,
            Node::Canvas(c) => NodeView::Canvas(
                c.spec_width()@,
                c.spec_height()@,
                c.spec_format()@,
                c.spec_data(),
            ),
            Node::Convex => NodeView::Convex,
            Node::Vector(v) => NodeView::Vector(v@),
            Node::Uol(u) => NodeView::Uol(u@),
            Node::Sound(s) => NodeView::Sound(s@),
        }
    }
}

} // verus!
