//! WZ Property Object, as it is stored

use crate::decode::decoder::spec_u32;
use crate::decode::{decode_string, decode_u32, decode_u8, spec_string, spec_u8, SliceDecoder, Stream};
use crate::error::{fails_as, Error, ErrorImpl, Failure, ImageError};
use crate::file::image::raw::canvas::{spec_raw_canvas, Canvas, CanvasView};
use crate::file::image::raw::content::ContentRefView;
use crate::file::image::raw::property::{spec_property, Property};
use crate::file::image::sound::{spec_sound, Sound, SoundView};
use crate::file::image::uol::{spec_uol_string, UolObject};
use crate::file::image::vector::{spec_vector, Vector};
use vstd::prelude::*;

verus! {

/// These are just complex structures compared to the primitive values contained in WZ properties
#[derive(Debug)]
pub enum Object {
    /// Contains an embedded list of properties
    Property(Property),
    /// Canvas type
    Canvas(Canvas),
    /// Shape2D#Convex2D
    Convex,
    /// Shape2D#Vector2D
    Vector(Vector),
    /// UOL object
    Uol(UolObject),
    /// Sound_DX8
    Sound(Sound),
}

/// An object as plain values
pub enum ObjectView {
    /// The entries of a property list
    Property(Seq<ContentRefView>),
    /// A canvas
    Canvas(CanvasView),
    /// A convex shape
    Convex,
    /// A vector
    Vector((i32, i32)),
    /// The path of a UOL object
    Uol(Seq<char>),
    /// A sound
    Sound(SoundView),
}

impl View for Object {
    type V = ObjectView;

    open spec fn view(&self) -> ObjectView {
        match self {
            Object::Property(p) => ObjectView::Property(p@),
            Object::Canvas(c) => ObjectView::Canvas(c@),
            Object::Convex => ObjectView::Convex,
            Object::Vector(v) => ObjectView::Vector(v@),
            Object::Uol(u) => ObjectView::Uol(u@),
            Object::Sound(s) => ObjectView::Sound(s@),
        }
    }
}

/// The type name of an object at `pos`: a tag, then the name (0x73), or the position of the
/// name elsewhere (0x1b), read without moving past the position.
pub open spec fn spec_type_name(s: Stream, pos: int) -> Result<(Seq<char>, int), Failure> {
    match spec_u8(s, pos) {
        Err(c) => Err(Failure::Read(c)),
        Ok((tag, p1)) => if tag == 0x73 {
            match spec_string(s, p1) {
                Err(c) => Err(Failure::Read(c)),
                Ok((name, p2)) => Ok((name, p2)),
            }
        } else if tag == 0x1b {
            match spec_u32(s, p1) {
                Err(c) => Err(Failure::Read(c)),
                Ok((offset, p2)) => if p2 > u32::MAX {
                    Err(Failure::Read(crate::decode::ErrorCode::Position))
                } else {
                    match spec_string(s, offset as int) {
                        Err(c) => Err(Failure::Read(c)),
                        Ok((name, _)) => Ok((name, p2)),
                    }
                },
            }
        } else {
            Err(Failure::Image(ImageError::UolType(tag)))
        },
    }
}

/// Whether `name` is the type name of a known object.
pub open spec fn known_object_type(name: Seq<char>) -> bool {
    name == "Property"@ || name == "Canvas"@ || name == "Shape2D#Convex2D"@ || name
        == "Shape2D#Vector2D"@ || name == "UOL"@ || name == "Sound_DX8"@
}

/// The object of the known type `name` whose body is at `pos`: a property list, a canvas,
/// nothing (a convex shape), a vector, a byte that is skipped and a UOL string, or a sound.
pub open spec fn spec_object_body(s: Stream, name: Seq<char>, pos: int) -> Result<
    (ObjectView, int),
    Failure,
> {
    if name == "Property"@ {
        match spec_property(s, pos) {
            Err(f) => Err(f),
            Ok((v, p)) => Ok((ObjectView::Property(v), p)),
        }
    } else if name == "Canvas"@ {
        match spec_raw_canvas(s, pos) {
            Err(f) => Err(f),
            Ok((v, p)) => Ok((ObjectView::Canvas(v), p)),
        }
    } else if name == "Shape2D#Convex2D"@ {
        Ok((ObjectView::Convex, pos))
    } else if name == "Shape2D#Vector2D"@ {
        match spec_vector(s, pos) {
            Err(f) => Err(f),
            Ok((v, p)) => Ok((ObjectView::Vector(v), p)),
        }
    } else if name == "UOL"@ {
        match spec_u8(s, pos) {
            Err(c) => Err(Failure::Read(c)),
            Ok((_, p1)) => match spec_uol_string(s, p1) {
                Err(f) => Err(f),
                Ok((v, p)) => Ok((ObjectView::Uol(v), p)),
            },
        }
    } else {
        match spec_sound(s, pos) {
            Err(f) => Err(f),
            Ok((v, p)) => Ok((ObjectView::Sound(v), p)),
        }
    }
}

/// Decodes the type name of an object
fn decode_type_name(decoder: &mut SliceDecoder) -> (r: Result<String, Error>)
    ensures
        final(decoder).stream() == old(decoder).stream(),
        match spec_type_name(old(decoder).stream(), old(decoder).pos()) {
            Ok((v, p)) => r matches Ok(x) && x@ == v && final(decoder).pos() == p,
            Err(f) => r matches Err(e) && fails_as(e, f),
        },
{
    let tag = match decode_u8(decoder) {
        Ok(t) => t,
        Err(e) => return Err(Error::from_read(e)),
    };
    if tag == 0x73 {
        match decode_string(decoder) {
            Ok(s) => Ok(s),
            Err(e) => Err(Error::from_read(e)),
        }
    } else if tag == 0x1b {
        let offset = match decode_u32(decoder) {
            Ok(o) => o,
            Err(e) => return Err(Error::from_read(e)),
        };
        let pos = match decoder.position() {
            Ok(p) => p,
            Err(e) => return Err(Error::from_read(e)),
        };
        let _ = decoder.seek(offset);
        let name = match decode_string(decoder) {
            Ok(s) => s,
            Err(e) => return Err(Error::from_read(e)),
        };
        let _ = decoder.seek(pos);
        Ok(name)
    } else {
        Err(Error::image(ImageError::UolType(tag)))
    }
}

impl Object {
    /// Decodes an object: its type name, then its body; an unknown type name is an error
    /// that holds the name
    pub fn decode(decoder: &mut SliceDecoder) -> (r: Result<Self, Error>)
        ensures
            final(decoder).stream() == old(decoder).stream(),
            match spec_type_name(old(decoder).stream(), old(decoder).pos()) {
                Err(f) => r matches Err(e) && fails_as(e, f),
                Ok((name, p)) => if known_object_type(name) {
                    match spec_object_body(old(decoder).stream(), name, p) {
                        Ok((v, q)) => r matches Ok(x) && x@ == v && final(decoder).pos() == q,
                        Err(f) => r matches Err(e) && fails_as(e, f),
                    }
                } else {
                    r matches Err(e) && e.kind() matches ErrorImpl::Image(
                        ImageError::ObjectType(t),
                    ) && t@ == name
                },
            },
    {
        let typename = match decode_type_name(decoder) {
            Ok(t) => t,
            Err(e) => return Err(e),
        };
        if typename == String::from_str("Property") {
            match Property::decode(decoder) {
                Ok(p) => Ok(Object::Property(p)),
                Err(e) => Err(e),
            }
        } else if typename == String::from_str("Canvas") {
            match Canvas::decode(decoder) {
                Ok(c) => Ok(Object::Canvas(c)),
                Err(e) => Err(e),
            }
        } else if typename == String::from_str("Shape2D#Convex2D") {
            Ok(Object::Convex)
        } else if typename == String::from_str("Shape2D#Vector2D") {
            match Vector::decode(decoder) {
                Ok(v) => Ok(Object::Vector(v)),
                Err(e) => Err(e),
            }
        } else if typename == String::from_str("UOL") {
            match UolObject::decode(decoder) {
                Ok(u) => Ok(Object::Uol(u)),
                Err(e) => Err(e),
            }
        } else if typename == String::from_str("Sound_DX8") {
            match Sound::decode(decoder) {
                Ok(s) => Ok(Object::Sound(s)),
                Err(e) => Err(e),
            }
        } else {
            Err(Error::image(ImageError::ObjectType(typename)))
        }
    }
}

} // verus!
