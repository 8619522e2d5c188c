//! A WZ image mapped into a tree of named nodes

use crate::decode::{SliceDecoder, Stream};
use crate::error::{fails_as, CanvasError, DecodeError, Error, ErrorImpl, Failure, ImageError};
use crate::file::image::canvas::Canvas;
use crate::file::image::node::{Node, NodeView};
use crate::file::image::raw::content::{ContentRef, ContentRefView};
use crate::file::image::raw::object::{known_object_type, spec_object_body, spec_type_name, Object, ObjectView};
use crate::text::{decimal_chars, uint_to_string};
use crate::types::{spec_int32, Int32};
use vstd::prelude::*;
use vstd::slice::slice_to_vec;

verus! {

/// A node of a mapped image as plain values: its name, the place of its parent (none for
/// the root) and its value.
pub type EntryView = (Seq<char>, Option<int>, NodeView);

/// How mapping an image fails: a failed decode, an object of an unknown type (with its type
/// name), or objects nested deeper than the data is long (at the position of the object).
pub enum MapFailure {
    /// A decode failed
    Fail(Failure),
    /// An object of an unknown type
    UnknownObject(Seq<char>),
    /// Objects nested too deep
    TooDeep(u32),
}

/// `e` reports the mapping failure `f`.
pub open spec fn fails_map(e: Error, f: MapFailure) -> bool {
    match f {
        MapFailure::Fail(f) => fails_as(e, f),
        MapFailure::UnknownObject(t) => e.kind() matches ErrorImpl::Image(
            ImageError::ObjectType(n),
        ) && n@ == t,
        MapFailure::TooDeep(p) => e.kind() == ErrorImpl::Decode(DecodeError::Offset(p as i32)),
    }
}

/// The node of a property entry that holds a value.
pub open spec fn value_node(c: ContentRefView) -> NodeView {
    match c {
        ContentRefView::Null(_) => NodeView::Null,
        ContentRefView::Short(_, v) => NodeView::Short(v),
        ContentRefView::Int(_, v) => NodeView::Int(v),
        ContentRefView::Long(_, v) => NodeView::Long(v),
        ContentRefView::Float(_, v) => NodeView::Float(v),
        ContentRefView::Double(_, v) => NodeView::Double(v),
        ContentRefView::String(_, v) => NodeView::String(v),
        ContentRefView::Object(_, _, _) => NodeView::Null,
    }
}

/// The nodes `acc` after the object named `name` at `pos` is added under `parent`, with its
/// descendants, and the position the reading ends at. A property and a canvas with a
/// property list add their entries under them, a convex shape adds its points (named by
/// their number, each object right after the previous one).
pub open spec fn spec_map_object(
    s: Stream,
    name: Seq<char>,
    pos: u32,
    parent: int,
    acc: Seq<EntryView>,
    fuel: nat,
) -> Result<(Seq<EntryView>, int), MapFailure>
    decreases fuel, 0int,
{
    if fuel == 0 {
        Err(MapFailure::TooDeep(pos))
    } else {
        match spec_type_name(s, pos as int) {
            Err(f) => Err(MapFailure::Fail(f)),
            Ok((t, p)) => if !known_object_type(t) {
                Err(MapFailure::UnknownObject(t))
            } else {
                match spec_object_body(s, t, p) {
                    Err(f) => Err(MapFailure::Fail(f)),
                    Ok((v, q)) => {
                        let me = acc.len() as int;
                        match v {
                            ObjectView::Property(cs) => spec_map_entries(
                                s,
                                cs,
                                0,
                                me,
                                acc.push((name, Some(parent), NodeView::Property)),
                                q,
                                (fuel - 1) as nat,
                            ),
                            ObjectView::Canvas(c) => if c.format.0 + c.format.1 > i32::MAX {
                                Err(
                                    MapFailure::Fail(
                                        Failure::Canvas(CanvasError::EncodingFormat(Int32(c.format.0))),
                                    ),
                                )
                            } else {
                                let acc2 = acc.push(
                                    (
                                        name,
                                        Some(parent),
                                        NodeView::Canvas(
                                            c.width,
                                            c.height,
                                            (c.format.0 + c.format.1) as i32,
                                            c.data,
                                        ),
                                    ),
                                );
                                match c.property {
                                    Some(cs) => spec_map_entries(
                                        s,
                                        cs,
                                        0,
                                        me,
                                        acc2,
                                        q,
                                        (fuel - 1) as nat,
                                    ),
                                    None => Ok((acc2, q)),
                                }
                            },
                            ObjectView::Convex => match spec_int32(s, q) {
                                Err(c) => Err(MapFailure::Fail(Failure::Read(c))),
                                Ok((n, q2)) => if n < 0 {
                                    Err(MapFailure::Fail(Failure::Decode(DecodeError::Length(n))))
                                } else {
                                    spec_map_convex(
                                        s,
                                        0,
                                        n as nat,
                                        me,
                                        acc.push((name, Some(parent), NodeView::Convex)),
                                        q2,
                                        (fuel - 1) as nat,
                                    )
                                },
                            },
                            ObjectView::Vector(x) => Ok(
                                (acc.push((name, Some(parent), NodeView::Vector(x))), q),
                            ),
                            ObjectView::Uol(u) => Ok(
                                (acc.push((name, Some(parent), NodeView::Uol(u))), q),
                            ),
                            ObjectView::Sound(x) => Ok(
                                (acc.push((name, Some(parent), NodeView::Sound(x))), q),
                            ),
                        }
                    },
                }
            },
        }
    }
}

/// The nodes `acc` after the entries `cs[i..]` of a property are added under `parent`, in
/// order, and the position the reading ends at (reading starts at `pos`).
pub open spec fn spec_map_entries(
    s: Stream,
    cs: Seq<ContentRefView>,
    i: nat,
    parent: int,
    acc: Seq<EntryView>,
    pos: int,
    fuel: nat,
) -> Result<(Seq<EntryView>, int), MapFailure>
    decreases fuel, cs.len() - i,
{
    if i >= cs.len() {
        Ok((acc, pos))
    } else {
        match cs[i as int] {
            ContentRefView::Object(name, _, offset) => match spec_map_object(
                s,
                name,
                offset,
                parent,
                acc,
                fuel,
            ) {
                Err(f) => Err(f),
                Ok((a, p)) => spec_map_entries(s, cs, i + 1, parent, a, p, fuel),
            },
            c => spec_map_entries(
                s,
                cs,
                i + 1,
                parent,
                acc.push((c.name(), Some(parent), value_node(c))),
                pos,
                fuel,
            ),
        }
    }
}

/// The nodes `acc` after the points `i..n` of a convex shape are added under `parent`, the
/// first read at `pos`.
pub open spec fn spec_map_convex(
    s: Stream,
    i: nat,
    n: nat,
    parent: int,
    acc: Seq<EntryView>,
    pos: int,
    fuel: nat,
) -> Result<(Seq<EntryView>, int), MapFailure>
    decreases fuel, n - i,
{
    if i >= n {
        Ok((acc, pos))
    } else if pos > u32::MAX {
        Err(MapFailure::Fail(Failure::Read(crate::decode::ErrorCode::Position)))
    } else {
        match spec_map_object(s, decimal_chars(i), pos as u32, parent, acc, fuel) {
            Err(f) => Err(f),
            Ok((a, p)) => spec_map_convex(s, i + 1, n, parent, a, p, fuel),
        }
    }
}

/// The image named `name` whose root object is at `pos`: the root, a property named `name`,
/// then its entries; a root that is not a property is an error. Objects may be nested as
/// deep as the data is long.
pub open spec fn spec_image(s: Stream, name: Seq<char>, pos: int) -> Result<Seq<EntryView>, MapFailure> {
    match spec_type_name(s, pos) {
        Err(f) => Err(MapFailure::Fail(f)),
        Ok((t, p)) => if !known_object_type(t) {
            Err(MapFailure::UnknownObject(t))
        } else {
            match spec_object_body(s, t, p) {
                Err(f) => Err(MapFailure::Fail(f)),
                Ok((v, q)) => match v {
                    ObjectView::Property(cs) => match spec_map_entries(
                        s,
                        cs,
                        0,
                        0,
                        seq![(name, None::<int>, NodeView::Property)],
                        q,
                        s.data.len(),
                    ) {
                        Ok((a, _)) => Ok(a),
                        Err(f) => Err(f),
                    },
                    _ => Err(MapFailure::Fail(Failure::Image(ImageError::ImageRoot))),
                },
            }
        },
    }
}

/// A parsed WZ image: its nodes in the order they were read, each with its name and the
/// place of its parent
#[derive(Debug)]
pub struct Image {
    map: Vec<(String, Option<usize>, Node)>,
}

/// The node `e` as plain values.
pub open spec fn entry_view(e: (String, Option<usize>, Node)) -> EntryView {
    (
        e.0@,
        match e.1 {
            Some(p) => Some(p as int),
            None => None,
        },
        e.2@,
    )
}

impl View for Image {
    type V = Seq<EntryView>;

    closed spec fn view(&self) -> Seq<EntryView> {
        self.map@.map_values(|e: (String, Option<usize>, Node)| entry_view(e))
    }
}

/// The node of a property entry that holds a value.
fn entry_node(c: &ContentRef) -> (r: Node)
    requires
        !(c@ is Object),
    ensures
        r@ == value_node(c@),
{
    match c {
        ContentRef::Null { .. } => Node::Null,
        ContentRef::Short { value, .. } => Node::Short(*value),
        ContentRef::Int { value, .. } => Node::Int(*value),
        ContentRef::Long { value, .. } => Node::Long(*value),
        ContentRef::Float { value, .. } => Node::Float(*value),
        ContentRef::Double { value, .. } => Node::Double(*value),
        ContentRef::String { value, .. } => Node::String(value.duplicate()),
        ContentRef::Object { .. } => Node::Null,
    }
}

impl Image {
    /// Adds a node
    fn push(&mut self, name: String, parent: Option<usize>, node: Node)
        ensures
            final(self)@ == old(self)@.push(entry_view((name, parent, node))),
    {
        self.map.push((name, parent, node));
        assert(self.map@.map_values(|e: (String, Option<usize>, Node)| entry_view(e)) =~= old(
            self,
        )@.push(entry_view((name, parent, node))));
    }

    /// The number of nodes
    pub fn len(&self) -> (r: usize)
        ensures
            r == self@.len(),
    {
        self.map.len()
    }

    /// The nodes, in the order they were read
    pub fn map(&self) -> (r: &Vec<(String, Option<usize>, Node)>)
        ensures
            r@.map_values(|e: (String, Option<usize>, Node)| entry_view(e)) == self@,
    {
        &self.map
    }

    /// Adds the object named `name` at `offset` under `parent`, with its descendants
    #[verifier::spinoff_prover]
    #[verifier::rlimit(40)]
    fn map_object_to(
        &mut self,
        name: String,
        offset: u32,
        parent: usize,
        decoder: &mut SliceDecoder,
        fuel: usize,
    ) -> (r: Result<(), Error>)
        requires
            parent < old(self)@.len(),
        ensures
            final(decoder).stream() == old(decoder).stream(),
            match spec_map_object(
                old(decoder).stream(),
                name@,
                offset,
                parent as int,
                old(self)@,
                fuel as nat,
            ) {
                Ok((a, p)) => r is Ok && final(self)@ == a && final(decoder).pos() == p,
                Err(f) => r matches Err(e) && fails_map(e, f),
            },
            final(self)@.len() >= old(self)@.len(),
        decreases fuel, 0int,
    {
        if fuel == 0 {
            return Err(Error::decode(DecodeError::Offset(offset as i32)));
        }
        let _ = decoder.seek(offset);
        let object = match Object::decode(decoder) {
            Ok(o) => o,
            Err(e) => return Err(e),
        };
        let me = self.map.len();
        match object {
            Object::Property(p) => {
                self.push(name, Some(parent), Node::Property);
                self.map_property_to(p.contents(), me, decoder, fuel - 1)
            },
            Object::Canvas(c) => {
                let format = c.format();
                if format.format.0 as i64 + format.format2 as i64 > 0x7fff_ffff {
                    return Err(Error::canvas(CanvasError::EncodingFormat(format.format)));
                }
                let canvas = Canvas::new(
                    c.width(),
                    c.height(),
                    format.format,
                    format.format2,
                    slice_to_vec(c.data()),
                );
                self.push(name, Some(parent), Node::Canvas(canvas));
                match c.property() {
                    Some(p) => self.map_property_to(p.contents(), me, decoder, fuel - 1),
                    None => Ok(()),
                }
            },
            Object::Convex => {
                self.push(name, Some(parent), Node::Convex);
                let num_objects = match Int32::decode(decoder) {
                    Ok(n) => n,
                    Err(e) => return Err(Error::from_read(e)),
                };
                if num_objects.is_negative() {
                    return Err(Error::decode(DecodeError::Length(num_objects.0)));
                }
                self.map_convex_to(num_objects.0 as u32, me, decoder, fuel - 1)
            },
            Object::Vector(v) => {
                self.push(name, Some(parent), Node::Vector(v));
                Ok(())
            },
            Object::Uol(u) => {
                self.push(name, Some(parent), Node::Uol(u));
                Ok(())
            },
            Object::Sound(s) => {
                self.push(name, Some(parent), Node::Sound(s));
                Ok(())
            },
        }
    }

    /// Adds the entries `contents` of a property under `parent`, in order
    #[verifier::spinoff_prover]
    #[verifier::rlimit(40)]
    fn map_property_to(
        &mut self,
        contents: &[ContentRef],
        parent: usize,
        decoder: &mut SliceDecoder,
        fuel: usize,
    ) -> (r: Result<(), Error>)
        requires
            parent < old(self)@.len(),
        ensures
            final(decoder).stream() == old(decoder).stream(),
            match spec_map_entries(
                old(decoder).stream(),
                contents@.map_values(|c: ContentRef| c@),
                0,
                parent as int,
                old(self)@,
                old(decoder).pos(),
                fuel as nat,
            ) {
                Ok((a, p)) => r is Ok && final(self)@ == a && final(decoder).pos() == p,
                Err(f) => r matches Err(e) && fails_map(e, f),
            },
            final(self)@.len() >= old(self)@.len(),
        decreases fuel, 1int,
    {
        let ghost s = decoder.stream();
        let ghost cs = contents@.map_values(|c: ContentRef| c@);
        let ghost target = spec_map_entries(
            s,
            cs,
            0,
            parent as int,
            self@,
            decoder.pos(),
            fuel as nat,
        );
        let ghost len0 = self@.len();
        let mut i: usize = 0;
        while i < contents.len()
            invariant
                decoder.stream() == s,
                s == old(decoder).stream(),
                cs == contents@.map_values(|c: ContentRef| c@),
                i <= contents@.len(),
                parent < len0 <= self@.len(),
                len0 == old(self)@.len(),
                target == spec_map_entries(
                    s,
                    cs,
                    0,
                    parent as int,
                    old(self)@,
                    old(decoder).pos(),
                    fuel as nat,
                ),
                target == spec_map_entries(
                    s,
                    cs,
                    i as nat,
                    parent as int,
                    self@,
                    decoder.pos(),
                    fuel as nat,
                ),
            decreases contents@.len() - i,
        {
            let c = &contents[i];
            assert(cs[i as int] == c@);
            match c {
                ContentRef::Object { name, offset, .. } => {
                    let n = String::from_str(name.as_str());
                    match self.map_object_to(n, offset.0, parent, decoder, fuel) {
                        Ok(()) => {},
                        Err(e) => return Err(e),
                    }
                },
                _ => {
                    let n = String::from_str(c.name().as_str());
                    let node = entry_node(c);
                    self.push(n, Some(parent), node);
                },
            }
            i = i + 1;
        }
        Ok(())
    }

    /// Adds the `n` points of a convex shape under `parent`, each read right after the
    /// previous one and named by its number
    #[verifier::spinoff_prover]
    #[verifier::rlimit(40)]
    fn map_convex_to(&mut self, n: u32, parent: usize, decoder: &mut SliceDecoder, fuel: usize) -> (r:
        Result<(), Error>)
        requires
            parent < old(self)@.len(),
        ensures
            final(decoder).stream() == old(decoder).stream(),
            match spec_map_convex(
                old(decoder).stream(),
                0,
                n as nat,
                parent as int,
                old(self)@,
                old(decoder).pos(),
                fuel as nat,
            ) {
                Ok((a, p)) => r is Ok && final(self)@ == a && final(decoder).pos() == p,
                Err(f) => r matches Err(e) && fails_map(e, f),
            },
            final(self)@.len() >= old(self)@.len(),
        decreases fuel, 1int,
    {
        let ghost s = decoder.stream();
        let ghost len0 = self@.len();
        let mut i: u32 = 0;
        while i < n
            invariant
                decoder.stream() == s,
                s == old(decoder).stream(),
                i <= n,
                parent < len0 <= self@.len(),
                len0 == old(self)@.len(),
                spec_map_convex(
                    s,
                    0,
                    n as nat,
                    parent as int,
                    old(self)@,
                    old(decoder).pos(),
                    fuel as nat,
                ) == spec_map_convex(
                    s,
                    i as nat,
                    n as nat,
                    parent as int,
                    self@,
                    decoder.pos(),
                    fuel as nat,
                ),
            decreases n - i,
        {
            let pos = match decoder.position() {
                Ok(p) => p,
                Err(e) => return Err(Error::from_read(e)),
            };
            let name = uint_to_string(i as u64);
            match self.map_object_to(name, pos, parent, decoder, fuel) {
                Ok(()) => {},
                Err(e) => return Err(e),
            }
            i = i + 1;
        }
        Ok(())
    }

    /// Parses the image named `name` whose root object is at the decoder's position
    pub fn parse(name: &str, decoder: &mut SliceDecoder) -> (r: Result<Self, Error>)
        ensures
            match spec_image(old(decoder).stream(), name@, old(decoder).pos()) {
                Ok(a) => r matches Ok(img) && img@ == a,
                Err(f) => r matches Err(e) && fails_map(e, f),
            },
    {
        let mut image = Image { map: Vec::new() };
        image.push(String::from_str(name), None, Node::Property);
        assert(image@ == seq![(name@, None::<int>, NodeView::Property)]);
        let object = match Object::decode(decoder) {
            Ok(o) => o,
            Err(e) => return Err(e),
        };
        let fuel = decoder.len();
        match object {
            Object::Property(p) => match image.map_property_to(p.contents(), 0, decoder, fuel) {
                Ok(()) => Ok(image),
                Err(e) => Err(e),
            },
            _ => Err(Error::image(ImageError::ImageRoot)),
        }
    }
}

} // verus!
