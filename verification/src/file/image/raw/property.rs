//! WZ Image Property Type

use crate::decode::{decode_u16, spec_u16, SliceDecoder, Stream};
use crate::encode::{Encode, Encoder};
use crate::error::{fails_as, DecodeError, Error, Failure};
use crate::file::image::raw::content::{
    content_ref_encodable, spec_content_ref, spec_content_ref_bytes, ContentRef, ContentRefView,
};
use crate::types::{spec_int32, spec_int32_bytes, Int32};
use vstd::prelude::*;

verus! {

/// A property contains a list of contents--similar to package.
#[derive(Debug)]
pub struct Property {
    contents: Vec<ContentRef>,
}

impl View for Property {
    type V = Seq<ContentRefView>;

    closed spec fn view(&self) -> Seq<ContentRefView> {
        self.contents@.map_values(|c: ContentRef| c@)
    }
}

/// `acc` followed by what `r` read, or the failure of `r`.
pub open spec fn after_entries(
    acc: Seq<ContentRefView>,
    r: Result<(Seq<ContentRefView>, int), Failure>,
) -> Result<(Seq<ContentRefView>, int), Failure> {
    match r {
        Ok((cs, p)) => Ok((acc + cs, p)),
        Err(f) => Err(f),
    }
}

/// The `n` entries from `pos` on, one after the other.
pub open spec fn spec_content_refs(s: Stream, pos: int, n: nat) -> Result<
    (Seq<ContentRefView>, int),
    Failure,
>
    decreases n,
{
    if n == 0 {
        Ok((Seq::empty(), pos))
    } else {
        match spec_content_ref(s, pos) {
            Err(f) => Err(f),
            Ok((c, p)) => after_entries(seq![c], spec_content_refs(s, p, (n - 1) as nat)),
        }
    }
}

/// The property at `pos`: two bytes that are skipped, the number of entries (which must not
/// be negative), then the entries.
pub open spec fn spec_property(s: Stream, pos: int) -> Result<(Seq<ContentRefView>, int), Failure> {
    match spec_u16(s, pos) {
        Err(c) => Err(Failure::Read(c)),
        Ok((_, p1)) => match spec_int32(s, p1) {
            Err(c) => Err(Failure::Read(c)),
            Ok((n, p2)) => if n < 0 {
                Err(Failure::Decode(DecodeError::Length(n)))
            } else {
                spec_content_refs(s, p2, n as nat)
            },
        },
    }
}

/// The bytes written for the entries `cs`, one after the other.
pub open spec fn spec_content_refs_bytes(key: Seq<u8>, cs: Seq<ContentRefView>) -> Seq<u8>
    decreases cs.len(),
{
    if cs.len() == 0 {
        Seq::empty()
    } else {
        spec_content_refs_bytes(key, cs.drop_last()) + spec_content_ref_bytes(key, cs.last())
    }
}

impl Property {
    /// Returns the number of contents
    pub fn num_contents(&self) -> (r: usize)
        ensures
            r == self@.len(),
    {
        self.contents.len()
    }

    /// Returns the contents
    pub fn contents(&self) -> (r: &[ContentRef])
        ensures
            r@.map_values(|c: ContentRef| c@) == self@,
    {
        self.contents.as_slice()
    }

    /// Decodes a property
    pub fn decode(decoder: &mut SliceDecoder) -> (r: Result<Self, Error>)
        ensures
            final(decoder).stream() == old(decoder).stream(),
            match spec_property(old(decoder).stream(), old(decoder).pos()) {
                Ok((v, p)) => r matches Ok(x) && x@ == v && final(decoder).pos() == p,
                Err(f) => r matches Err(e) && fails_as(e, f),
            },
    {
        let ghost s = decoder.stream();
        let ghost start = decoder.pos();
        match decode_u16(decoder) {
            Ok(_) => {},
            Err(e) => return Err(Error::from_read(e)),
        }
        let num_contents = match Int32::decode(decoder) {
            Ok(n) => n,
            Err(e) => return Err(Error::from_read(e)),
        };
        if num_contents.is_negative() {
            return Err(Error::decode(DecodeError::Length(num_contents.0)));
        }
        let num_contents = num_contents.0 as usize;
        let ghost first = decoder.pos();
        let mut contents: Vec<ContentRef> = Vec::new();
        let mut i: usize = 0;
        while i < num_contents
            invariant
                decoder.stream() == s,
                s == old(decoder).stream(),
                start == old(decoder).pos(),
                i <= num_contents,
                contents@.len() == i,
                spec_property(s, start) == spec_content_refs(s, first, num_contents as nat),
                spec_content_refs(s, first, num_contents as nat) == after_entries(
                    contents@.map_values(|c: ContentRef| c@),
                    spec_content_refs(s, decoder.pos(), (num_contents - i) as nat),
                ),
            decreases num_contents - i,
        {
            let ghost acc = contents@.map_values(|c: ContentRef| c@);
            let ghost here = decoder.pos();
            let ghost rest = (num_contents - i - 1) as nat;
            let c = match ContentRef::decode(decoder) {
                Ok(c) => c,
                Err(e) => return Err(e),
            };
            proof {
                let next = spec_content_refs(s, decoder.pos(), rest);
                match next {
                    Ok((cs, q)) => {
                        assert(acc + (seq![c@] + cs) =~= acc.push(c@) + cs);
                    },
                    Err(_) => {},
                }
            }
            contents.push(c);
            assert(contents@.map_values(|x: ContentRef| x@) =~= acc.push(c@));
            i = i + 1;
        }
        assert(contents@.map_values(|c: ContentRef| c@) + Seq::<ContentRefView>::empty()
            =~= contents@.map_values(|c: ContentRef| c@));
        Ok(Self { contents })
    }

    /// Encodes the number of entries, then each entry
    pub fn encode<E: Encoder>(&self, encoder: &mut E) -> (r: Result<(), crate::encode::Error>)
        requires
            forall|i: int| 0 <= i < self@.len() ==> content_ref_encodable(#[trigger] self@[i]),
        ensures
            r is Ok,
            final(encoder).spec_context() == old(encoder).spec_context(),
            final(encoder).spec_written() == old(encoder).spec_written() + spec_int32_bytes(
                self@.len() as i32,
            ) + spec_content_refs_bytes(old(encoder).spec_context().key, self@),
    {
        let ghost start = encoder.spec_written();
        let ghost key = encoder.spec_context().key;
        let ghost view = self@;
        let _ = Int32(self.contents.len() as i32).encode(encoder);
        let mut i: usize = 0;
        while i < self.contents.len()
            invariant
                view == self@,
                view.len() == self.contents@.len(),
                forall|t: int| 0 <= t < view.len() ==> content_ref_encodable(#[trigger] view[t]),
                i <= view.len(),
                encoder.spec_context().key == key,
                encoder.spec_context() == old(encoder).spec_context(),
                encoder.spec_written() == start + spec_int32_bytes(view.len() as i32)
                    + spec_content_refs_bytes(key, view.take(i as int)),
            decreases view.len() - i,
        {
            assert(view[i as int] == self.contents@[i as int]@);
            let _ = self.contents[i].encode(encoder);
            assert(view.take(i + 1).drop_last() =~= view.take(i as int));
            i = i + 1;
        }
        assert(view.take(i as int) =~= view);
        Ok(())
    }
}

} // verus!
