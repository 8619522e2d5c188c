//! WZ Archive Package types

pub mod content;

pub use content::{Content, ContentType};

use crate::archive::error::{Error, ErrorCode};
use crate::decode::{SliceDecoder, Stream};
use crate::types::Int32;
use content::{archive_decodes_as, spec_archive_int32, spec_content, ContentView};
use vstd::prelude::*;

verus! {

/// Packages can hold other packages or images. The structure is as follows:
///
/// ```no_build
/// [ num_contents: Int32 ]
/// [metadata for content1]
/// [         ...         ]
/// [metadata for contentN]
/// [      content 1      ]
/// [         ...         ]
/// [      content N      ]
/// ```
///
/// Packages are allowed to be empty. Empty packages are used in Base.wz to probably to signify
/// what other WZ archives exist. It's best to treat each of the package contents as binary
/// blobs.
pub struct Package {
    /// List of package contents
    pub contents: Vec<Content>,
}

impl View for Package {
    type V = Seq<ContentView>;

    open spec fn view(&self) -> Seq<ContentView> {
        self.contents@.map_values(|c: Content| c@)
    }
}

/// The `n` content entries at `pos`.
pub open spec fn spec_contents(s: Stream, pos: int, n: nat) -> Result<(Seq<ContentView>, int), ErrorCode>
    decreases n,
{
    if n == 0 {
        Ok((Seq::empty(), pos))
    } else {
        match spec_contents(s, pos, (n - 1) as nat) {
            Err(e) => Err(e),
            Ok((cs, p)) => match spec_content(s, p) {
                Err(e) => Err(e),
                Ok((c, p2)) => Ok((cs.push(c), p2)),
            },
        }
    }
}

/// The package at `pos`: the number of entries (which must not be negative), then the entries.
pub open spec fn spec_package(s: Stream, pos: int) -> Result<(Seq<ContentView>, int), ErrorCode> {
    match spec_archive_int32(s, pos) {
        Err(e) => Err(e),
        Ok((n, p)) => if n < 0 {
            Err(ErrorCode::Decode)
        } else {
            spec_contents(s, p, n as nat)
        },
    }
}

impl Package {
    /// Decodes a package
    pub fn decode(decoder: &mut SliceDecoder) -> (r: Result<Self, Error>)
        ensures
            final(decoder).stream() == old(decoder).stream(),
            archive_decodes_as(
                r,
                spec_package(old(decoder).stream(), old(decoder).pos()),
                final(decoder).pos(),
            ),
    {
        let num_contents = match Int32::decode(decoder) {
            Ok(n) => n,
            Err(e) => return Err(Error::from_decode(e)),
        };
        if num_contents.is_negative() {
            let e = crate::decode::Error::length("negative length decoding package");
            return Err(Error::from_decode(e));
        }
        let ghost count = num_contents@;
        let num_contents = num_contents.value() as usize;
        assert(num_contents as int == count);
        let ghost s = decoder.stream();
        assert(spec_package(old(decoder).stream(), old(decoder).pos()) == spec_contents(
            s,
            decoder.pos(),
            num_contents as nat,
        ));
        let ghost start = decoder.pos();
        let ghost mut views: Seq<ContentView> = Seq::empty();
        let mut contents: Vec<Content> = Vec::new();
        let mut i: usize = 0;
        while i < num_contents
            invariant
                decoder.stream() == s,
                s == old(decoder).stream(),
                spec_package(s, old(decoder).pos()) == spec_contents(s, start, num_contents as nat),
                i <= num_contents,
                spec_contents(s, start, i as nat) == Ok::<(Seq<ContentView>, int), ErrorCode>(
                    (views, decoder.pos()),
                ),
                views.len() == i,
                contents@.len() == i,
                forall|j: int| 0 <= j < i ==> #[trigger] contents@[j]@ == views[j],
            decreases num_contents - i,
        {
            let ghost p = decoder.pos();
            match Content::decode(decoder) {
                Ok(c) => {
                    proof {
                        views = views.push(c@);
                    }
                    contents.push(c);
                },
                Err(e) => {
                    assert(spec_contents(s, start, (i + 1) as nat) == Err::<
                        (Seq<ContentView>, int),
                        ErrorCode,
                    >(e.spec_code()));
                    proof {
                        lemma_contents_err_stops(s, start, (i + 1) as nat, num_contents as nat);
                    }
                    return Err(e);
                },
            }
            i = i + 1;
        }
        assert(contents@.map_values(|c: Content| c@) =~= views);
        Ok(Package { contents })
    }
}

/// Once reading the first `i` entries fails, reading more entries fails with the same error.
proof fn lemma_contents_err_stops(s: Stream, pos: int, i: nat, n: nat)
    requires
        i <= n,
        spec_contents(s, pos, i) is Err,
    ensures
        spec_contents(s, pos, n) == spec_contents(s, pos, i),
    decreases n - i,
{
    if i < n {
        lemma_contents_err_stops(s, pos, i, (n - 1) as nat);
    }
}

} // verus!
