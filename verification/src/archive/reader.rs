//! WZ Archive Reader

use crate::archive::error::{Error, ErrorCode};
use crate::archive::header::{header_readable, spec_header, Header, HeaderView};
use crate::archive::offset::Offset;
use crate::archive::package::content::ContentView;
use crate::archive::package::{spec_package, Package};
use crate::archive::{spec_map, Archive};
use crate::cipher::{checksum, spec_possible_versions, spec_version_checksum, spec_version_hash, KeyStream};
use crate::decode::{SliceDecoder, Stream};
use crate::types::Int32;
use vstd::prelude::*;
use vstd::slice::{slice_subrange, slice_to_vec};

verus! {

/// What reads an archive whose bytes are `data`, decrypted with `key`, offsets being keyed
/// with `version_checksum`.
pub open spec fn archive_stream(data: Seq<u8>, key: Seq<u8>, h: HeaderView, version_checksum: u32) -> Stream {
    Stream { data, key, content_start: h.content_start, version_checksum }
}

/// The end of the archive content that the header announces.
pub open spec fn content_end(h: HeaderView) -> int {
    h.content_start + (h.size as u32)
}

/// Every offset of `cs` lies within the archive content, `[lower, upper)`.
pub open spec fn offsets_within(cs: Seq<ContentView>, lower: int, upper: int) -> bool {
    forall|i: int| 0 <= i < cs.len() ==> lower <= #[trigger] cs[i].offset < upper
}

/// Trying the version checksums `cands` in turn. The first one under which the top-level
/// package decodes with all its offsets inside the archive content is taken; a top-level
/// package that does not decode ends the search.
pub open spec fn spec_bruteforce(data: Seq<u8>, key: Seq<u8>, h: HeaderView, cands: Seq<u32>) -> Result<
    u32,
    ErrorCode,
>
    decreases cands.len(),
{
    if cands.len() == 0 {
        Err(ErrorCode::Bruteforce)
    } else {
        let s = archive_stream(data, key, h, cands[0]);
        match spec_package(s, h.content_start + 2) {
            Err(e) => Err(e),
            Ok((cs, _)) => if offsets_within(cs, h.content_start as int, content_end(h)) {
                Ok(cands[0])
            } else {
                spec_bruteforce(data, key, h, cands.drop_first())
            },
        }
    }
}

/// Where the reader's arithmetic on the header stays within `u32`: the top-level
/// package and the end of the content have positions.
pub open spec fn header_in_range(d: Seq<u8>) -> bool {
    spec_header(d) matches Ok(h) ==> h.content_start + 2 <= u32::MAX && content_end(h) <= u32::MAX
}

/// WZ Archive Reader structure: the bytes of an archive with its header, the key stream
/// that decrypts it and the version checksum that its offsets are keyed with.
#[derive(Debug)]
pub struct Reader {
    header: Header,
    data: Vec<u8>,
    decryptor: KeyStream,
    version_checksum: u32,
}

impl Reader {
    /// The header
    pub closed spec fn header_view(&self) -> HeaderView {
        self.header@
    }

    /// The bytes of the archive
    pub closed spec fn data(&self) -> Seq<u8> {
        self.data@
    }

    /// The key stream
    pub closed spec fn key(&self) -> Seq<u8> {
        self.decryptor@
    }

    /// The version checksum in use
    pub closed spec fn version_checksum(&self) -> u32 {
        self.version_checksum
    }

    /// What reads the archive
    pub open spec fn stream(&self) -> Stream {
        archive_stream(self.data(), self.key(), self.header_view(), self.version_checksum())
    }

    /// Opens an unencrypted WZ Reader
    pub fn unencrypted(data: Vec<u8>) -> (r: Result<Self, Error>)
        requires
            header_readable(data@),
            header_in_range(data@),
        ensures
            match spec_header(data@) {
                Err(c) => r matches Err(e) && e.spec_code() == c,
                Ok(h) => match spec_bruteforce(
                    data@,
                    Seq::empty(),
                    h,
                    spec_possible_versions(h.version_hash, 1000),
                ) {
                    Ok(vc) => r matches Ok(x) && x.header_view() == h && x.data() == data@
                        && x.key() == Seq::<u8>::empty() && x.version_checksum() == vc,
                    Err(c) => r matches Err(e) && e.spec_code() == c,
                },
            },
    {
        Reader::new(data, KeyStream::dummy())
    }

    /// Opens an unencrypted WZ Reader as a specific version
    pub fn unencrypted_as_version(data: Vec<u8>, version: u16) -> (r: Result<Self, Error>)
        requires
            header_readable(data@),
        ensures
            match spec_header(data@) {
                Err(c) => r matches Err(e) && e.spec_code() == c,
                Ok(h) => if h.version_hash == spec_version_hash(spec_version_checksum(version)) {
                    r matches Ok(x) && x.header_view() == h && x.data() == data@ && x.key()
                        == Seq::<u8>::empty() && x.version_checksum() == spec_version_checksum(
                        version,
                    )
                } else {
                    r matches Err(e) && e.spec_code() == ErrorCode::Version
                },
            },
    {
        Reader::as_version(data, version, KeyStream::dummy())
    }

    /// Opens a WZ Reader: reads the header, then finds the version checksum
    pub fn new(data: Vec<u8>, decryptor: KeyStream) -> (r: Result<Self, Error>)
        requires
            header_readable(data@),
            header_in_range(data@),
        ensures
            match spec_header(data@) {
                Err(c) => r matches Err(e) && e.spec_code() == c,
                Ok(h) => match spec_bruteforce(
                    data@,
                    decryptor@,
                    h,
                    spec_possible_versions(h.version_hash, 1000),
                ) {
                    Ok(vc) => r matches Ok(x) && x.header_view() == h && x.data() == data@
                        && x.key() == decryptor@ && x.version_checksum() == vc,
                    Err(c) => r matches Err(e) && e.spec_code() == c,
                },
            },
    {
        let header = match Header::from_read(data.as_slice()) {
            Ok(h) => h,
            Err(e) => return Err(e),
        };
        let mut ret = Reader { header, data, decryptor, version_checksum: 0 };
        match ret.bruteforce_version() {
            Ok(()) => Ok(ret),
            Err(e) => Err(e),
        }
    }

    /// Opens a WZ Reader as a specific version
    pub fn as_version(data: Vec<u8>, version: u16, decryptor: KeyStream) -> (r: Result<Self, Error>)
        requires
            header_readable(data@),
        ensures
            match spec_header(data@) {
                Err(c) => r matches Err(e) && e.spec_code() == c,
                Ok(h) => if h.version_hash == spec_version_hash(spec_version_checksum(version)) {
                    r matches Ok(x) && x.header_view() == h && x.data() == data@ && x.key()
                        == decryptor@ && x.version_checksum() == spec_version_checksum(version)
                } else {
                    r matches Err(e) && e.spec_code() == ErrorCode::Version
                },
            },
    {
        let header = match Header::from_read(data.as_slice()) {
            Ok(h) => h,
            Err(e) => return Err(e),
        };
        let (version_hash, version_checksum) = checksum(version);
        if header.version_hash != version_hash {
            return Err(Error::version("WZ archive does not match expected version hash"));
        }
        Ok(Reader { header, data, decryptor, version_checksum })
    }

    /// Returns the header of the archive
    pub fn header(&self) -> (r: &Header)
        ensures
            r@ == self.header_view(),
    {
        &self.header
    }

    /// Parses the WZ archive
    pub fn parse(&self) -> (r: Result<Archive, Error>)
        requires
            self.header_view().content_start + 2 <= u32::MAX,
        ensures
            match spec_map(self.stream(), self.header_view()) {
                Ok((ps, vs)) => r matches Ok(a) && a.wf() && a.header_view() == self.header_view()
                    && a.parents() == ps && a.contents() == vs,
                Err(c) => r matches Err(e) && e.spec_code() == c,
            },
    {
        let mut decoder = SliceDecoder::new(
            self.header.content_start,
            self.version_checksum,
            self.data.as_slice(),
            self.decryptor.clone(),
        );
        Archive::parse(self.header.clone(), &mut decoder)
    }

    /// Copies `size` bytes at `offset` to the end of `write`. Where the archive ends first,
    /// the bytes up to its end are copied and an I/O error is returned.
    pub fn copy_to(&self, write: &mut Vec<u8>, offset: Offset, size: Int32) -> (r: Result<(), Error>)
        ensures
            offset@ + (size@ as usize) <= self.data().len() ==> r is Ok && final(write)@ == old(
                write,
            )@ + self.data().subrange(offset@ as int, offset@ + (size@ as usize)),
            offset@ + (size@ as usize) > self.data().len() ==> (r matches Err(e) && e.spec_code()
                == ErrorCode::Io) && final(write)@ == old(write)@ + if offset@ <= self.data().len() {
                self.data().subrange(offset@ as int, self.data().len() as int)
            } else {
                Seq::<u8>::empty()
            },
    {
        let start = offset.value() as usize;
        let len = size.value() as usize;
        let n = self.data.len();
        if start <= n && len <= n - start {
            let bytes = slice_to_vec(slice_subrange(self.data.as_slice(), start, start + len));
            let mut bytes = bytes;
            write.append(&mut bytes);
            Ok(())
        } else {
            if start <= n {
                let mut bytes = slice_to_vec(slice_subrange(self.data.as_slice(), start, n));
                write.append(&mut bytes);
            }
            Err(Error::io("unexpected end of file"))
        }
    }

    fn bruteforce_version(&mut self) -> (r: Result<(), Error>)
        requires
            old(self).header_view().content_start + 2 <= u32::MAX,
            content_end(old(self).header_view()) <= u32::MAX,
        ensures
            final(self).header_view() == old(self).header_view(),
            final(self).data() == old(self).data(),
            final(self).key() == old(self).key(),
            match spec_bruteforce(
                old(self).data(),
                old(self).key(),
                old(self).header_view(),
                spec_possible_versions(old(self).header_view().version_hash, 1000),
            ) {
                Ok(vc) => r is Ok && final(self).version_checksum() == vc,
                Err(c) => r matches Err(e) && e.spec_code() == c,
            },
    {
        let lower = self.header.content_start;
        let upper = self.header.content_start + self.header.size as u32;
        let cands = Header::possible_versions(self.header.version_hash);
        let ghost h = self.header@;
        let ghost all = cands@;
        assert(all.skip(0) =~= all);
        let mut i: usize = 0;
        while i < cands.len()
            invariant
                self.header@ == h,
                self.data@ == old(self).data(),
                self.decryptor@ == old(self).key(),
                h == old(self).header_view(),
                cands@ == all,
                all == spec_possible_versions(h.version_hash, 1000),
                h.content_start + 2 <= u32::MAX,
                lower == h.content_start,
                upper == content_end(h),
                i <= all.len(),
                spec_bruteforce(self.data@, self.decryptor@, h, all) == spec_bruteforce(
                    self.data@,
                    self.decryptor@,
                    h,
                    all.skip(i as int),
                ),
            decreases all.len() - i,
        {
            let ghost rest = all.skip(i as int);
            assert(rest[0] == all[i as int]);
            assert(rest.drop_first() =~= all.skip(i + 1));
            self.version_checksum = cands[i];
            let mut decoder = SliceDecoder::new(
                self.header.content_start,
                self.version_checksum,
                self.data.as_slice(),
                self.decryptor.clone(),
            );
            let _ = decoder.seek(self.header.content_start + 2);
            let package = match Package::decode(&mut decoder) {
                Ok(p) => p,
                Err(e) => return Err(e),
            };
            // Decodes the top-level directory contents. If all contents lie within the lower
            // and upper bounds, we can assume the version checksum is good.
            let mut within = true;
            let mut j: usize = 0;
            while j < package.contents.len()
                invariant
                    j <= package.contents@.len(),
                    within == (forall|m: int|
                        0 <= m < j ==> lower <= #[trigger] package.contents@[m]@.offset < upper),
                decreases package.contents@.len() - j,
            {
                let off = package.contents[j].offset.value();
                assert(off == package.contents@[j as int]@.offset);
                if !(lower <= off && off < upper) {
                    within = false;
                }
                j = j + 1;
            }
            proof {
                if within {
                    assert forall|m: int| 0 <= m < package@.len() implies lower
                        <= #[trigger] package@[m].offset < upper by {
                        assert(package@[m] == package.contents@[m]@);
                    }
                } else {
                    let m = choose|m: int|
                        0 <= m < package.contents@.len() && !(lower
                            <= #[trigger] package.contents@[m]@.offset < upper);
                    assert(package@[m] == package.contents@[m]@);
                }
            }
            assert(within == offsets_within(package@, lower as int, upper as int));
            if within {
                return Ok(());
            }
            i = i + 1;
        }
        proof {
            assert(all.skip(i as int) =~= Seq::<u32>::empty());
        }
        Err(Error::bruteforce("bruteforce failed"))
    }
}

} // verus!
