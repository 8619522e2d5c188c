//! WZ Archive Builder

use crate::archive::error::{Error, ErrorCode};
use crate::archive::header::{default_description, lemma_header_roundtrip, pkg1, spec_header, spec_header_bytes, Header, HeaderView};
use crate::archive::writer::{spec_image_data, Writer};
use crate::archive::readback::{utf16_faithful, distinct_nodes, lemma_map_follows_tree, lemma_root_set, lemma_write_len, lemma_package_read_back, lemma_tree_bfs_complete, parent_places, read_stream, readable, tree_bfs};
use crate::archive::reader::archive_stream;
use crate::archive::package::spec_package;
use vstd::utf8::encode_utf8;
use crate::cipher::{spec_version_checksum, spec_version_hash};
use crate::archive::offset::Offset;
use crate::archive::package::content::{spec_content_bytes, Content, ContentType, ContentTypeView, ContentView};
use crate::archive::{spec_map, spec_root, children_of, lemma_children_upto_bounds, lemma_children_upto_len, lemma_children_upto_none, lemma_children_upto_push, parents_wf, Archive, ContentTree};
use crate::encode::size::spec_str_size_hint;
use crate::encode::{str_encodable, Encode, EncodeContext, Encoder, SizeHint};
use crate::text::{concat_str, uint_to_string};
use crate::types::{spec_int32_bytes, spec_int_size, Int32};
use ego_tree::NodeId;
use vstd::prelude::*;

verus! {

/// Largest size of a package
pub const MAX_SIZE: u64 = 0x7fff_ffff;

/// Largest number of contents of a package
pub const MAX_LEN: usize = 0x7fff_ffff;

/// Representation of a WZ Image, for users of the builder to implement. The spec functions
/// say what the methods return, and the builder's contracts are stated over them; nothing
/// checks that an implementation outside this crate keeps to them. An implementation that
/// does not define them leaves them unspecified. In particular `to_bytes` is tied to a spec
/// function of the image value alone: an image whose bytes come from outside (a file read
/// when they are asked for, whose contents can change in between) does not meet that, and
/// what the builder's contracts say of the written image bytes does not cover it.
pub trait Image {
    /// The name, as plain values
    closed spec fn spec_name(&self) -> Seq<char> {
        arbitrary()
    }

    /// The size, as plain values
    closed spec fn spec_size(&self) -> u64 {
        arbitrary()
    }

    /// The checksum, as plain values
    closed spec fn spec_checksum(&self) -> i32 {
        arbitrary()
    }

    /// Return the name of the image
    fn name(&self) -> (r: &str)
        ensures
            r@ == self.spec_name(),
    ;

    /// Return the size of the image
    fn size(&self) -> (r: u64)
        ensures
            r == self.spec_size(),
    ;

    /// Return the checksum of the image
    fn checksum(&self) -> (r: i32)
        ensures
            r == self.spec_checksum(),
    ;

    /// The bytes of the image, if they can be read
    closed spec fn spec_bytes(&self) -> Option<Seq<u8>> {
        arbitrary()
    }

    /// Reads the bytes of the image, or says why they cannot be read
    fn to_bytes(&self) -> (r: Result<Vec<u8>, String>)
        ensures
            match self.spec_bytes() {
                Some(b) => r matches Ok(v) && v@ == b,
                None => r is Err,
            },
    ;
}

/// The bytes that the entry of content `c` takes in its package: the tag, the name, the
/// size, the checksum (always zero, one byte, for a package) and the offset.
pub open spec fn meta_size(c: ContentView) -> int {
    match c.content_type {
        ContentTypeView::Package(n) => 2 + spec_str_size_hint(n) + spec_int_size(c.size as int, 4)
            + 4,
        ContentTypeView::Image(n) => 1 + spec_str_size_hint(n) + spec_int_size(c.size as int, 4)
            + spec_int_size(c.checksum as int, 4) + 4,
    }
}

/// The bytes that content `c` takes itself: a package its number of contents (`len`) and
/// its size, an image its size.
pub open spec fn content_size(c: ContentView, len: int) -> int {
    match c.content_type {
        ContentTypeView::Package(_) => spec_int_size(len, 4) + c.size,
        ContentTypeView::Image(_) => c.size as int,
    }
}

/// Growing node `k`, then its ancestors, by `delta`, the growth of what the node holds;
/// `added` is the node that gains one content. Each new size (at most `MAX_SIZE`) changes
/// the bytes that the node takes, which is the growth of its parent. `None` when a size
/// would pass `MAX_SIZE`.
pub open spec fn spec_grow(ps: Seq<int>, vs: Seq<ContentView>, k: int, delta: int, added: int) -> Option<
    Seq<ContentView>,
>
    decreases k + 1,
{
    if k < 0 || k >= vs.len() || k >= ps.len() {
        Some(vs)
    } else {
        let c = vs[k];
        let len0 = children_of(ps, k).len() as int;
        let len1 = if k == added {
            len0 + 1
        } else {
            len0
        };
        let new_size = c.size + delta;
        if new_size > MAX_SIZE {
            None
        } else {
            let c2 = ContentView { size: new_size as i32, ..c };
            let d = meta_size(c2) + content_size(c2, len1) - meta_size(c) - content_size(c, len0);
            let next = if k > 0 && 0 <= ps[k] < k {
                ps[k]
            } else {
                -1
            };
            spec_grow(ps, vs.update(k, c2), next, d, added)
        }
    }
}

/// Adding content `c` to package `p`, which grows by `delta`: `None` when the package would
/// have more than `MAX_LEN` contents, or a size more than `MAX_SIZE`.
pub open spec fn spec_add(ps: Seq<int>, vs: Seq<ContentView>, p: int, c: ContentView, delta: int) -> Option<
    (Seq<int>, Seq<ContentView>),
> {
    if children_of(ps, p).len() + 1 > MAX_LEN {
        None
    } else {
        match spec_grow(ps, vs, p, delta, p) {
            None => None,
            Some(vs2) => Some((ps.push(p), vs2.push(c))),
        }
    }
}

/// A new package named `name`.
pub open spec fn new_package(name: Seq<char>) -> ContentView {
    ContentView {
        content_type: ContentTypeView::Package(name),
        size: 0,
        checksum: 0,
        offset: 0,
    }
}

/// The content of image `img`, not placed yet.
pub open spec fn image_content<I: Image>(img: I) -> ContentView {
    ContentView {
        content_type: ContentTypeView::Image(img.spec_name()),
        size: img.spec_size() as i32,
        checksum: img.spec_checksum(),
        offset: 0,
    }
}

/// The bytes that adding image `img` adds: its entry and its data.
pub open spec fn image_delta<I: Image>(img: I) -> int {
    1 + spec_str_size_hint(img.spec_name()) + spec_int_size(img.spec_size() as i32 as int, 4)
        + spec_int_size(img.spec_checksum() as int, 4) + 4 + img.spec_size()
}

/// Growing keeps the kind, checksum and offset of every content, leaves images as they are,
/// and keeps every package size within `0..=MAX_SIZE`; the first package can take the
/// growth.
proof fn lemma_grow(ps: Seq<int>, vs: Seq<ContentView>, k: int, delta: int, added: int)
    requires
        0 <= delta,
        parents_wf(ps),
        ps.len() == vs.len(),
        -1 <= k < vs.len(),
        k >= 0 ==> vs[k].content_type is Package,
        forall|j: int| 1 <= j < ps.len() ==> (#[trigger] vs[ps[j]]).content_type is Package,
        forall|j: int|
            0 <= j < vs.len() && (#[trigger] vs[j]).content_type is Package ==> 0 <= vs[j].size
                <= MAX_SIZE,
        spec_grow(ps, vs, k, delta, added) is Some,
    ensures
        ({
            let r = spec_grow(ps, vs, k, delta, added)->0;
            &&& r.len() == vs.len()
            &&& forall|j: int|
                0 <= j < vs.len() ==> (#[trigger] r[j]).content_type == vs[j].content_type
                    && r[j].checksum == vs[j].checksum && r[j].offset == vs[j].offset
            &&& forall|j: int|
                0 <= j < vs.len() && (#[trigger] vs[j]).content_type is Image ==> r[j] == vs[j]
            &&& forall|j: int|
                0 <= j < vs.len() && (#[trigger] vs[j]).content_type is Package ==> 0 <= r[j].size
                    <= MAX_SIZE
            &&& k >= 0 ==> vs[k].size + delta <= MAX_SIZE
        }),
    decreases k + 1,
{
    if k >= 0 {
        let c = vs[k];
        let len0 = children_of(ps, k).len() as int;
        let len1 = if k == added {
            len0 + 1
        } else {
            len0
        };
        let new_size = c.size + delta;
        let c2 = ContentView { size: new_size as i32, ..c };
        let d = meta_size(c2) + content_size(c2, len1) - meta_size(c) - content_size(c, len0);
        let next = if k > 0 && 0 <= ps[k] < k {
            ps[k]
        } else {
            -1
        };
        let vs2 = vs.update(k, c2);
        assert(d >= 0);
        assert forall|j: int| 1 <= j < ps.len() implies (#[trigger] vs2[ps[j]]).content_type is Package by {
            assert(vs[ps[j]].content_type is Package);
        }
        assert forall|j: int|
            0 <= j < vs2.len() && (#[trigger] vs2[j]).content_type is Package implies 0
            <= vs2[j].size <= MAX_SIZE by {
            if j != k {
                assert(vs[j].content_type is Package);
            }
        }
        if next >= 0 {
            assert(vs2[next] == vs[next]);
            assert(vs[ps[k]].content_type is Package);
        }
        lemma_grow(ps, vs2, next, d, added);
        let r = spec_grow(ps, vs, k, delta, added)->0;
        assert(r == spec_grow(ps, vs2, next, d, added)->0);
        assert forall|j: int| 0 <= j < vs.len() && (#[trigger] vs[j]).content_type is Image implies r[j] == vs[j] by {
            assert(vs2[j].content_type is Image);
        }
        assert forall|j: int|
            0 <= j < vs.len() && (#[trigger] vs[j]).content_type is Package implies 0 <= r[j].size
            <= MAX_SIZE by {
            assert(vs2[j].content_type is Package);
        }
    }
}

/// The bytes that the entries of contents `cs` take.
pub open spec fn sum_meta(vs: Seq<ContentView>, cs: Seq<int>) -> int
    decreases cs.len(),
{
    if cs.len() == 0 {
        0
    } else {
        sum_meta(vs, cs.drop_last()) + meta_size(vs[cs.last()])
    }
}

/// Placing the contents of node `k`, whose content starts at `start`: its entries (with
/// their number) come first, then the contents, one after the other, each being placed in
/// turn. `None` when a position would pass `u32::MAX`.
pub open spec fn spec_place(ps: Seq<int>, vs: Seq<ContentView>, k: int, start: int) -> Option<
    Seq<ContentView>,
>
    decreases ps.len() - k + 1, 0int,
{
    let cs = children_of(ps, k);
    if !(0 <= k < ps.len()) || cs.len() == 0 {
        Some(vs)
    } else {
        let meta = spec_int_size(cs.len() as i32 as int, 4) + sum_meta(vs, cs);
        if meta > u64::MAX || start + (meta as u32) > u32::MAX {
            None
        } else {
            spec_place_list(ps, vs, cs, k, start + (meta as u32))
        }
    }
}

/// Placing the contents `cs` (which come after node `lo`) one after the other from
/// `offset`.
pub open spec fn spec_place_list(ps: Seq<int>, vs: Seq<ContentView>, cs: Seq<int>, lo: int, offset: int) -> Option<
    Seq<ContentView>,
>
    decreases ps.len() - lo, cs.len(),
{
    if cs.len() == 0 || !(lo < cs[0] < ps.len()) {
        Some(vs)
    } else {
        let c = cs[0];
        let vs1 = vs.update(c, ContentView { offset: offset as u32, ..vs[c] });
        match spec_place(ps, vs1, c, offset) {
            None => None,
            Some(vs2) => {
                let next = offset + (content_size(vs2[c], children_of(ps, c).len() as i32 as int) as u32);
                if next > u32::MAX {
                    None
                } else {
                    spec_place_list(ps, vs2, cs.drop_first(), lo, next)
                }
            },
        }
    }
}

/// `b` holds contents of the same kinds and names as `a`.
pub open spec fn same_types(a: Seq<ContentView>, b: Seq<ContentView>) -> bool {
    &&& a.len() == b.len()
    &&& forall|j: int| 0 <= j < a.len() ==> (#[trigger] a[j]).content_type == b[j].content_type
}

/// `b` holds the contents of `a` with their offsets alone changed.
pub open spec fn placed_from(a: Seq<ContentView>, b: Seq<ContentView>) -> bool {
    &&& a.len() == b.len()
    &&& forall|j: int| 0 <= j < a.len() ==> (#[trigger] b[j]) == ContentView { offset: b[j].offset, ..a[j] }
}

/// Placing contents changes their offsets only.
pub proof fn lemma_place_types(ps: Seq<int>, vs: Seq<ContentView>, k: int, start: int)
    requires
        vs.len() == ps.len(),
        spec_place(ps, vs, k, start) is Some,
    ensures
        same_types(vs, spec_place(ps, vs, k, start)->0),
        placed_from(vs, spec_place(ps, vs, k, start)->0),
        forall|j: int| 0 <= j <= k ==> #[trigger] spec_place(ps, vs, k, start)->0[j] == vs[j],
    decreases ps.len() - k + 1, 0int,
{
    let cs = children_of(ps, k);
    if !(0 <= k < ps.len()) || cs.len() == 0 {
    } else {
        let meta = spec_int_size(cs.len() as i32 as int, 4) + sum_meta(vs, cs);
        if !(meta > u64::MAX || start + (meta as u32) > u32::MAX) {
            lemma_place_list_types(ps, vs, cs, k, start + (meta as u32));
        }
    }
}

/// Placing a list of contents changes their offsets only.
proof fn lemma_place_list_types(ps: Seq<int>, vs: Seq<ContentView>, cs: Seq<int>, lo: int, offset: int)
    requires
        vs.len() == ps.len(),
        0 <= lo,
        spec_place_list(ps, vs, cs, lo, offset) is Some,
    ensures
        same_types(vs, spec_place_list(ps, vs, cs, lo, offset)->0),
        placed_from(vs, spec_place_list(ps, vs, cs, lo, offset)->0),
        forall|j: int| 0 <= j <= lo ==> #[trigger] spec_place_list(ps, vs, cs, lo, offset)->0[j] == vs[j],
    decreases ps.len() - lo, cs.len(),
{
    if cs.len() == 0 || !(lo < cs[0] < ps.len()) {
    } else {
        let c = cs[0];
        let vs1 = vs.update(c, ContentView { offset: offset as u32, ..vs[c] });
        assert(vs1.len() == ps.len());
        lemma_place_types(ps, vs1, c, offset);
        let vs2 = spec_place(ps, vs1, c, offset)->0;
        let next = offset + (content_size(vs2[c], children_of(ps, c).len() as i32 as int) as u32);
        if next <= u32::MAX {
            lemma_place_list_types(ps, vs2, cs.drop_first(), lo, next);
            let vs3 = spec_place_list(ps, vs2, cs.drop_first(), lo, next)->0;
            assert forall|j: int| 0 <= j < vs.len() implies (#[trigger] vs[j]).content_type
                == vs3[j].content_type by {
                assert(vs1[j].content_type == vs2[j].content_type);
            }
            assert forall|j: int| 0 <= j < vs.len() implies (#[trigger] vs3[j]) == ContentView {
                offset: vs3[j].offset,
                ..vs[j]
            } by {
                assert(vs2[j] == ContentView { offset: vs2[j].offset, ..vs1[j] });
                assert(vs3[j] == ContentView { offset: vs3[j].offset, ..vs2[j] });
            }
            assert forall|j: int| 0 <= j <= lo implies #[trigger] vs3[j] == vs[j] by {
                assert(vs2[j] == vs1[j]);
            }
        }
    }
}

/// The sum of the entries of the first contents grows with each content.
proof fn lemma_sum_meta_prefix(vs: Seq<ContentView>, cs: Seq<int>, m: int)
    requires
        0 <= m <= cs.len(),
    ensures
        0 <= sum_meta(vs, cs.take(m)) <= sum_meta(vs, cs),
    decreases cs.len(),
{
    if cs.len() > 0 {
        if m == cs.len() {
            assert(cs.take(m) =~= cs);
            lemma_sum_meta_prefix(vs, cs.drop_last(), cs.len() - 1);
            assert(cs.drop_last().take(cs.len() - 1) =~= cs.drop_last());
        } else {
            lemma_sum_meta_prefix(vs, cs.drop_last(), m);
            assert(cs.drop_last().take(m) =~= cs.take(m));
        }
        lemma_meta_size_nonneg(vs[cs.last()]);
    }
}

/// An entry takes at least a byte.
proof fn lemma_meta_size_nonneg(c: ContentView)
    ensures
        meta_size(c) >= 0,
{
}

/// `c` placed at `offset`.
fn with_offset(c: &Content, offset: u32) -> (r: Content)
    ensures
        r@ == (ContentView { offset, ..c@ }),
{
    Content { offset: Offset(offset), ..c.duplicate() }
}

/// The bytes that the entry of `c` takes
fn entry_size(c: &Content) -> (r: u64)
    requires
        spec_str_size_hint(c@.content_type.name()) <= u64::MAX - 16,
    ensures
        r == meta_size(c@),
{
    match &c.content_type {
        // 1 for ContentType tag + 1 for checksum (checksum = 0)
        ContentType::Package(n) => 2 + n.size_hint() + c.size.size_hint() + 4,
        // 1 for ContentType tag
        ContentType::Image(n) => 1 + n.size_hint() + c.size.size_hint() + c.checksum.size_hint()
            + 4,
    }
}

/// The bytes that `c`, holding `len` contents, takes itself
fn own_size(c: &Content, len: usize) -> (r: i64)
    ensures
        r == content_size(c@, len as i32 as int),
{
    match &c.content_type {
        ContentType::Package(_) => Int32(len as i32).size_hint() as i64 + c.size.0 as i64,
        ContentType::Image(_) => c.size.0 as i64,
    }
}

/// The names of the contents `vs` have size hints that leave room for the rest of an entry.
pub open spec fn names_fit(vs: Seq<ContentView>) -> bool {
    forall|j: int| 0 <= j < vs.len() ==> spec_str_size_hint(#[trigger] vs[j].content_type.name()) <= u64::MAX - 16
}

/// The names of the contents `vs` have size hints of at most `MAX_SIZE`.
pub open spec fn names_small(vs: Seq<ContentView>) -> bool {
    forall|j: int| 0 <= j < vs.len() ==> spec_str_size_hint(#[trigger] vs[j].content_type.name()) <= MAX_SIZE
}

/// Names of at most `MAX_SIZE` can be encoded, and leave room for an entry.
proof fn lemma_names_small(vs: Seq<ContentView>)
    requires
        names_small(vs),
    ensures
        names_fit(vs),
        forall|j: int| 0 <= j < vs.len() ==> str_encodable(#[trigger] vs[j].content_type.name()),
{
    assert forall|j: int| 0 <= j < vs.len() implies str_encodable(#[trigger] vs[j].content_type.name()) by {
        let n = vs[j].content_type.name();
        assert(spec_str_size_hint(n) <= MAX_SIZE);
        if vstd::utf8::is_ascii_chars(n) {
            assert(vstd::utf8::encode_utf8(n).len() <= MAX_SIZE);
        }
    }
}

/// Places the contents of node `k` (whose id is `id`), whose content starts at `start`;
/// fails where a position would pass `u32::MAX`
fn calculate_offsets(map: &mut ContentTree, id: NodeId, Ghost(k): Ghost<int>, start: u32) -> (r: Result<(), Error>)
    requires
        old(map).wf(),
        0 <= k < old(map).parents().len(),
        id == old(map).node_ids()[k],
        names_fit(old(map).contents()),
    ensures
        final(map).wf(),
        final(map).parents() == old(map).parents(),
        final(map).node_ids() == old(map).node_ids(),
        match spec_place(old(map).parents(), old(map).contents(), k, start as int) {
            Some(vs) => r is Ok && final(map).contents() == vs,
            None => r matches Err(e) && e.spec_code() == ErrorCode::Offset,
        },
    decreases old(map).parents().len() - k,
{
    let ghost ps = map.parents();
    let ghost vs0 = map.contents();
    let ghost ids = map.node_ids();
    let ghost ch = children_of(ps, k);
    let cs = map.children_ids(id, Ghost(k));
    if cs.len() == 0 {
        return Ok(());
    }
    proof {
        lemma_children_upto_len(ps, k, ps.len());
    }
    // Calculate metadata size first
    let mut meta: u64 = Int32(cs.len() as i32).size_hint();
    let mut m: usize = 0;
    while m < cs.len()
        invariant
            map.wf(),
            map.parents() == ps,
            map.contents() == vs0,
            map.node_ids() == ids,
            names_fit(vs0),
            0 <= k < ps.len(),
            ch == children_of(ps, k),
            cs@ == ch.map_values(|j: int| ids[j]),
            forall|i: int| 0 <= i < ch.len() ==> k < #[trigger] ch[i] < ps.len(),
            m <= ch.len(),
            meta == spec_int_size(ch.len() as i32 as int, 4) + sum_meta(vs0, ch.take(m as int)),
        decreases ch.len() - m,
    {
        proof {
            lemma_sum_meta_prefix(vs0, ch, m + 1);
            assert(ch.take(m + 1).drop_last() =~= ch.take(m as int));
            lemma_meta_size_nonneg(vs0[ch[m as int]]);
        }
        assert(cs@.len() == ch.len());
        let ghost cm = ch[m as int];
        assert(k < cm < ps.len());
        let c = map.value_of(cs[m], Ghost(cm));
        meta = match meta.checked_add(entry_size(c)) {
            Some(v) => v,
            None => {
                proof {
                    lemma_sum_meta_prefix(vs0, ch, m + 1);
                    assert(spec_int_size(ch.len() as i32 as int, 4) + sum_meta(vs0, ch) > u64::MAX);
                }
                return Err(Error::offset("offset past 32 bits"));
            },
        };
        m = m + 1;
    }
    assert(ch.take(m as int) =~= ch);
    if start as u64 + (meta as u32) as u64 > u32::MAX as u64 {
        return Err(Error::offset("offset past 32 bits"));
    }
    // Write offsets
    let mut offset: u32 = start + (meta as u32);
    assert(ch.skip(0) =~= ch);
    let mut m: usize = 0;
    while m < cs.len()
        invariant
            map.wf(),
            map.parents() == ps,
            map.node_ids() == ids,
            names_fit(map.contents()),
            0 <= k < ps.len(),
            ch == children_of(ps, k),
            cs@ == ch.map_values(|j: int| ids[j]),
            forall|i: int| 0 <= i < ch.len() ==> k < #[trigger] ch[i] < ps.len(),
            m <= ch.len(),
            old(map).parents() == ps,
            old(map).contents() == vs0,
            old(map).node_ids() == ids,
            spec_place(ps, vs0, k, start as int) == spec_place_list(
                ps,
                map.contents(),
                ch.skip(m as int),
                k,
                offset as int,
            ),
        decreases ch.len() - m,
    {
        let ghost c = ch[m as int];
        assert(cs@.len() == ch.len());
        assert(k < c < ps.len());
        assert(ch.skip(m as int)[0] == c);
        assert(ch.skip(m as int).drop_first() =~= ch.skip(m + 1));
        let child = cs[m];
        let ghost before = map.contents();
        let moved = with_offset(map.value_of(child, Ghost(c)), offset);
        map.set_value(child, Ghost(c), moved);
        proof {
            assert forall|j: int| 0 <= j < map.contents().len() implies spec_str_size_hint(
                #[trigger] map.contents()[j].content_type.name(),
            ) <= u64::MAX - 16 by {
                assert(map.contents()[j].content_type == before[j].content_type);
            }
        }
        let ghost placed = map.contents();
        match calculate_offsets(map, child, Ghost(c), offset) {
            Ok(()) => {},
            Err(e) => {
                return Err(e);
            },
        }
        proof {
            lemma_place_types(ps, placed, c, offset as int);
            assert forall|j: int| 0 <= j < map.contents().len() implies spec_str_size_hint(
                #[trigger] map.contents()[j].content_type.name(),
            ) <= u64::MAX - 16 by {
                assert(map.contents()[j].content_type == placed[j].content_type);
            }
        }
        let len = map.children_ids(child, Ghost(c)).len();
        let size = own_size(map.value_of(child, Ghost(c)), len);
        if offset as i64 + (size as u32) as i64 > u32::MAX as i64 {
            return Err(Error::offset("offset past 32 bits"));
        }
        offset = offset + (size as u32);
        m = m + 1;
    }
    assert(ch.skip(m as int).len() == 0);
    Ok(())
}

/// The size of the root once it is finalized: what it takes itself and two bytes more (the
/// version hash in front of it).
pub open spec fn root_size(ps: Seq<int>, vs: Seq<ContentView>) -> int {
    spec_int_size(children_of(ps, 0).len() as i32 as int, 4) + vs[0].size + 2
}

/// Finalizing the map whose top-level package starts at `start`: the root is placed there
/// with its final size, then every content is placed.
pub open spec fn spec_finalize(ps: Seq<int>, vs: Seq<ContentView>, start: int) -> Option<Seq<ContentView>> {
    spec_place(
        ps,
        vs.update(0, ContentView { offset: start as u32, size: root_size(ps, vs) as i32, ..vs[0] }),
        0,
        start,
    )
}

/// The header of an archive built for `version` whose root is `size` bytes.
pub open spec fn built_header(version: u16, size: int) -> HeaderView {
    HeaderView {
        identifier: pkg1(),
        size: size as u64,
        content_start: 60,
        description: default_description(),
        version_hash: spec_version_hash(spec_version_checksum(version)),
    }
}

/// What `r` writes after the bytes `w`, or the error of `r`.
pub open spec fn after(w: Seq<u8>, r: Result<Seq<u8>, ErrorCode>) -> Result<Seq<u8>, ErrorCode> {
    match r {
        Ok(b) => Ok(w + b),
        Err(e) => Err(e),
    }
}

proof fn lemma_after_after(w: Seq<u8>, b: Seq<u8>, r: Result<Seq<u8>, ErrorCode>)
    ensures
        after(w, after(b, r)) == after(w + b, r),
{
    if let Ok(x) = r {
        assert(w + (b + x) =~= (w + b) + x);
    }
}

/// The entries of the contents `cs[i..]` of a package, the first written at `pos`.
pub open spec fn spec_entries(
    ctx: EncodeContext,
    vs: Seq<ContentView>,
    cs: Seq<int>,
    i: int,
    pos: int,
) -> Result<Seq<u8>, ErrorCode>
    decreases cs.len() - i,
{
    if 0 <= i < cs.len() {
        match spec_content_bytes(ctx, pos, vs[cs[i]]) {
            Some(b) => after(b, spec_entries(ctx, vs, cs, i + 1, pos + b.len())),
            None => Err(ErrorCode::Encode),
        }
    } else {
        Ok(Seq::empty())
    }
}

/// What node `k` writes of itself at `pos`: a package the number of its contents and their
/// entries, an image its bytes.
pub open spec fn spec_own_bytes<I: Image>(
    ps: Seq<int>,
    vs: Seq<ContentView>,
    imgs: Seq<Option<I>>,
    ctx: EncodeContext,
    k: int,
    pos: int,
) -> Result<Seq<u8>, ErrorCode> {
    match vs[k].content_type {
        ContentTypeView::Package(_) => {
            let h = spec_int32_bytes(children_of(ps, k).len() as i32);
            after(h, spec_entries(ctx, vs, children_of(ps, k), 0, pos + h.len()))
        },
        ContentTypeView::Image(_) => match imgs[k] {
            Some(img) => match spec_image_data(img) {
                Some(b) => Ok(b),
                None => Err(ErrorCode::Io),
            },
            None => Ok(Seq::empty()),
        },
    }
}

/// Writing node `k` and its descendants at `pos`: the position must fit in 32 bits and be
/// the offset of the node; then the node itself, then each of its contents in turn.
pub open spec fn spec_write<I: Image>(
    ps: Seq<int>,
    vs: Seq<ContentView>,
    imgs: Seq<Option<I>>,
    ctx: EncodeContext,
    k: int,
    pos: int,
) -> Result<Seq<u8>, ErrorCode>
    decreases ps.len() - k, children_of(ps, k).len() + 1,
{
    if pos > u32::MAX {
        Err(ErrorCode::Encode)
    } else if pos != vs[k].offset {
        Err(ErrorCode::Other)
    } else {
        match spec_own_bytes(ps, vs, imgs, ctx, k, pos) {
            Ok(b) => after(b, spec_write_from(ps, vs, imgs, ctx, k, 0, pos + b.len())),
            Err(e) => Err(e),
        }
    }
}

/// Writing the contents `i..` of node `k` (and their descendants), the first at `pos`.
pub open spec fn spec_write_from<I: Image>(
    ps: Seq<int>,
    vs: Seq<ContentView>,
    imgs: Seq<Option<I>>,
    ctx: EncodeContext,
    k: int,
    i: int,
    pos: int,
) -> Result<Seq<u8>, ErrorCode>
    decreases ps.len() - k, children_of(ps, k).len() - i,
{
    let cs = children_of(ps, k);
    if 0 <= i < cs.len() && k < cs[i] < ps.len() {
        match spec_write(ps, vs, imgs, ctx, cs[i], pos) {
            Ok(b) => after(b, spec_write_from(ps, vs, imgs, ctx, k, i + 1, pos + b.len())),
            Err(e) => Err(e),
        }
    } else {
        Ok(Seq::empty())
    }
}

/// The header of a writer whose header was `h`, once a map whose root is `size` bytes is
/// finalized.
pub open spec fn sized_header(h: HeaderView, size: int) -> HeaderView {
    HeaderView { size: size as u64, ..h }
}

/// Archive builder
pub struct Builder<I: Image> {
    map: ContentTree,
    images: Vec<Option<I>>,
}

impl<I: Image> Builder<I> {
    /// The parent of each node, by the order in which nodes were added
    pub closed spec fn parents(&self) -> Seq<int> {
        self.map.parents()
    }

    /// The content of each node, by the order in which nodes were added
    pub closed spec fn contents(&self) -> Seq<ContentView> {
        self.map.contents()
    }

    /// The image of each node that is an image
    pub closed spec fn images(&self) -> Seq<Option<I>> {
        self.images@
    }

    /// The nodes form a tree of packages and images, each image holding what its image
    /// says, each package a size of at most `MAX_SIZE` and a zero checksum.
    pub closed spec fn wf(&self) -> bool {
        let ps = self.map.parents();
        let vs = self.map.contents();
        &&& self.map.wf()
        &&& self.images@.len() == ps.len()
        &&& vs[0].content_type == ContentTypeView::Package(Seq::empty())
        &&& forall|k: int| 1 <= k < ps.len() ==> (#[trigger] vs[ps[k]]).content_type is Package
        &&& forall|k: int|
            0 <= k < ps.len() ==> ((#[trigger] self.images@[k]) is Some <==> vs[k].content_type is Image)
        &&& forall|k: int|
            0 <= k < ps.len() && (#[trigger] self.images@[k]) is Some ==> {
                let img = self.images@[k]->0;
                &&& vs[k].content_type == ContentTypeView::Image(img.spec_name())
                &&& vs[k].size == img.spec_size() as i32
                &&& vs[k].checksum == img.spec_checksum()
                &&& img.spec_size() <= MAX_SIZE
            }
        &&& forall|k: int|
            0 <= k < ps.len() && (#[trigger] vs[k]).content_type is Package ==> 0 <= vs[k].size
                <= MAX_SIZE && vs[k].checksum == 0
        &&& names_small(vs)
        &&& forall|k: int| 0 <= k < ps.len() ==> (#[trigger] children_of(ps, k)).len() <= MAX_LEN
    }

    /// Creates an archive builder
    pub fn new() -> (r: Self)
        ensures
            r.wf(),
            r.parents() == seq![-1int],
            r.contents() == seq![new_package(Seq::empty())],
    {
        let root = Content {
            content_type: ContentType::Package(String::new()),
            size: Int32(0),
            checksum: Int32(0),
            offset: Offset(0),
        };
        let map = ContentTree::with_root(root);
        let mut images: Vec<Option<I>> = Vec::new();
        images.push(None);
        let r = Builder { map, images };
        assert(r.contents() =~= seq![new_package(Seq::empty())]);
        assert(children_of(r.parents(), 0).len() == 0) by {
            reveal_with_fuel(crate::archive::children_upto, 2);
        }
        r
    }


    /// Places the root after the version hash with its final size, then every content;
    /// returns the size of the root, or fails where a position would pass `u32::MAX`
    fn finalize(&mut self, start: u32) -> (r: Result<u64, Error>)
        requires
            old(self).wf(),
        ensures
            final(self).map.wf(),
            final(self).parents() == old(self).parents(),
            final(self).images() == old(self).images(),
            match spec_finalize(old(self).parents(), old(self).contents(), start as int) {
                Some(vs) => r == Ok::<u64, Error>(root_size(old(self).parents(), old(self).contents()) as u64)
                    && final(self).contents() == vs
                    && same_types(old(self).contents(), final(self).contents()),
                None => r matches Err(e) && e.spec_code() == ErrorCode::Offset,
            },
    {
        proof {
            lemma_names_small(self.contents());
        }
        let root = self.map.id_at(0);
        let len = self.map.children_ids(root, Ghost(0)).len();
        let cur = self.map.value_of(root, Ghost(0));
        // The root size includes the version hash and package length for whatever reason.
        let size = (Int32(len as i32).size_hint() as i64 + cur.size.0 as i64 + 2) as u64;
        let moved = with_offset(cur, start);
        let placed = Content { size: Int32(size as i32), ..moved };
        self.map.set_value(root, Ghost(0), placed);
        let ghost placed_vs = self.contents();
        proof {
            assert forall|j: int| 0 <= j < placed_vs.len() implies spec_str_size_hint(
                #[trigger] placed_vs[j].content_type.name(),
            ) <= u64::MAX - 16 by {
                assert(placed_vs[j].content_type == old(self).contents()[j].content_type);
            }
        }
        // Calculate the offsets
        match calculate_offsets(&mut self.map, root, Ghost(0), start) {
            Ok(()) => {},
            Err(e) => {
                return Err(e);
            },
        }
        proof {
            lemma_place_types(self.parents(), placed_vs, 0, start as int);
            assert forall|j: int| 0 <= j < old(self).contents().len() implies (#[trigger] old(
                self,
            ).contents()[j]).content_type == self.contents()[j].content_type by {
                assert(placed_vs[j].content_type == self.contents()[j].content_type);
            }
        }
        Ok(size)
    }

    /// Consumes itself, calculates the offsets, and builds the `Archive`
    pub fn build(self, version: u16) -> (r: Result<Archive, Error>)
        requires
            self.wf(),
        ensures
            match spec_finalize(self.parents(), self.contents(), 62) {
                Some(vs) => r matches Ok(a) && a.wf() && a.parents() == self.parents()
                    && a.contents() == vs && a.header_view() == built_header(
                    version,
                    root_size(self.parents(), self.contents()),
                ),
                None => r matches Err(e) && e.spec_code() == ErrorCode::Offset,
            },
    {
        let mut header = Header::new(version);
        let mut this = self;
        // Set the offset to after the version hash
        let size = match this.finalize(header.content_start + 2) {
            Ok(s) => s,
            Err(e) => {
                return Err(e);
            },
        };
        header.size = size;
        Ok(Archive::from_parts(header, this.map))
    }

    /// Returns the root node: the top-level package
    pub fn root(&self) -> (r: usize)
        ensures
            r == 0,
    {
        0
    }

    /// The size of the content at node `k` (whose id is `id`), grown by `delta`, with the
    /// growth of what it takes; `None` when the size would pass `MAX_SIZE`.
    fn grow_one(&self, id: NodeId, Ghost(k): Ghost<int>, delta: u64, added: bool) -> (r: Option<(Content, u64)>)
        requires
            self.wf(),
            0 <= k < self.parents().len(),
            id == self.map.node_ids()[k],
            self.contents()[k].content_type is Package,
        ensures
            ({
                let c = self.contents()[k];
                let len0 = children_of(self.parents(), k).len() as int;
                let len1 = if added {
                    len0 + 1
                } else {
                    len0
                };
                let new_size = c.size + delta;
                if new_size > MAX_SIZE {
                    r is None
                } else {
                    let c2 = ContentView { size: new_size as i32, ..c };
                    r matches Some((x, d)) && x@ == c2 && d == meta_size(c2) + content_size(c2, len1)
                        - meta_size(c) - content_size(c, len0) && d <= MAX_SIZE + 16
                }
            }),
    {
        let cur = self.map.value_of(id, Ghost(k));
        let old_size = cur.size.0;
        assert(0 <= old_size <= MAX_SIZE);
        if delta > MAX_SIZE {
            return None;
        }
        let new_size = old_size as u64 + delta;
        if new_size > MAX_SIZE {
            return None;
        }
        let _n = self.map.len();
        let len0 = self.map.children_ids(id, Ghost(k)).len();
        proof {
            lemma_children_upto_len(self.parents(), k, self.parents().len());
            assert(self.parents()[k] != k) by {
                if k > 0 {
                    assert(0 <= self.parents()[k] < k);
                }
            }
        }
        let len1 = if added {
            len0 + 1
        } else {
            len0
        };
        let name = match &cur.content_type {
            ContentType::Package(n) => n.clone(),
            ContentType::Image(n) => n.clone(),
        };
        let c2 = Content {
            content_type: ContentType::Package(name),
            size: Int32(new_size as i32),
            checksum: cur.checksum,
            offset: cur.offset,
        };
        let s_old = cur.size.size_hint();
        let s_new = c2.size.size_hint();
        let l_old = if len0 > 127 { 5u64 } else { 1u64 };
        let l_new = if len1 > 127 { 5u64 } else { 1u64 };
        let d = delta + (s_new - s_old) + (l_new - l_old);
        Some((c2, d))
    }

    /// The error for node `k` (whose id is `id`) growing too large
    fn too_large(&self, id: NodeId, Ghost(k): Ghost<int>) -> (r: Error)
        requires
            self.wf(),
            0 <= k < self.parents().len(),
            id == self.map.node_ids()[k],
        ensures
            r.spec_code() == ErrorCode::Encode,
    {
        let c = self.map.value_of(id, Ghost(k));
        let mut msg = String::from_str(c.name());
        msg.append(" is too large");
        Error::encode(msg.as_str())
    }

    /// Adds content `c` under package `p`; the package grows by `delta`
    fn add_node(&mut self, p: usize, c: Content, image: Option<I>, delta: u64) -> (r: Result<
        usize,
        Error,
    >)
        requires
            old(self).wf(),
            p < old(self).parents().len(),
            old(self).contents()[p as int].content_type is Package,
            image is Some <==> c@.content_type is Image,
            image matches Some(img) ==> c@ == image_content(img) && delta == image_delta(img),
            image is None ==> c@.size == 0 && c@.checksum == 0 && delta == meta_size(c@)
                + content_size(c@, 0),
        ensures
            match spec_add(old(self).parents(), old(self).contents(), p as int, c@, delta as int) {
                Some((ps, vs)) => r == Ok::<usize, Error>(old(self).parents().len() as usize)
                    && final(self).wf() && final(self).parents() == ps && final(self).contents()
                    == vs && final(self).images() == old(self).images().push(image),
                None => (r matches Err(e) && e.spec_code() == ErrorCode::Encode) && *final(self)
                    == *old(self),
            },
    {
        let ghost ps = self.parents();
        let ghost vs = self.contents();
        let n = self.map.len();
        let pid = self.map.id_at(p);
        let count = self.map.children_ids(pid, Ghost(p as int)).len();
        proof {
            lemma_children_upto_len(ps, p as int, ps.len());
            assert(ps[p as int] != p) by {
                if p > 0 {
                    assert(0 <= ps[p as int] < p);
                }
            }
        }
        if count + 1 > MAX_LEN {
            return Err(self.too_large(pid, Ghost(p as int)));
        }
        let mut updates: Vec<(NodeId, Content)> = Vec::new();
        let ghost mut idxs: Seq<int> = Seq::empty();
        let ghost mut acc = vs;
        let mut id = pid;
        let ghost mut k: int = p as int;
        let mut d = delta;
        let mut first = true;
        loop
            invariant_except_break
                self.wf(),
                ps == self.parents(),
                vs == self.contents(),
                *self == *old(self),
                0 <= k < ps.len(),
                id == self.map.node_ids()[k],
                vs[k].content_type is Package,
                first ==> k == p && d == delta,
                !first ==> k < p,
                acc.len() == vs.len(),
                spec_grow(ps, vs, p as int, delta as int, p as int) == spec_grow(ps, acc, k, d as int, p as int),
                forall|j: int| 0 <= j <= k ==> acc[j] == vs[j],
                updates@.len() == idxs.len(),
                forall|i: int| 0 <= i < idxs.len() ==> k < #[trigger] idxs[i] < ps.len(),
                forall|i: int, i2: int| 0 <= i < i2 < idxs.len() ==> idxs[i2] < idxs[i],
                forall|i: int|
                    0 <= i < idxs.len() ==> updates@[i].0 == self.map.node_ids()[#[trigger] idxs[i]]
                        && updates@[i].1@ == acc[idxs[i]],
                forall|j: int|
                    0 <= j < acc.len() && (forall|i: int| 0 <= i < idxs.len() ==> idxs[i] != j)
                        ==> #[trigger] acc[j] == vs[j],
            ensures
                self.wf(),
                ps == self.parents(),
                vs == self.contents(),
                *self == *old(self),
                acc.len() == vs.len(),
                spec_grow(ps, vs, p as int, delta as int, p as int) == Some(acc),
                updates@.len() == idxs.len(),
                forall|i: int| 0 <= i < idxs.len() ==> 0 <= #[trigger] idxs[i] < ps.len(),
                forall|i: int, i2: int| 0 <= i < i2 < idxs.len() ==> idxs[i2] < idxs[i],
                forall|i: int|
                    0 <= i < idxs.len() ==> updates@[i].0 == self.map.node_ids()[#[trigger] idxs[i]]
                        && updates@[i].1@ == acc[idxs[i]],
                forall|j: int|
                    0 <= j < acc.len() && (forall|i: int| 0 <= i < idxs.len() ==> idxs[i] != j)
                        ==> #[trigger] acc[j] == vs[j],
            decreases k,
        {
            match self.grow_one(id, Ghost(k), d, first) {
                None => {
                    return Err(self.too_large(id, Ghost(k)));
                },
                Some((c2, d2)) => {
                    let ghost before = acc;
                    let ghost idxs0 = idxs;
                    updates.push((id, c2));
                    proof {
                        acc = acc.update(k, c2@);
                        idxs = idxs.push(k);
                        assert forall|j: int|
                            0 <= j < acc.len() && (forall|i: int|
                                0 <= i < idxs.len() ==> idxs[i] != j) implies #[trigger] acc[j]
                            == vs[j] by {
                            assert(idxs[idxs0.len() as int] == k);
                            assert forall|i: int| 0 <= i < idxs0.len() implies idxs0[i] != j by {
                                assert(idxs[i] == idxs0[i]);
                            }
                        }
                    }
                    match self.map.parent_of(id, Ghost(k)) {
                        None => {
                            proof {
                                reveal_with_fuel(spec_grow, 2);
                                assert(k == 0);
                            }
                            break;
                        },
                        Some(pp) => {
                            proof {
                                k = ps[k];
                            }
                            id = pp;
                            d = d2;
                            first = false;
                        },
                    }
                },
            }
        }
        let ghost ids0 = self.map.node_ids();
        let ghost cv = c@;
        self.map.add_child(p, c);
        self.images.push(image);
        let ghost vs1 = vs.push(cv);
        let ghost want = acc.push(cv);
        proof {
            assert forall|i: int| 0 <= i < ps.len() implies #[trigger] self.map.node_ids()[i]
                == ids0[i] by {
                assert(self.map.node_ids().drop_last()[i] == self.map.node_ids()[i]);
            }
            assert forall|j: int| 0 <= j < want.len() implies #[trigger] self.contents()[j]
                == if (exists|i: int| 0 <= i < updates@.len() && idxs[i] == j) {
                vs1[j]
            } else {
                want[j]
            } by {
                if !(exists|i: int| 0 <= i < updates@.len() && idxs[i] == j) && j < vs.len() {
                    assert(forall|i: int| 0 <= i < idxs.len() ==> idxs[i] != j);
                    assert(acc[j] == vs[j]);
                }
            }
        }
        while updates.len() > 0
            invariant
                self.map.wf(),
                want == acc.push(cv),
                vs1 == vs.push(cv),
                acc.len() == ps.len(),
                vs.len() == ps.len(),
                self.parents() == ps.push(p as int),
                self.images@ == old(self).images@.push(image),
                self.map.node_ids().len() == ps.len() + 1,
                forall|i: int| 0 <= i < ps.len() ==> #[trigger] self.map.node_ids()[i] == ids0[i],
                idxs.len() >= updates@.len(),
                forall|i: int| 0 <= i < idxs.len() ==> 0 <= #[trigger] idxs[i] < ps.len(),
                forall|i: int, i2: int| 0 <= i < i2 < idxs.len() ==> idxs[i2] < idxs[i],
                forall|i: int|
                    0 <= i < updates@.len() ==> updates@[i].0 == self.map.node_ids()[#[trigger] idxs[i]]
                        && updates@[i].1@ == acc[idxs[i]],
                self.contents().len() == want.len(),
                forall|j: int|
                    0 <= j < want.len() ==> #[trigger] self.contents()[j] == if (exists|i: int|
                        0 <= i < updates@.len() && idxs[i] == j) {
                        vs1[j]
                    } else {
                        want[j]
                    },
            decreases updates@.len(),
        {
            let ghost before = self.contents();
            let (uid, uc) = updates.pop().unwrap();
            let ghost m = updates@.len() as int;
            self.map.set_value(uid, Ghost(idxs[m]), uc);
            proof {
                assert forall|j: int| 0 <= j < want.len() implies #[trigger] self.contents()[j]
                    == if (exists|i: int| 0 <= i < updates@.len() && idxs[i] == j) {
                    vs1[j]
                } else {
                    want[j]
                } by {
                    if j == idxs[m] {
                        assert forall|i: int| 0 <= i < m implies idxs[i] != j by {
                            assert(idxs[m] < idxs[i]);
                        }
                        assert(want[j] == acc[j]);
                    } else {
                        assert(self.contents()[j] == before[j]);
                        if exists|i: int| 0 <= i < m + 1 && idxs[i] == j {
                            let i = choose|i: int| 0 <= i < m + 1 && idxs[i] == j;
                            assert(i < m);
                        }
                    }
                }
            }
        }
        assert(self.contents() =~= want);
        proof {
            lemma_grow(ps, vs, p as int, delta as int, p as int);
            let ps1 = self.parents();
            let vs2 = self.contents();
            assert(ps1 == ps.push(p as int));
            assert forall|k: int| 1 <= k < ps1.len() implies (#[trigger] vs2[ps1[k]]).content_type is Package by {
                if k < ps.len() {
                    assert(vs[ps[k]].content_type is Package);
                }
            }
            assert forall|k: int|
                0 <= k < ps1.len() implies ((#[trigger] self.images@[k]) is Some <==> vs2[k].content_type is Image) by {
                if k < ps.len() {
                    assert(old(self).images@[k] is Some <==> vs[k].content_type is Image);
                }
            }
            assert forall|k: int|
                0 <= k < ps1.len() && (#[trigger] self.images@[k]) is Some implies {
                    let img = self.images@[k]->0;
                    &&& vs2[k].content_type == ContentTypeView::Image(img.spec_name())
                    &&& vs2[k].size == img.spec_size() as i32
                    &&& vs2[k].checksum == img.spec_checksum()
                    &&& img.spec_size() <= MAX_SIZE
                } by {
                if k < ps.len() {
                    assert(old(self).images@[k] is Some);
                    assert(vs[k].content_type is Image);
                }
            }
            assert forall|k: int|
                0 <= k < ps1.len() && (#[trigger] vs2[k]).content_type is Package implies 0 <= vs2[k].size
                <= MAX_SIZE && vs2[k].checksum == 0 by {
                if k < ps.len() {
                    assert(vs[k].content_type is Package);
                }
            }
            assert forall|k: int| 0 <= k < ps1.len() implies (#[trigger] children_of(ps1, k)).len() <= MAX_LEN by {
                lemma_children_upto_push(ps, p as int, k, ps.len());
                if k == ps.len() {
                    assert forall|j: int| 0 <= j < ps1.len() implies #[trigger] ps1[j] != k by {
                        if j > 0 && j < ps.len() {
                            assert(0 <= ps[j] < j);
                        }
                    }
                    lemma_children_upto_none(ps1, k, ps1.len());
                } else {
                    assert(children_of(ps, k).len() <= MAX_LEN);
                }
            }
        }
        Ok(n)
    }

    /// Appends a package to the node `parent` (a package), and returns the new node
    pub fn add_package(&mut self, parent: usize, name: &str) -> (r: Result<usize, Error>)
        requires
            old(self).wf(),
            parent < old(self).parents().len(),
            old(self).contents()[parent as int].content_type is Package,
            spec_str_size_hint(name@) <= u64::MAX - 16,
        ensures
            match spec_add(
                old(self).parents(),
                old(self).contents(),
                parent as int,
                new_package(name@),
                meta_size(new_package(name@)) + content_size(new_package(name@), 0),
            ) {
                Some((ps, vs)) => r == Ok::<usize, Error>(old(self).parents().len() as usize)
                    && final(self).wf() && final(self).parents() == ps && final(self).contents()
                    == vs && final(self).images() == old(self).images().push(None),
                None => (r matches Err(e) && e.spec_code() == ErrorCode::Encode) && *final(self)
                    == *old(self),
            },
    {
        let c = Content {
            content_type: ContentType::Package(String::from_str(name)),
            size: Int32(0),
            checksum: Int32(0),
            offset: Offset(0),
        };
        // 1 for ContentType tag + 1 for checksum (checksum = 0)
        let meta = 2 + name.size_hint() + c.size.size_hint() + 4;
        let content = c.size.size_hint();
        self.add_node(parent, c, None, meta + content)
    }

    /// Appends an image to the node `parent` (a package)
    pub fn add_image(&mut self, parent: usize, image: I) -> (r: Result<(), Error>)
        requires
            old(self).wf(),
            parent < old(self).parents().len(),
            old(self).contents()[parent as int].content_type is Package,
            image_delta(image) <= u64::MAX,
        ensures
            match spec_add(
                old(self).parents(),
                old(self).contents(),
                parent as int,
                image_content(image),
                image_delta(image),
            ) {
                Some((ps, vs)) => r is Ok && final(self).wf() && final(self).parents() == ps
                    && final(self).contents() == vs && final(self).images() == old(
                    self,
                ).images().push(Some(image)),
                None => (r matches Err(e) && e.spec_code() == ErrorCode::Encode) && *final(self)
                    == *old(self),
            },
    {
        let name = image.name();
        let size = image.size();
        let checksum = image.checksum();
        let c = Content {
            content_type: ContentType::Image(String::from_str(name)),
            size: Int32(size as i32),
            checksum: Int32(checksum),
            offset: Offset(0),
        };
        // 1 for ContentType tag
        let meta = 1 + name.size_hint() + c.size.size_hint() + c.checksum.size_hint() + 4;
        match self.add_node(parent, c, Some(image), meta + size) {
            Ok(_) => Ok(()),
            Err(e) => Err(e),
        }
    }
}

impl<I: Image> Builder<I> {
    /// Writes the entries of the contents `children` (those of node `k`).
    fn write_entries(&self, writer: &mut Writer, children: &Vec<usize>, Ghost(k): Ghost<int>) -> (r: Result<(), Error>)
        requires
            self.map.wf(),
            0 <= k < self.parents().len(),
            children@.map_values(|c: usize| c as int) == children_of(self.parents(), k),
            forall|j: int|
                0 <= j < self.parents().len() ==> str_encodable(
                    (#[trigger] self.contents()[j]).content_type.name(),
                ),
        ensures
            final(writer).header_view() == old(writer).header_view(),
            final(writer).spec_context() == old(writer).spec_context(),
            match spec_entries(
                old(writer).spec_context(),
                self.contents(),
                children_of(self.parents(), k),
                0,
                old(writer).spec_written().len() as int,
            ) {
                Ok(b) => r is Ok && final(writer).spec_written() == old(writer).spec_written() + b,
                Err(e) => r matches Err(x) && x.spec_code() == e,
            },
    {
        let ghost ps = self.parents();
        let ghost vs = self.contents();
        let ghost ctx = writer.spec_context();
        let ghost w0 = writer.spec_written();
        let ghost cs = children_of(ps, k);
        let ghost total = spec_entries(ctx, vs, cs, 0, w0.len() as int);
        proof {
            lemma_children_upto_bounds(ps, k, ps.len());
            assert forall|i: int| 0 <= i < cs.len() implies cs[i] == #[trigger] children@[i] as int
                && 0 <= cs[i] < ps.len() by {
                assert(children@.map_values(|c: usize| c as int)[i] == children@[i] as int);
            }
        }
        let mut i: usize = 0;
        while i < children.len()
            invariant
                self.map.wf(),
                ps == self.parents(),
                vs == self.contents(),
                cs == children_of(ps, k),
                children@.len() == cs.len(),
                forall|i: int| 0 <= i < cs.len() ==> cs[i] == #[trigger] children@[i] as int && 0 <= cs[i] < ps.len(),
                forall|j: int|
                    0 <= j < ps.len() ==> str_encodable((#[trigger] vs[j]).content_type.name()),
                i <= children@.len(),
                writer.spec_context() == ctx,
                writer.header_view() == old(writer).header_view(),
                ctx == old(writer).spec_context(),
                w0 == old(writer).spec_written(),
                total == spec_entries(ctx, vs, cs, 0, w0.len() as int),
                after(w0, total) == after(
                    writer.spec_written(),
                    spec_entries(ctx, vs, cs, i as int, writer.spec_written().len() as int),
                ),
            decreases children@.len() - i,
        {
            let j = children[i];
            let e = self.map.value_of(self.map.id_at(j), Ghost(j as int));
            let ghost cur = writer.spec_written();
            match writer.encode_content(e) {
                Ok(()) => {},
                Err(x) => {
                    return Err(x);
                },
            }
            proof {
                let b = spec_content_bytes(ctx, cur.len() as int, vs[j as int])->0;
                lemma_after_after(cur, b, spec_entries(ctx, vs, cs, i + 1, (cur.len() + b.len()) as int));
            }
            i = i + 1;
        }
        proof {
            if total is Ok {
                assert(writer.spec_written() =~= w0 + total->Ok_0);
            }
        }
        Ok(())
    }

    /// Writes node `k` and its descendants: checks that the writer stands at the offset of
    /// the node, writes the node (a package its number of contents and their entries, an
    /// image its bytes), then each of its contents.
    fn write_node(&self, writer: &mut Writer, lists: &Vec<Vec<usize>>, k: usize) -> (r: Result<(), Error>)
        requires
            self.map.wf(),
            self.images@.len() == self.parents().len(),
            k < self.parents().len(),
            lists@.len() == self.parents().len(),
            forall|j: int|
                0 <= j < lists@.len() ==> (#[trigger] lists@[j])@.map_values(|c: usize| c as int)
                    == children_of(self.parents(), j),
            forall|j: int|
                0 <= j < self.parents().len() ==> str_encodable(
                    (#[trigger] self.contents()[j]).content_type.name(),
                ),
        ensures
            final(writer).header_view() == old(writer).header_view(),
            final(writer).spec_context() == old(writer).spec_context(),
            match spec_write(
                self.parents(),
                self.contents(),
                self.images(),
                old(writer).spec_context(),
                k as int,
                old(writer).spec_written().len() as int,
            ) {
                Ok(b) => r is Ok && final(writer).spec_written() == old(writer).spec_written() + b,
                Err(e) => r matches Err(x) && x.spec_code() == e,
            },
            old(writer).spec_written().len() != self.contents()[k as int].offset
                ==> final(writer).spec_written() == old(writer).spec_written(),
        decreases self.parents().len() - k, 1int,
    {
        let ghost ps = self.parents();
        let ghost vs = self.contents();
        let ghost imgs = self.images();
        let ghost ctx = writer.spec_context();
        let ghost w0 = writer.spec_written();
        let ghost pos = w0.len() as int;
        let ghost cs = children_of(ps, k as int);
        let id = self.map.id_at(k);
        let c = self.map.value_of(id, Ghost(k as int));
        // Sanity check
        let position = match writer.position() {
            Ok(p) => p,
            Err(e) => {
                return Err(Error::from_encode(e));
            },
        };
        if position != c.offset.0 {
            let name = c.content_type.name();
            let a = concat_str("writer position does not match offset (", name);
            let b = concat_str(a.as_str(), " at ");
            let d = concat_str(b.as_str(), uint_to_string(c.offset.0 as u64).as_str());
            let msg = concat_str(d.as_str(), ")");
            return Err(Error::other(msg.as_str()));
        }
        let children = &lists[k];
        // Encode node
        let ghost own = spec_own_bytes(ps, vs, imgs, ctx, k as int, pos);
        match &c.content_type {
            ContentType::Package(_) => {
                proof {
                    assert(children@.map_values(|c: usize| c as int).len() == cs.len());
                }
                let h = Int32(children.len() as i32);
                let _ = writer.encode_value(&h);
                let ghost hb = spec_int32_bytes(cs.len() as i32);
                let ghost w1 = writer.spec_written();
                match self.write_entries(writer, children, Ghost(k as int)) {
                    Ok(()) => {},
                    Err(x) => {
                        return Err(x);
                    },
                }
                proof {
                    let eb = spec_entries(ctx, vs, cs, 0, pos + hb.len())->Ok_0;
                    assert(writer.spec_written() =~= w0 + (hb + eb));
                }
            },
            ContentType::Image(_) => {
                match &self.images[k] {
                    Some(img) => {
                        match writer.write_image(img) {
                            Ok(()) => {},
                            Err(x) => {
                                return Err(x);
                            },
                        }
                    },
                    None => {},
                }
                assert(writer.spec_written() =~= w0 + own->Ok_0);
            },
        }
        let ghost w2 = writer.spec_written();
        // Encode children
        let r = self.write_children(writer, lists, k);
        proof {
            let b = own->Ok_0;
            let rest = spec_write_from(ps, vs, imgs, ctx, k as int, 0, pos + b.len());
            lemma_after_after(w0, b, rest);
            if rest is Ok {
                assert(writer.spec_written() =~= w0 + (b + rest->Ok_0));
            }
        }
        r
    }

    /// Writes the contents of node `k` in turn, each with its descendants.
    fn write_children(&self, writer: &mut Writer, lists: &Vec<Vec<usize>>, k: usize) -> (r: Result<(), Error>)
        requires
            self.map.wf(),
            self.images@.len() == self.parents().len(),
            k < self.parents().len(),
            lists@.len() == self.parents().len(),
            forall|j: int|
                0 <= j < lists@.len() ==> (#[trigger] lists@[j])@.map_values(|c: usize| c as int)
                    == children_of(self.parents(), j),
            forall|j: int|
                0 <= j < self.parents().len() ==> str_encodable(
                    (#[trigger] self.contents()[j]).content_type.name(),
                ),
        ensures
            final(writer).header_view() == old(writer).header_view(),
            final(writer).spec_context() == old(writer).spec_context(),
            match spec_write_from(
                self.parents(),
                self.contents(),
                self.images(),
                old(writer).spec_context(),
                k as int,
                0,
                old(writer).spec_written().len() as int,
            ) {
                Ok(b) => r is Ok && final(writer).spec_written() == old(writer).spec_written() + b,
                Err(e) => r matches Err(x) && x.spec_code() == e,
            },
        decreases self.parents().len() - k, 0int,
    {
        let ghost ps = self.parents();
        let ghost vs = self.contents();
        let ghost imgs = self.images();
        let ghost ctx = writer.spec_context();
        let ghost w0 = writer.spec_written();
        let ghost cs = children_of(ps, k as int);
        let ghost total = spec_write_from(ps, vs, imgs, ctx, k as int, 0, w0.len() as int);
        let children = &lists[k];
        proof {
            lemma_children_upto_bounds(ps, k as int, ps.len());
            assert forall|i: int| 0 <= i < cs.len() implies cs[i] == #[trigger] children@[i] as int
                && k < cs[i] < ps.len() by {
                assert(children@.map_values(|c: usize| c as int)[i] == children@[i] as int);
                assert(ps[cs[i]] == k);
                if cs[i] > 0 {
                    assert(0 <= ps[cs[i]] < cs[i]);
                }
            }
            assert(children@.map_values(|c: usize| c as int).len() == cs.len());
        }
        let mut i: usize = 0;
        while i < children.len()
            invariant
                self.map.wf(),
                self.images@.len() == self.parents().len(),
                ps == self.parents(),
                vs == self.contents(),
                imgs == self.images(),
                lists@.len() == ps.len(),
                forall|j: int|
                    0 <= j < lists@.len() ==> (#[trigger] lists@[j])@.map_values(|c: usize| c as int)
                        == children_of(ps, j),
                forall|j: int|
                    0 <= j < ps.len() ==> str_encodable((#[trigger] vs[j]).content_type.name()),
                0 <= k < ps.len(),
                cs == children_of(ps, k as int),
                children@.len() == cs.len(),
                forall|i: int| 0 <= i < cs.len() ==> cs[i] == #[trigger] children@[i] as int && k < cs[i] < ps.len(),
                i <= children@.len(),
                writer.spec_context() == ctx,
                writer.header_view() == old(writer).header_view(),
                ctx == old(writer).spec_context(),
                w0 == old(writer).spec_written(),
                total == spec_write_from(ps, vs, imgs, ctx, k as int, 0, w0.len() as int),
                after(w0, total) == after(
                    writer.spec_written(),
                    spec_write_from(ps, vs, imgs, ctx, k as int, i as int, writer.spec_written().len() as int),
                ),
            decreases children@.len() - i,
        {
            let ghost cur = writer.spec_written();
            let j = children[i];
            match self.write_node(writer, lists, j) {
                Ok(()) => {},
                Err(x) => {
                    return Err(x);
                },
            }
            proof {
                let b = spec_write(ps, vs, imgs, ctx, j as int, cur.len() as int)->Ok_0;
                lemma_after_after(cur, b, spec_write_from(ps, vs, imgs, ctx, k as int, i + 1, (cur.len() + b.len()) as int));
            }
            i = i + 1;
        }
        proof {
            if total is Ok {
                assert(writer.spec_written() =~= w0 + total->Ok_0);
            }
        }
        Ok(())
    }

    /// Consumes itself, calculates the offsets, and writes the WZ archive: the header, with
    /// the size of the root, then every node, depth first
    pub fn write(self, writer: &mut Writer) -> (r: Result<(), Error>)
        requires
            self.wf(),
            old(writer).header_view().content_start + 2 <= u32::MAX,
        ensures
            ({
                let h = sized_header(
                    old(writer).header_view(),
                    root_size(self.parents(), self.contents()),
                );
                match spec_finalize(self.parents(), self.contents(), h.content_start + 2) {
                    None => (r matches Err(e) && e.spec_code() == ErrorCode::Offset)
                        && final(writer).header_view() == old(writer).header_view()
                        && final(writer).spec_context() == old(writer).spec_context()
                        && final(writer).spec_written() == old(writer).spec_written(),
                    Some(vs) => {
                        &&& final(writer).header_view() == h
                        &&& final(writer).spec_context() == old(writer).spec_context()
                        &&& match spec_write(
                            self.parents(),
                            vs,
                            self.images(),
                            old(writer).spec_context(),
                            0,
                            (old(writer).spec_written().len() + spec_header_bytes(h).len()) as int,
                        ) {
                            Ok(b) => r is Ok && final(writer).spec_written()
                                == old(writer).spec_written() + spec_header_bytes(h) + b,
                            Err(e) => r matches Err(x) && x.spec_code() == e,
                        }
                    },
                }
            }),
    {
        let mut this = self;
        let size = match this.finalize(writer.header().content_start + 2) {
            Ok(s) => s,
            Err(e) => {
                return Err(e);
            },
        };
        writer.set_size(size);
        let _ = writer.write_header();
        let lists = this.map.child_lists();
        proof {
            lemma_names_small(self.contents());
            assert forall|j: int| 0 <= j < this.parents().len() implies str_encodable(
                (#[trigger] this.contents()[j]).content_type.name(),
            ) by {
                assert(this.contents()[j].content_type == self.contents()[j].content_type);
            }
        }
        let ghost w1 = writer.spec_written();
        let r = this.write_node(writer, &lists, 0);
        proof {
            if r is Ok {
                let b = writer.spec_written().skip(w1.len() as int);
                assert(writer.spec_written() =~= w1 + b);
            }
        }
        r
    }
}

/// What reading gives back of what the builder wrote: when `write` succeeds on a writer
/// whose header is `h` and which had written nothing, the writer's bytes, read with its
/// keys, hold at the offset of each package of the finalized tree the contents of that
/// package, in order. Names that are not ASCII are written in UTF-16, whose conversion must
/// give them back (the standard library's does).
pub proof fn lemma_builder_read_back<I: Image>(
    builder: Builder<I>,
    h: HeaderView,
    ctx: EncodeContext,
    j: int,
)
    requires
        builder.wf(),
        forall|k: int|
            0 <= k < builder.parents().len() ==> utf16_faithful(
                (#[trigger] builder.contents()[k]).content_type.name(),
            ),
        spec_finalize(builder.parents(), builder.contents(), h.content_start + 2) is Some,
        spec_write(
            builder.parents(),
            spec_finalize(builder.parents(), builder.contents(), h.content_start + 2)->0,
            builder.images(),
            ctx,
            0,
            spec_header_bytes(
                sized_header(h, root_size(builder.parents(), builder.contents())),
            ).len() as int,
        ) is Ok,
        0 <= j < builder.parents().len(),
        builder.contents()[j].content_type is Package,
    ensures
        ({
            let ps = builder.parents();
            let vs = spec_finalize(builder.parents(), builder.contents(), h.content_start + 2)->0;
            let hb = spec_header_bytes(
                sized_header(h, root_size(builder.parents(), builder.contents())),
            );
            let data = hb + spec_write(ps, vs, builder.images(), ctx, 0, hb.len() as int)->Ok_0;
            spec_package(read_stream(ctx, data), vs[j].offset as int) matches Ok((got, _))
                && got == children_of(ps, j).map_values(|c: int| vs[c])
        }),
{
    let ps = builder.parents();
    let vs0 = builder.contents();
    let start = h.content_start + 2;
    let root = ContentView { offset: start as u32, size: root_size(ps, vs0) as i32, ..vs0[0] };
    let vs1 = vs0.update(0, root);
    let vs = spec_finalize(ps, vs0, start)->0;
    lemma_place_types(ps, vs1, 0, start);
    lemma_names_small(vs0);
    assert forall|c: int| 1 <= c < ps.len() implies readable(#[trigger] vs[c]) by {
        assert(vs[c] == ContentView { offset: vs[c].offset, ..vs1[c] });
        assert(vs1[c] == vs0[c]);
        let n = vs0[c].content_type.name();
        assert(spec_str_size_hint(n) <= MAX_SIZE);
        if vs0[c].content_type is Image {
            assert(builder.images()[c] is Some);
        }
    }
    assert(vs[j].content_type is Package) by {
        assert(vs[j] == ContentView { offset: vs[j].offset, ..vs1[j] });
    }
    assert(children_of(ps, j).len() <= MAX_LEN);
    lemma_package_read_back(ps, vs, builder.images(), ctx, spec_header_bytes(
        sized_header(h, root_size(ps, vs0)),
    ), j);
}

/// Reading back what the builder wrote: when `write` succeeds on a writer whose header `h`
/// is its default (identifier "PKG1", the content start right after the description) and
/// which had written nothing, the bytes start with the header that `write` sized, and mapping
/// them with the writer's keys gives the finalized tree breadth first: the contents of each
/// package follow, in order, with that package as their parent. Names that are not ASCII
/// must have a faithful UTF-16 form.
pub proof fn lemma_archive_read_back<I: Image>(builder: Builder<I>, h: HeaderView, ctx: EncodeContext)
    requires
        builder.wf(),
        forall|k: int|
            0 <= k < builder.parents().len() ==> utf16_faithful(
                (#[trigger] builder.contents()[k]).content_type.name(),
            ),
        h.identifier == pkg1(),
        h.content_start == 17 + encode_utf8(h.description).len(),
        h.content_start <= i32::MAX,
        ctx.content_start == h.content_start,
        spec_finalize(builder.parents(), builder.contents(), h.content_start + 2) is Some,
        spec_write(
            builder.parents(),
            spec_finalize(builder.parents(), builder.contents(), h.content_start + 2)->0,
            builder.images(),
            ctx,
            0,
            spec_header_bytes(
                sized_header(h, root_size(builder.parents(), builder.contents())),
            ).len() as int,
        ) is Ok,
    ensures
        ({
            let ps = builder.parents();
            let vs = spec_finalize(builder.parents(), builder.contents(), h.content_start + 2)->0;
            let h2 = sized_header(h, root_size(builder.parents(), builder.contents()));
            let hb = spec_header_bytes(h2);
            let data = hb + spec_write(ps, vs, builder.images(), ctx, 0, hb.len() as int)->Ok_0;
            &&& spec_header(data) == Ok::<HeaderView, ErrorCode>(h2)
            &&& spec_map(archive_stream(data, ctx.key, h2, ctx.version_checksum), h2) == match tree_bfs(
                ps,
                vs,
                seq![0int],
                seq![-1int],
                0,
                data.len(),
            ) {
                Some((o, q)) => Ok::<(Seq<int>, Seq<ContentView>), ErrorCode>(
                    (q, o.map_values(|k: int| vs[k])),
                ),
                None => Err(ErrorCode::Offset),
            }
        }),
{
    let ps = builder.parents();
    let vs0 = builder.contents();
    let start = h.content_start + 2;
    let vs = spec_finalize(ps, vs0, start)->0;
    let h2 = sized_header(h, root_size(ps, vs0));
    let hb = spec_header_bytes(h2);
    let written = spec_write(ps, vs, builder.images(), ctx, 0, hb.len() as int)->Ok_0;
    let data = hb + written;
    lemma_header_roundtrip(h2, written);
    let root = ContentView { offset: start as u32, size: root_size(ps, vs0) as i32, ..vs0[0] };
    let vs1 = vs0.update(0, root);
    lemma_place_types(ps, vs1, 0, start);
    assert(vs[0] == root);
    let s = archive_stream(data, ctx.key, h2, ctx.version_checksum);
    assert(s == read_stream(ctx, data));
    assert(spec_root(h2) == vs[0]);
    assert forall|j: int|
        0 <= j < ps.len() && (#[trigger] vs[j]).content_type is Package implies (spec_package(
            s,
            vs[j].offset as int,
        ) matches Ok((got, _)) && got == children_of(ps, j).map_values(|c: int| vs[c])) by {
        assert(vs[j] == ContentView { offset: vs[j].offset, ..vs1[j] });
        lemma_builder_read_back(builder, h, ctx, j);
    }
    assert(seq![spec_root(h2)] =~= seq![0int].map_values(|k: int| vs[k]));
    lemma_map_follows_tree(s, ps, vs, seq![0int], seq![-1int], 0, data.len());
}

/// Reading back what the builder wrote gives every content: under the conditions of
/// `lemma_archive_read_back`, mapping the written bytes lists each content of the finalized
/// tree once, breadth first from the root, each after its package.
pub proof fn lemma_archive_read_back_all<I: Image>(builder: Builder<I>, h: HeaderView, ctx: EncodeContext)
    requires
        builder.wf(),
        forall|k: int|
            0 <= k < builder.parents().len() ==> utf16_faithful(
                (#[trigger] builder.contents()[k]).content_type.name(),
            ),
        h.identifier == pkg1(),
        h.content_start == 17 + encode_utf8(h.description).len(),
        h.content_start <= i32::MAX,
        ctx.content_start == h.content_start,
        spec_finalize(builder.parents(), builder.contents(), h.content_start + 2) is Some,
        spec_write(
            builder.parents(),
            spec_finalize(builder.parents(), builder.contents(), h.content_start + 2)->0,
            builder.images(),
            ctx,
            0,
            spec_header_bytes(
                sized_header(h, root_size(builder.parents(), builder.contents())),
            ).len() as int,
        ) is Ok,
    ensures
        ({
            let ps = builder.parents();
            let vs = spec_finalize(builder.parents(), builder.contents(), h.content_start + 2)->0;
            let h2 = sized_header(h, root_size(builder.parents(), builder.contents()));
            let hb = spec_header_bytes(h2);
            let data = hb + spec_write(ps, vs, builder.images(), ctx, 0, hb.len() as int)->Ok_0;
            spec_map(archive_stream(data, ctx.key, h2, ctx.version_checksum), h2) matches Ok(
                (q, got),
            ) && exists|o: Seq<int>|
                o.len() == ps.len() && o[0] == 0 && distinct_nodes(o, ps.len() as int)
                    && parent_places(ps, o, q) && got == o.map_values(|k: int| vs[k])
        }),
{
    let ps = builder.parents();
    let vs0 = builder.contents();
    let start = h.content_start + 2;
    let vs = spec_finalize(ps, vs0, start)->0;
    let h2 = sized_header(h, root_size(ps, vs0));
    let hb = spec_header_bytes(h2);
    let data = hb + spec_write(ps, vs, builder.images(), ctx, 0, hb.len() as int)->Ok_0;
    lemma_archive_read_back(builder, h, ctx);
    let root = ContentView { offset: start as u32, size: root_size(ps, vs0) as i32, ..vs0[0] };
    let vs1 = vs0.update(0, root);
    lemma_place_types(ps, vs1, 0, start);
    assert forall|j: int| 1 <= j < ps.len() implies (#[trigger] vs[ps[j]]).content_type is Package by {
        assert(vs0[ps[j]].content_type is Package);
        assert(vs[ps[j]] == ContentView { offset: vs[ps[j]].offset, ..vs1[ps[j]] });
    }
    lemma_write_len(ps, vs, builder.images(), ctx, 0, hb.len() as int);
    lemma_root_set(ps);
    lemma_tree_bfs_complete(ps, vs, data.len());
    let (o, q) = tree_bfs(ps, vs, seq![0int], seq![-1int], 0, data.len())->0;
    assert(o.len() == ps.len() && o[0] == 0 && distinct_nodes(o, ps.len() as int) && parent_places(ps, o, q));
}

} // verus!
