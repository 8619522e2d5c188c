//! What reading an archive gives back of what the builder wrote.

use crate::archive::builder::{after, spec_entries, spec_own_bytes, spec_write, spec_write_from, Image};
use crate::archive::package::content::{
    lemma_content_roundtrip, spec_content_bytes, spec_content_type_bytes, ContentTypeView,
    ContentView,
};
use crate::archive::error::ErrorCode;
use crate::archive::package::{spec_contents, spec_package};
use crate::archive::{
    children_of, in_subtree, lemma_children_upto_bounds, lemma_children_upto_has, lemma_subtree_child, lemma_subtree_root,
    parents_wf, spec_map_from,
};
use crate::decode::Stream;
use crate::encode::EncodeContext;
use crate::roundtrip::{holds_at, lemma_holds_at_part, lemma_int32_at};
use crate::types::spec_int32_bytes;
use vstd::prelude::*;
use crate::text::{utf16_decode, utf16_encode};
use vstd::utf8::{encode_utf8, is_ascii_chars};

verus! {

/// The bytes that the entry of content `c` takes: its type, size, checksum and offset.
pub open spec fn entry_len(key: Seq<u8>, c: ContentView) -> int {
    ((spec_content_type_bytes(key, c.content_type) + spec_int32_bytes(c.size) + spec_int32_bytes(
        c.checksum,
    )).len() + 4) as int
}

/// The bytes that the entries of the first `m` contents `cs` take.
#[verifier::opaque]
pub open spec fn prefix_len(key: Seq<u8>, vs: Seq<ContentView>, cs: Seq<int>, m: int) -> int
    decreases m,
{
    if m <= 0 {
        0
    } else {
        prefix_len(key, vs, cs, m - 1) + entry_len(key, vs[cs[m - 1]])
    }
}

/// The stream that reads `data` with the keys of `ctx`.
pub open spec fn read_stream(ctx: EncodeContext, data: Seq<u8>) -> Stream {
    Stream {
        data,
        key: ctx.key,
        content_start: ctx.content_start,
        version_checksum: ctx.version_checksum,
    }
}

/// The UTF-16 form of `n` gives `n` back and takes at least a unit per character, as the
/// standard library's conversion does; ASCII names are written without it.
pub open spec fn utf16_faithful(n: Seq<char>) -> bool {
    is_ascii_chars(n) || (utf16_decode(utf16_encode(n)) == Some(n) && n.len() <= utf16_encode(
        n,
    ).len())
}

/// The content reads back as it was written: a size that is not negative and a name whose
/// encoded length fits in an `i32` (UTF-8 bytes for ASCII, UTF-16 units otherwise) and whose
/// UTF-16 form is faithful.
pub open spec fn readable(c: ContentView) -> bool {
    &&& c.size >= 0
    &&& utf16_faithful(c.content_type.name())
    &&& is_ascii_chars(c.content_type.name()) ==> encode_utf8(c.content_type.name()).len()
        <= i32::MAX
    &&& !is_ascii_chars(c.content_type.name()) ==> utf16_encode(c.content_type.name()).len()
        <= i32::MAX
}

proof fn lemma_entry_len(ctx: EncodeContext, pos: int, c: ContentView)
    requires
        spec_content_bytes(ctx, pos, c) is Some,
    ensures
        spec_content_bytes(ctx, pos, c)->0.len() == entry_len(ctx.key, c),
{
}

proof fn lemma_prefix_step(key: Seq<u8>, vs: Seq<ContentView>, cs: Seq<int>, m: int)
    requires
        m >= 0,
    ensures
        prefix_len(key, vs, cs, m + 1) == prefix_len(key, vs, cs, m) + entry_len(key, vs[cs[m]]),
        prefix_len(key, vs, cs, 0) == 0,
{
    reveal(prefix_len);
}

proof fn lemma_prefix_len_nonneg(key: Seq<u8>, vs: Seq<ContentView>, cs: Seq<int>, m: int)
    ensures
        prefix_len(key, vs, cs, m) >= 0,
        forall|t: int| 0 <= t <= m ==> prefix_len(key, vs, cs, t) <= prefix_len(key, vs, cs, m),
    decreases m,
{
    reveal(prefix_len);
    if m > 0 {
        lemma_prefix_len_nonneg(key, vs, cs, m - 1);
    }
}

/// The entries written from the `i`-th on lie one after the other, each being the bytes of
/// its content at the position it lies at.
pub proof fn lemma_entries_layout(
    ctx: EncodeContext,
    vs: Seq<ContentView>,
    cs: Seq<int>,
    i: int,
    p: int,
)
    requires
        0 <= i <= cs.len(),
        spec_entries(ctx, vs, cs, i, p) is Ok,
    ensures
        ({
            let e = spec_entries(ctx, vs, cs, i, p)->Ok_0;
            let base = prefix_len(ctx.key, vs, cs, i);
            &&& e.len() == prefix_len(ctx.key, vs, cs, cs.len() as int) - base
            &&& forall|t: int|
                i <= t < cs.len() ==> spec_content_bytes(
                    ctx,
                    p + prefix_len(ctx.key, vs, cs, t) - base,
                    vs[cs[t]],
                ) == Some(
                    e.subrange(
                        prefix_len(ctx.key, vs, cs, t) - base,
                        prefix_len(ctx.key, vs, cs, t + 1) - base,
                    ),
                )
        }),
    decreases cs.len() - i,
{
    let e = spec_entries(ctx, vs, cs, i, p)->Ok_0;
    let base = prefix_len(ctx.key, vs, cs, i);
    if i < cs.len() {
        let b = spec_content_bytes(ctx, p, vs[cs[i]])->0;
        lemma_entry_len(ctx, p, vs[cs[i]]);
        let rest = spec_entries(ctx, vs, cs, i + 1, p + b.len());
        lemma_entries_layout(ctx, vs, cs, i + 1, p + b.len());
        let e2 = rest->Ok_0;
        assert(e == b + e2);
        lemma_prefix_step(ctx.key, vs, cs, i);
        assert(prefix_len(ctx.key, vs, cs, i + 1) == base + b.len());
        assert forall|t: int| i <= t < cs.len() implies spec_content_bytes(
            ctx,
            p + prefix_len(ctx.key, vs, cs, t) - base,
            vs[cs[t]],
        ) == Some(
            e.subrange(
                prefix_len(ctx.key, vs, cs, t) - base,
                prefix_len(ctx.key, vs, cs, t + 1) - base,
            ),
        ) by {
            if t == i {
                assert(e.subrange(0, b.len() as int) =~= b);
            } else {
                let lo = prefix_len(ctx.key, vs, cs, t) - prefix_len(ctx.key, vs, cs, i + 1);
                let hi = prefix_len(ctx.key, vs, cs, t + 1) - prefix_len(ctx.key, vs, cs, i + 1);
                lemma_prefix_len_nonneg(ctx.key, vs, cs, t);
                lemma_prefix_len_nonneg(ctx.key, vs, cs, t + 1);
                lemma_prefix_len_nonneg(ctx.key, vs, cs, cs.len() as int);
                assert(0 <= lo <= hi <= e2.len());
                assert(e.subrange(lo + b.len(), hi + b.len()) =~= e2.subrange(lo, hi));
            }
        }
    } else {
        assert(e.len() == 0);
    }
}

/// Entries written at `p0` and lying in the data there read back as the contents they were
/// written from.
pub proof fn lemma_entries_read_back(
    ctx: EncodeContext,
    s: Stream,
    vs: Seq<ContentView>,
    cs: Seq<int>,
    p0: int,
    m: int,
)
    requires
        s.key == ctx.key,
        s.content_start == ctx.content_start,
        s.version_checksum == ctx.version_checksum,
        spec_entries(ctx, vs, cs, 0, p0) is Ok,
        holds_at(s, p0, spec_entries(ctx, vs, cs, 0, p0)->Ok_0),
        forall|t: int| 0 <= t < cs.len() ==> readable(#[trigger] vs[cs[t]]),
        0 <= m <= cs.len(),
    ensures
        spec_contents(s, p0, m as nat) == Ok::<(Seq<ContentView>, int), crate::archive::error::ErrorCode>(
            (cs.take(m).map_values(|c: int| vs[c]), p0 + prefix_len(ctx.key, vs, cs, m)),
        ),
    decreases m,
{
    if m > 0 {
        lemma_entries_read_back(ctx, s, vs, cs, p0, m - 1);
        lemma_entries_layout(ctx, vs, cs, 0, p0);
        let e = spec_entries(ctx, vs, cs, 0, p0)->Ok_0;
        let lo = prefix_len(ctx.key, vs, cs, m - 1);
        let hi = prefix_len(ctx.key, vs, cs, m);
        lemma_prefix_len_nonneg(ctx.key, vs, cs, m - 1);
        lemma_prefix_len_nonneg(ctx.key, vs, cs, cs.len() as int);
        lemma_prefix_step(ctx.key, vs, cs, m - 1);
        let b = e.subrange(lo, hi);
        assert(spec_content_bytes(ctx, p0 + lo, vs[cs[m - 1]]) == Some(b));
        lemma_holds_at_part(s, p0, e, lo, hi - lo);
        assert(readable(vs[cs[m - 1]]));
        lemma_content_roundtrip(ctx, s, p0 + lo, vs[cs[m - 1]]);
        assert(cs.take(m).map_values(|c: int| vs[c]) =~= cs.take(m - 1).map_values(|c: int| vs[c]).push(
            vs[cs[m - 1]],
        ));
    } else {
        lemma_prefix_step(ctx.key, vs, cs, 0);
        assert(cs.take(0).map_values(|c: int| vs[c]) =~= Seq::<ContentView>::empty());
    }
}

/// `own` lies in `b` at `at`.
pub open spec fn lies_at(b: Seq<u8>, at: int, own: Seq<u8>) -> bool {
    0 <= at && at + own.len() <= b.len() && b.subrange(at, at + own.len()) == own
}

/// What writing node `k` at `pos` gave: each node under it wrote its own bytes at its
/// offset.
pub proof fn lemma_write_layout<I: Image>(
    ps: Seq<int>,
    vs: Seq<ContentView>,
    imgs: Seq<Option<I>>,
    ctx: EncodeContext,
    k: int,
    pos: int,
)
    requires
        parents_wf(ps),
        ps.len() == vs.len(),
        0 <= k < ps.len(),
        spec_write(ps, vs, imgs, ctx, k, pos) is Ok,
    ensures
        forall|j: int|
            #![trigger in_subtree(ps, k, j)]
            0 <= j < ps.len() && in_subtree(ps, k, j) ==> spec_own_bytes(
                ps,
                vs,
                imgs,
                ctx,
                j,
                vs[j].offset as int,
            ) is Ok && lies_at(
                spec_write(ps, vs, imgs, ctx, k, pos)->Ok_0,
                vs[j].offset - pos,
                spec_own_bytes(ps, vs, imgs, ctx, j, vs[j].offset as int)->Ok_0,
            ),
    decreases ps.len() - k, children_of(ps, k).len() + 1,
{
    let b = spec_write(ps, vs, imgs, ctx, k, pos)->Ok_0;
    let own = spec_own_bytes(ps, vs, imgs, ctx, k, pos)->Ok_0;
    let cs = children_of(ps, k);
    let rest = spec_write_from(ps, vs, imgs, ctx, k, 0, pos + own.len());
    assert(pos == vs[k].offset);
    assert(b == own + rest->Ok_0);
    lemma_write_from_layout(ps, vs, imgs, ctx, k, 0, pos + own.len());
    assert forall|j: int|
        #![trigger in_subtree(ps, k, j)]
        0 <= j < ps.len() && in_subtree(ps, k, j) implies spec_own_bytes(
            ps,
            vs,
            imgs,
            ctx,
            j,
            vs[j].offset as int,
        ) is Ok && lies_at(
            b,
            vs[j].offset - pos,
            spec_own_bytes(ps, vs, imgs, ctx, j, vs[j].offset as int)->Ok_0,
        ) by {
        if j == k {
            assert(b.subrange(0, own.len() as int) =~= own);
        } else {
            let c = lemma_subtree_child(ps, k, j);
            lemma_children_upto_has(ps, k, ps.len(), c);
            let t = choose|t: int| 0 <= t < cs.len() && cs[t] == c;
            assert(in_subtree(ps, cs[t], j));
            let r = rest->Ok_0;
            let oj = spec_own_bytes(ps, vs, imgs, ctx, j, vs[j].offset as int)->Ok_0;
            let at = vs[j].offset - (pos + own.len());
            assert(lies_at(r, at, oj));
            assert(b.subrange(at + own.len(), at + own.len() + oj.len()) =~= r.subrange(at, at + oj.len()));
        }
    }
}

/// What writing the contents `i..` of node `k` at `p` gave: each node under one of them
/// wrote its own bytes at its offset.
pub proof fn lemma_write_from_layout<I: Image>(
    ps: Seq<int>,
    vs: Seq<ContentView>,
    imgs: Seq<Option<I>>,
    ctx: EncodeContext,
    k: int,
    i: int,
    p: int,
)
    requires
        parents_wf(ps),
        ps.len() == vs.len(),
        0 <= k < ps.len(),
        0 <= i,
        spec_write_from(ps, vs, imgs, ctx, k, i, p) is Ok,
    ensures
        forall|t: int, j: int|
            #![trigger children_of(ps, k)[t], in_subtree(ps, children_of(ps, k)[t], j)]
            i <= t < children_of(ps, k).len() && 0 <= j < ps.len() && in_subtree(
                ps,
                children_of(ps, k)[t],
                j,
            ) ==> spec_own_bytes(ps, vs, imgs, ctx, j, vs[j].offset as int) is Ok && lies_at(
                spec_write_from(ps, vs, imgs, ctx, k, i, p)->Ok_0,
                vs[j].offset - p,
                spec_own_bytes(ps, vs, imgs, ctx, j, vs[j].offset as int)->Ok_0,
            ),
    decreases ps.len() - k, children_of(ps, k).len() - i,
{
    let cs = children_of(ps, k);
    lemma_children_upto_bounds(ps, k, ps.len());
    if i < cs.len() {
        assert(ps[cs[i]] == k);
        assert(k < cs[i]) by {
            if cs[i] > 0 {
                assert(0 <= ps[cs[i]] < cs[i]);
            }
        }
        let c = cs[i];
        let w = spec_write(ps, vs, imgs, ctx, c, p)->Ok_0;
        let rest = spec_write_from(ps, vs, imgs, ctx, k, i + 1, p + w.len());
        let b = spec_write_from(ps, vs, imgs, ctx, k, i, p)->Ok_0;
        assert(b == w + rest->Ok_0);
        lemma_write_layout(ps, vs, imgs, ctx, c, p);
        lemma_write_from_layout(ps, vs, imgs, ctx, k, i + 1, p + w.len());
        assert forall|t: int, j: int|
            #![trigger cs[t], in_subtree(ps, cs[t], j)]
            i <= t < cs.len() && 0 <= j < ps.len() && in_subtree(ps, cs[t], j) implies spec_own_bytes(
                ps,
                vs,
                imgs,
                ctx,
                j,
                vs[j].offset as int,
            ) is Ok && lies_at(
                b,
                vs[j].offset - p,
                spec_own_bytes(ps, vs, imgs, ctx, j, vs[j].offset as int)->Ok_0,
            ) by {
            let oj = spec_own_bytes(ps, vs, imgs, ctx, j, vs[j].offset as int)->Ok_0;
            if t == i {
                assert(in_subtree(ps, c, j));
                assert(lies_at(w, vs[j].offset - p, oj));
                assert(b.subrange(vs[j].offset - p, vs[j].offset - p + oj.len()) =~= w.subrange(
                    vs[j].offset - p,
                    vs[j].offset - p + oj.len(),
                ));
            } else {
                let r = rest->Ok_0;
                let at = vs[j].offset - (p + w.len());
                assert(lies_at(r, at, oj));
                assert(b.subrange(at + w.len(), at + w.len() + oj.len()) =~= r.subrange(at, at + oj.len()));
            }
        }
    }
}

/// Every package that writing the builder's tree at `hb.len()` (after the header bytes `hb`)
/// put in the data reads back, at its offset, as the contents it holds, in order: when no
/// content but the root has a negative size or a name that does not read back.
pub proof fn lemma_package_read_back<I: Image>(
    ps: Seq<int>,
    vs: Seq<ContentView>,
    imgs: Seq<Option<I>>,
    ctx: EncodeContext,
    hb: Seq<u8>,
    j: int,
)
    requires
        parents_wf(ps),
        ps.len() == vs.len(),
        spec_write(ps, vs, imgs, ctx, 0, hb.len() as int) is Ok,
        0 <= j < ps.len(),
        vs[j].content_type is Package,
        forall|c: int| 1 <= c < ps.len() ==> readable(#[trigger] vs[c]),
        children_of(ps, j).len() <= i32::MAX,
    ensures
        spec_package(
            read_stream(ctx, hb + spec_write(ps, vs, imgs, ctx, 0, hb.len() as int)->Ok_0),
            vs[j].offset as int,
        ) matches Ok((got, _)) && got == children_of(ps, j).map_values(|c: int| vs[c]),
{
    let b = spec_write(ps, vs, imgs, ctx, 0, hb.len() as int)->Ok_0;
    let data = hb + b;
    let s = read_stream(ctx, data);
    let off = vs[j].offset as int;
    let cs = children_of(ps, j);
    lemma_subtree_root(ps, j);
    lemma_write_layout(ps, vs, imgs, ctx, 0, hb.len() as int);
    assert(in_subtree(ps, 0, j));
    let own = spec_own_bytes(ps, vs, imgs, ctx, j, off)->Ok_0;
    assert(lies_at(b, off - hb.len(), own));
    assert(holds_at(s, off, own)) by {
        assert(data.subrange(off, off + own.len()) =~= b.subrange(
            off - hb.len(),
            off - hb.len() + own.len(),
        ));
    }
    let h = spec_int32_bytes(cs.len() as i32);
    let e = spec_entries(ctx, vs, cs, 0, off + h.len())->Ok_0;
    assert(own == h + e);
    lemma_holds_at_part(s, off, own, 0, h.len() as int);
    assert(own.subrange(0, h.len() as int) =~= h);
    lemma_int32_at(s, off, cs.len() as i32);
    lemma_holds_at_part(s, off, own, h.len() as int, e.len() as int);
    assert(own.subrange(h.len() as int, own.len() as int) =~= e);
    lemma_children_upto_bounds(ps, j, ps.len());
    assert forall|t: int| 0 <= t < cs.len() implies readable(#[trigger] vs[cs[t]]) by {
        assert(ps[cs[t]] == j);
        assert(cs[t] >= 1);
    }
    lemma_entries_read_back(ctx, s, vs, cs, off + h.len(), cs.len() as int);
    assert(cs.take(cs.len() as int) =~= cs);
}

/// The nodes of the tree `ps` in the order in which mapping an archive meets them, breadth
/// first from the queue `order` (whose entries from the `i`-th on are still to be visited):
/// each package in turn adds its contents to the queue, their parent being its place in the
/// queue. At most `fuel` packages are visited; `None` when a package is met without fuel.
pub open spec fn tree_bfs(
    ps: Seq<int>,
    vs: Seq<ContentView>,
    order: Seq<int>,
    parents: Seq<int>,
    i: nat,
    fuel: nat,
) -> Option<(Seq<int>, Seq<int>)>
    decreases fuel, order.len() - i,
{
    if i >= order.len() {
        Some((order, parents))
    } else if vs[order[i as int]].content_type is Image {
        tree_bfs(ps, vs, order, parents, i + 1, fuel)
    } else if fuel == 0 {
        None
    } else {
        let cs = children_of(ps, order[i as int]);
        tree_bfs(
            ps,
            vs,
            order + cs,
            parents + Seq::new(cs.len(), |t: int| i as int),
            i + 1,
            (fuel - 1) as nat,
        )
    }
}

/// Mapping a stream in which every package of the tree `ps` reads back, at its offset, as its
/// contents follows the tree breadth first.
pub proof fn lemma_map_follows_tree(
    s: Stream,
    ps: Seq<int>,
    vs: Seq<ContentView>,
    order: Seq<int>,
    parents: Seq<int>,
    i: nat,
    fuel: nat,
)
    requires
        ps.len() == vs.len(),
        forall|t: int| 0 <= t < order.len() ==> 0 <= #[trigger] order[t] < ps.len(),
        forall|j: int|
            0 <= j < ps.len() && (#[trigger] vs[j]).content_type is Package ==> (spec_package(
                s,
                vs[j].offset as int,
            ) matches Ok((got, _)) && got == children_of(ps, j).map_values(|c: int| vs[c])),
    ensures
        spec_map_from(s, parents, order.map_values(|k: int| vs[k]), i, fuel) == match tree_bfs(
            ps,
            vs,
            order,
            parents,
            i,
            fuel,
        ) {
            Some((o, q)) => Ok::<(Seq<int>, Seq<ContentView>), ErrorCode>(
                (q, o.map_values(|k: int| vs[k])),
            ),
            None => Err(ErrorCode::Offset),
        },
    decreases fuel, order.len() - i,
{
    let values = order.map_values(|k: int| vs[k]);
    if i >= order.len() {
    } else if vs[order[i as int]].content_type is Image {
        lemma_map_follows_tree(s, ps, vs, order, parents, i + 1, fuel);
    } else if fuel == 0 {
    } else {
        let k = order[i as int];
        let cs = children_of(ps, k);
        assert(values[i as int] == vs[k]);
        lemma_children_upto_bounds(ps, k, ps.len());
        let order2 = order + cs;
        assert forall|t: int| 0 <= t < order2.len() implies 0 <= #[trigger] order2[t] < ps.len() by {
            if t >= order.len() {
                assert(order2[t] == cs[t - order.len()]);
            }
        }
        assert(values + cs.map_values(|c: int| vs[c]) =~= order2.map_values(|k: int| vs[k]));
        lemma_map_follows_tree(
            s,
            ps,
            vs,
            order2,
            parents + Seq::new(cs.len(), |t: int| i as int),
            i + 1,
            (fuel - 1) as nat,
        );
    }
}

/// `o` lists distinct nodes of a tree of `n` nodes.
pub open spec fn distinct_nodes(o: Seq<int>, n: int) -> bool {
    &&& o.no_duplicates()
    &&& forall|t: int| 0 <= t < o.len() ==> 0 <= #[trigger] o[t] < n
}

/// `q` gives, for each node that `o` lists after the first, the place in `o` of its parent,
/// which comes before it.
pub open spec fn parent_places(ps: Seq<int>, o: Seq<int>, q: Seq<int>) -> bool {
    &&& q.len() == o.len()
    &&& q[0] == -1
    &&& forall|t: int| 1 <= t < o.len() ==> 0 <= #[trigger] q[t] < t && o[q[t]] == ps[o[t]]
}

/// Distinct nodes of a tree of `n` nodes are at most `n`.
proof fn lemma_distinct_nodes_len(o: Seq<int>, n: int)
    requires
        distinct_nodes(o, n),
        0 <= n,
    ensures
        o.len() <= n,
{
    o.unique_seq_to_set();
    vstd::set_lib::lemma_int_range(0, n);
    assert(o.to_set().subset_of(vstd::set_lib::set_int_range(0, n)));
    vstd::set_lib::lemma_len_subset(o.to_set(), vstd::set_lib::set_int_range(0, n));
}

/// Nodes whose parent, when they have one, is among the visited nodes are all listed.
proof fn lemma_listed_all(ps: Seq<int>, o: Seq<int>, c: int)
    requires
        parents_wf(ps),
        0 <= c < ps.len(),
        o.contains(0),
        forall|d: int| 1 <= d < ps.len() && o.contains(ps[d]) ==> o.contains(d),
    ensures
        o.contains(c),
    decreases c,
{
    if c > 0 {
        lemma_listed_all(ps, o, ps[c]);
    }
}

/// Breadth first from the root, with a fuel of at least the number of nodes, every node of
/// a tree whose parents are packages is visited once, after its parent.
pub proof fn lemma_tree_bfs_complete(ps: Seq<int>, vs: Seq<ContentView>, fuel: nat)
    requires
        parents_wf(ps),
        vs.len() == ps.len(),
        forall|j: int| 1 <= j < ps.len() ==> (#[trigger] vs[ps[j]]).content_type is Package,
        fuel >= ps.len(),
    ensures
        tree_bfs(ps, vs, seq![0int], seq![-1int], 0, fuel) matches Some((o, q)) && o.len()
            == ps.len() && o[0] == 0 && distinct_nodes(o, ps.len() as int) && parent_places(
            ps,
            o,
            q,
        ),
{
    let o = seq![0int];
    assert forall|c: int| 0 <= c < ps.len() implies (o.contains(c) <==> (c == 0 || exists|t: int|
        0 <= t < 0 && o[t] == ps[c])) by {
        if o.contains(c) {
            assert(o[0] == 0);
        }
        if c == 0 {
            assert(o[0] == c);
        }
    }
    lemma_tree_bfs_visits(ps, vs, o, seq![-1int], 0, fuel);
}

proof fn lemma_tree_bfs_visits(
    ps: Seq<int>,
    vs: Seq<ContentView>,
    o: Seq<int>,
    q: Seq<int>,
    i: nat,
    fuel: nat,
)
    requires
        parents_wf(ps),
        vs.len() == ps.len(),
        forall|j: int| 1 <= j < ps.len() ==> (#[trigger] vs[ps[j]]).content_type is Package,
        1 <= o.len(),
        o[0] == 0,
        i <= o.len(),
        distinct_nodes(o, ps.len() as int),
        parent_places(ps, o, q),
        forall|c: int|
            0 <= c < ps.len() ==> (o.contains(c) <==> (c == 0 || exists|t: int|
                0 <= t < i && #[trigger] o[t] == ps[c])),
        fuel + i >= ps.len(),
    ensures
        tree_bfs(ps, vs, o, q, i, fuel) matches Some((o2, q2)) && o2.len() == ps.len() && o2[0]
            == 0 && distinct_nodes(o2, ps.len() as int) && parent_places(ps, o2, q2),
    decreases fuel, o.len() - i,
{
    let n = ps.len() as int;
    lemma_distinct_nodes_len(o, n);
    if i >= o.len() {
        // Every node is listed
        assert forall|d: int| 1 <= d < n && o.contains(ps[d]) implies o.contains(d) by {
            let t = choose|t: int| 0 <= t < o.len() && o[t] == ps[d];
            assert(0 <= ps[d] < d);
        }
        assert forall|c: int| 0 <= c < n implies o.to_set().contains(c) by {
            lemma_listed_all(ps, o, c);
        }
        o.unique_seq_to_set();
        vstd::set_lib::lemma_int_range(0, n);
        assert(vstd::set_lib::set_int_range(0, n).subset_of(o.to_set()));
        vstd::set_lib::lemma_len_subset(vstd::set_lib::set_int_range(0, n), o.to_set());
    } else if vs[o[i as int]].content_type is Image {
        let k = o[i as int];
        assert forall|c: int|
            0 <= c < n implies (o.contains(c) <==> (c == 0 || exists|t: int|
                0 <= t < i + 1 && #[trigger] o[t] == ps[c])) by {
            if c >= 1 && o[i as int] == ps[c] {
                assert(vs[ps[c]].content_type is Package);
            }
            if exists|t: int| 0 <= t < i + 1 && #[trigger] o[t] == ps[c] {
                let t = choose|t: int| 0 <= t < i + 1 && #[trigger] o[t] == ps[c];
                if t == i {
                    if c == 0 {
                    } else {
                        assert(vs[ps[c]].content_type is Package);
                    }
                } else {
                    assert(exists|t: int| 0 <= t < i && #[trigger] o[t] == ps[c]);
                }
            }
        }
        lemma_tree_bfs_visits(ps, vs, o, q, i + 1, fuel);
    } else {
        let k = o[i as int];
        let cs = children_of(ps, k);
        lemma_children_upto_bounds(ps, k, ps.len());
        crate::archive::lemma_children_upto_sorted(ps, k, ps.len());
        let o2 = o + cs;
        let q2 = q + Seq::new(cs.len(), |t: int| i as int);
        // The contents of `k` are not listed yet
        assert forall|a: int| 0 <= a < cs.len() implies !o.contains(#[trigger] cs[a]) by {
            let c = cs[a];
            assert(ps[c] == k);
            if c == 0 {
                assert(ps[0] == -1);
            }
            if o.contains(c) {
                let t = choose|t: int| 0 <= t < i && #[trigger] o[t] == ps[c];
                assert(o[t] == o[i as int]);
            }
        }
        assert(distinct_nodes(o2, n)) by {
            assert forall|a: int, b: int| 0 <= a < o2.len() && 0 <= b < o2.len() && a != b implies o2[a]
                != o2[b] by {
                if a < o.len() && b >= o.len() {
                    assert(o.contains(o2[a]));
                    assert(o2[b] == cs[b - o.len()]);
                } else if a >= o.len() && b < o.len() {
                    assert(o.contains(o2[b]));
                    assert(o2[a] == cs[a - o.len()]);
                } else if a >= o.len() && b >= o.len() {
                    assert(o2[a] == cs[a - o.len()] && o2[b] == cs[b - o.len()]);
                }
            }
            assert forall|t: int| 0 <= t < o2.len() implies 0 <= #[trigger] o2[t] < n by {
                if t >= o.len() {
                    assert(o2[t] == cs[t - o.len()]);
                }
            }
        }
        assert(parent_places(ps, o2, q2)) by {
            assert forall|t: int| 1 <= t < o2.len() implies 0 <= #[trigger] q2[t] < t && o2[q2[t]]
                == ps[o2[t]] by {
                if t >= o.len() {
                    assert(q2[t] == i);
                    assert(o2[t] == cs[t - o.len()]);
                    assert(o2[i as int] == k);
                } else {
                    assert(q2[t] == q[t]);
                }
            }
        }
        assert forall|c: int|
            0 <= c < n implies (o2.contains(c) <==> (c == 0 || exists|t: int|
                0 <= t < i + 1 && #[trigger] o2[t] == ps[c])) by {
            if o2.contains(c) {
                let t = choose|t: int| 0 <= t < o2.len() && o2[t] == c;
                if t >= o.len() {
                    assert(o2[t] == cs[t - o.len()]);
                    assert(ps[c] == k);
                    assert(o2[i as int] == ps[c]);
                } else {
                    assert(o.contains(c));
                    if c != 0 {
                        let t2 = choose|t2: int| 0 <= t2 < i && #[trigger] o[t2] == ps[c];
                        assert(o2[t2] == ps[c]);
                    }
                }
            }
            if c == 0 {
                assert(o2[0] == 0);
            } else if exists|t: int| 0 <= t < i + 1 && #[trigger] o2[t] == ps[c] {
                let t = choose|t: int| 0 <= t < i + 1 && #[trigger] o2[t] == ps[c];
                if t == i {
                    assert(ps[c] == k);
                    assert(0 <= ps[c] < c);
                    lemma_children_upto_has(ps, k, ps.len(), c);
                    let a = choose|a: int| 0 <= a < cs.len() && cs[a] == c;
                    assert(o2[o.len() + a] == c);
                } else {
                    assert(o[t] == ps[c]);
                    assert(o.contains(c));
                    let t3 = choose|t3: int| 0 <= t3 < o.len() && o[t3] == c;
                    assert(o2[t3] == c);
                }
            }
        }
        assert(o2[0] == 0);
        lemma_tree_bfs_visits(ps, vs, o2, q2, i + 1, (fuel - 1) as nat);
    }
}

/// The nodes under node `k` (and `k` itself).
pub open spec fn sub_set(ps: Seq<int>, k: int) -> Set<int> {
    Set::new(|j: int| 0 <= j < ps.len() && in_subtree(ps, k, j))
}

/// The nodes under the contents `i..` of node `k`.
pub open spec fn subs_from(ps: Seq<int>, k: int, i: int) -> Set<int> {
    Set::new(
        |j: int|
            0 <= j < ps.len() && exists|t: int|
                i <= t < children_of(ps, k).len() && #[trigger] in_subtree(
                    ps,
                    children_of(ps, k)[t],
                    j,
                ),
    )
}

proof fn lemma_nodes_finite(ps: Seq<int>, s: Set<int>)
    requires
        forall|j: int| s.contains(j) ==> 0 <= j < ps.len(),
    ensures
        s.finite(),
        s.len() <= ps.len(),
{
    vstd::set_lib::lemma_int_range(0, ps.len() as int);
    assert(s.subset_of(vstd::set_lib::set_int_range(0, ps.len() as int)));
    vstd::set_lib::lemma_len_subset(s, vstd::set_lib::set_int_range(0, ps.len() as int));
}

proof fn lemma_prefix_len_count(key: Seq<u8>, vs: Seq<ContentView>, cs: Seq<int>, m: int)
    requires
        m >= 0,
    ensures
        prefix_len(key, vs, cs, m) >= m,
    decreases m,
{
    reveal(prefix_len);
    if m > 0 {
        lemma_prefix_len_count(key, vs, cs, m - 1);
    }
}

/// Writing node `k` writes at least a byte for each node under it but `k`.
pub proof fn lemma_write_len<I: Image>(
    ps: Seq<int>,
    vs: Seq<ContentView>,
    imgs: Seq<Option<I>>,
    ctx: EncodeContext,
    k: int,
    pos: int,
)
    requires
        parents_wf(ps),
        ps.len() == vs.len(),
        forall|j: int| 1 <= j < ps.len() ==> (#[trigger] vs[ps[j]]).content_type is Package,
        0 <= k < ps.len(),
        spec_write(ps, vs, imgs, ctx, k, pos) is Ok,
    ensures
        sub_set(ps, k).finite(),
        spec_write(ps, vs, imgs, ctx, k, pos)->Ok_0.len() + 1 >= sub_set(ps, k).len(),
    decreases ps.len() - k, children_of(ps, k).len() + 1,
{
    let b = spec_write(ps, vs, imgs, ctx, k, pos)->Ok_0;
    let own = spec_own_bytes(ps, vs, imgs, ctx, k, pos)->Ok_0;
    let cs = children_of(ps, k);
    let r = spec_write_from(ps, vs, imgs, ctx, k, 0, pos + own.len())->Ok_0;
    assert(b == own + r);
    lemma_write_from_len(ps, vs, imgs, ctx, k, 0, pos + own.len());
    lemma_children_upto_bounds(ps, k, ps.len());
    // What `k` writes of itself takes a byte for each of its contents
    if vs[k].content_type is Package {
        let h = spec_int32_bytes(cs.len() as i32);
        lemma_entries_layout(ctx, vs, cs, 0, pos + h.len());
        lemma_prefix_len_count(ctx.key, vs, cs, cs.len() as int);
        lemma_prefix_step(ctx.key, vs, cs, 0);
    } else if cs.len() > 0 {
        assert(ps[cs[0]] == k);
        assert(vs[ps[cs[0]]].content_type is Package);
    }
    assert(own.len() >= cs.len());
    // The nodes under `k` are `k` and those under its contents
    let sf = subs_from(ps, k, 0);
    assert(sub_set(ps, k) =~= sf.insert(k)) by {
        assert forall|j: int| sub_set(ps, k).contains(j) implies sf.insert(k).contains(j) by {
            if j != k {
                let c = lemma_subtree_child(ps, k, j);
                lemma_children_upto_has(ps, k, ps.len(), c);
                let t = choose|t: int| 0 <= t < cs.len() && cs[t] == c;
                assert(in_subtree(ps, cs[t], j));
            }
        }
        assert forall|j: int| sf.insert(k).contains(j) implies sub_set(ps, k).contains(j) by {
            if j != k {
                let t = choose|t: int| 0 <= t < cs.len() && #[trigger] in_subtree(ps, cs[t], j);
                assert(ps[cs[t]] == k);
                assert(in_subtree(ps, k, k));
                assert(in_subtree(ps, k, cs[t]));
                crate::archive::lemma_subtree_trans(ps, k, cs[t], j);
            }
        }
    }
    assert(!sf.contains(k)) by {
        if sf.contains(k) {
            let t = choose|t: int| 0 <= t < cs.len() && #[trigger] in_subtree(ps, cs[t], k);
            crate::archive::lemma_subtree_le(ps, cs[t], k);
        }
    }
    lemma_nodes_finite(ps, sub_set(ps, k));
}

/// Writing the contents `i..` of node `k` writes at least a byte for each node under them
/// but themselves.
pub proof fn lemma_write_from_len<I: Image>(
    ps: Seq<int>,
    vs: Seq<ContentView>,
    imgs: Seq<Option<I>>,
    ctx: EncodeContext,
    k: int,
    i: int,
    p: int,
)
    requires
        parents_wf(ps),
        ps.len() == vs.len(),
        forall|j: int| 1 <= j < ps.len() ==> (#[trigger] vs[ps[j]]).content_type is Package,
        0 <= k < ps.len(),
        0 <= i <= children_of(ps, k).len(),
        spec_write_from(ps, vs, imgs, ctx, k, i, p) is Ok,
    ensures
        subs_from(ps, k, i).finite(),
        spec_write_from(ps, vs, imgs, ctx, k, i, p)->Ok_0.len() + (children_of(ps, k).len() - i)
            >= subs_from(ps, k, i).len(),
    decreases ps.len() - k, children_of(ps, k).len() - i,
{
    let cs = children_of(ps, k);
    lemma_children_upto_bounds(ps, k, ps.len());
    crate::archive::lemma_children_upto_sorted(ps, k, ps.len());
    lemma_nodes_finite(ps, subs_from(ps, k, i));
    if i < cs.len() {
        assert(ps[cs[i]] == k);
        assert(k < cs[i]) by {
            if cs[i] > 0 {
                assert(0 <= ps[cs[i]] < cs[i]);
            }
        }
        let c = cs[i];
        let w = spec_write(ps, vs, imgs, ctx, c, p)->Ok_0;
        let r = spec_write_from(ps, vs, imgs, ctx, k, i + 1, p + w.len())->Ok_0;
        lemma_write_len(ps, vs, imgs, ctx, c, p);
        lemma_write_from_len(ps, vs, imgs, ctx, k, i + 1, p + w.len());
        let a = sub_set(ps, c);
        let rest = subs_from(ps, k, i + 1);
        assert(subs_from(ps, k, i) =~= a + rest) by {
            assert forall|j: int| subs_from(ps, k, i).contains(j) implies (a + rest).contains(j) by {
                let t = choose|t: int| i <= t < cs.len() && #[trigger] in_subtree(ps, cs[t], j);
                if t == i {
                } else {
                    assert(rest.contains(j));
                }
            }
        }
        assert(a.disjoint(rest)) by {
            assert forall|j: int| a.contains(j) implies !rest.contains(j) by {
                if rest.contains(j) {
                    let t = choose|t: int| i + 1 <= t < cs.len() && #[trigger] in_subtree(ps, cs[t], j);
                    assert(cs[i] < cs[t]);
                    assert(ps[cs[t]] == k);
                    crate::archive::lemma_sibling_disjoint(ps, k, c, cs[t], j);
                }
            }
        }
        vstd::set_lib::lemma_set_disjoint_lens(a, rest);
    } else {
        assert(subs_from(ps, k, i) =~= Set::<int>::empty());
    }
}

/// The nodes under the root are every node.
pub proof fn lemma_root_set(ps: Seq<int>)
    requires
        parents_wf(ps),
    ensures
        sub_set(ps, 0) =~= vstd::set_lib::set_int_range(0, ps.len() as int),
        sub_set(ps, 0).len() == ps.len(),
{
    assert forall|j: int| 0 <= j < ps.len() implies sub_set(ps, 0).contains(j) by {
        lemma_subtree_root(ps, j);
    }
    assert(sub_set(ps, 0) =~= vstd::set_lib::set_int_range(0, ps.len() as int));
    vstd::set_lib::lemma_int_range(0, ps.len() as int);
}

} // verus!
