//! WZ archive structures

pub mod builder;
pub mod content;
pub mod error;
pub mod header;
pub mod offset;
pub mod package;
pub mod readback;
pub mod subtree;
pub mod reader;
pub mod tree;
pub mod writer;

pub use error::{Error, ErrorCode};
pub use header::Header;
pub use offset::Offset;
pub use package::{Content, ContentType, Package};
pub use reader::Reader;
pub use writer::Writer;
pub use builder::Builder;

use crate::decode::{SliceDecoder, Stream};
use crate::text::{lemma_split_on_len, split_on, split_str};
use crate::types::Int32;
use ego_tree::{NodeId, Tree};
use subtree::{copy_order, lemma_copy_order_complete};
use header::HeaderView;
use package::content::{ContentTypeView, ContentView};
use package::spec_package;
use tree::{
    tree_append, tree_children, tree_new, tree_nodes, tree_parent, tree_root, tree_root_id,
    tree_set_value, tree_value, TreeNode,
};
use vstd::prelude::*;

verus! {

/// The nodes among the first `n` whose parent is `p`, in order.
pub open spec fn children_upto(parents: Seq<int>, p: int, n: nat) -> Seq<int>
    decreases n,
{
    if n == 0 {
        Seq::empty()
    } else {
        let rest = children_upto(parents, p, (n - 1) as nat);
        if parents[n - 1] == p {
            rest.push(n - 1)
        } else {
            rest
        }
    }
}

/// The children of node `p`, in the order they were added.
pub open spec fn children_of(parents: Seq<int>, p: int) -> Seq<int> {
    children_upto(parents, p, parents.len())
}

/// Node 0 is the root; every other node comes after its parent.
pub open spec fn parents_wf(parents: Seq<int>) -> bool {
    &&& parents.len() >= 1
    &&& parents[0] == -1
    &&& forall|k: int| 1 <= k < parents.len() ==> 0 <= #[trigger] parents[k] < k
}

/// The root of the map of an archive whose header is `header`: the top-level package, just
/// past the version hash.
pub open spec fn spec_root(header: HeaderView) -> ContentView {
    ContentView {
        content_type: ContentTypeView::Package(Seq::empty()),
        size: header.size as i32,
        checksum: 0,
        offset: (header.content_start + 2) as u32,
    }
}

/// Mapping an archive from node `i` onwards. Nodes are visited in the order they were added
/// (breadth first), and the contents of each package are added as its children; at most
/// `fuel` more packages are read.
pub open spec fn spec_map_from(
    s: Stream,
    parents: Seq<int>,
    values: Seq<ContentView>,
    i: nat,
    fuel: nat,
) -> Result<(Seq<int>, Seq<ContentView>), ErrorCode>
    decreases fuel, values.len() - i,
{
    if i >= values.len() {
        Ok((parents, values))
    } else if values[i as int].content_type is Image {
        spec_map_from(s, parents, values, i + 1, fuel)
    } else if fuel == 0 {
        Err(ErrorCode::Offset)
    } else {
        match spec_package(s, values[i as int].offset as int) {
            Err(e) => Err(e),
            Ok((cs, _)) => spec_map_from(
                s,
                parents + Seq::new(cs.len(), |j: int| i as int),
                values + cs,
                i + 1,
                (fuel - 1) as nat,
            ),
        }
    }
}

/// The map of the archive read by `s` whose header is `header`: the parent and the content
/// of each node. Each package is read once at most, so that no more packages are read than
/// the data has bytes: a package at the offset of one of its ancestors would otherwise be
/// read without end.
pub open spec fn spec_map(s: Stream, header: HeaderView) -> Result<
    (Seq<int>, Seq<ContentView>),
    ErrorCode,
> {
    spec_map_from(s, seq![-1int], seq![spec_root(header)], 0, s.data.len())
}

/// The parts of a path: its pieces between '/', without the empty piece in front of a
/// leading '/'.
pub open spec fn path_parts(path: Seq<char>) -> Seq<Seq<char>> {
    let parts = split_on(path, '/');
    if parts[0].len() == 0 {
        parts.drop_first()
    } else {
        parts
    }
}

/// The first of the nodes `cs` whose name is `name`.
pub open spec fn find_named(values: Seq<ContentView>, cs: Seq<int>, name: Seq<char>) -> Option<int>
    decreases cs.len(),
{
    if cs.len() == 0 {
        None
    } else if values[cs[0]].content_type.name() == name {
        Some(cs[0])
    } else {
        find_named(values, cs.drop_first(), name)
    }
}

/// The node reached from node `k` by going, for each part in turn, to the first child that
/// bears its name.
pub open spec fn resolve(
    parents: Seq<int>,
    values: Seq<ContentView>,
    k: int,
    parts: Seq<Seq<char>>,
) -> Option<int>
    decreases parts.len(),
{
    if parts.len() == 0 {
        Some(k)
    } else {
        match find_named(values, children_of(parents, k), parts[0]) {
            None => None,
            Some(c) => resolve(parents, values, c, parts.drop_first()),
        }
    }
}

/// The names of node `p` and of its ancestors, from the root down, joined by '/'.
pub open spec fn dir_path(parents: Seq<int>, values: Seq<ContentView>, p: int) -> Seq<char>
    decreases p,
{
    if p > 0 && 0 <= parents[p] < p {
        dir_path(parents, values, parents[p]) + seq!['/'] + values[p].content_type.name()
    } else {
        values[p].content_type.name()
    }
}

/// The package path of node `k`: empty for the root, else the names of its ancestors.
pub open spec fn node_path(parents: Seq<int>, values: Seq<ContentView>, k: int) -> Seq<char> {
    if k <= 0 {
        Seq::empty()
    } else {
        dir_path(parents, values, parents[k])
    }
}

/// Node `k` and its descendants, depth first: each node before its children, and the
/// children in order.
pub open spec fn preorder(parents: Seq<int>, k: int) -> Seq<int>
    decreases parents.len() - k + 1, 0int,
{
    if 0 <= k < parents.len() {
        seq![k] + preorder_list(parents, children_of(parents, k), k)
    } else {
        seq![k]
    }
}

/// The nodes `cs` (which all come after node `lo`) and their descendants, depth first.
pub open spec fn preorder_list(parents: Seq<int>, cs: Seq<int>, lo: int) -> Seq<int>
    decreases parents.len() - lo, cs.len(),
{
    if cs.len() > 0 && lo < cs[0] < parents.len() {
        preorder(parents, cs[0]) + preorder_list(parents, cs.drop_first(), lo)
    } else {
        Seq::empty()
    }
}

/// The package path and the content of each of the nodes `ks`.
pub open spec fn path_entries(parents: Seq<int>, values: Seq<ContentView>, ks: Seq<int>) -> Seq<
    (Seq<char>, ContentView),
> {
    ks.map_values(|k: int| (node_path(parents, values, k), values[k]))
}

/// Entries of a content listing, as plain values.
pub open spec fn entries_view(es: Seq<(String, &Content)>) -> Seq<(Seq<char>, ContentView)> {
    es.map_values(|e: (String, &Content)| (e.0@, e.1@))
}

/// The contents of an archive held in an `ego_tree::Tree`, with the id of each node in the
/// order in which nodes were added.
pub struct ContentTree {
    tree: Tree<Content>,
    ids: Vec<NodeId>,
    up: Vec<usize>,
    parents: Ghost<Seq<int>>,
}

/// The path handed to the function of `for_each` with node `k`: empty for the top-level
/// package and its contents; for any other node, the path of its package, a slash and the
/// package's name.
pub open spec fn visit_path(parents: Seq<int>, values: Seq<ContentView>, k: int) -> Seq<char>
    decreases k,
{
    if 0 < k < parents.len() && 0 < parents[k] < k {
        visit_path(parents, values, parents[k]) + seq!['/'] + values[parents[k]].content_type.name()
    } else {
        Seq::empty()
    }
}

/// Node `j` is node `k` or lies under it.
pub open spec fn in_subtree(parents: Seq<int>, k: int, j: int) -> bool
    decreases j,
{
    if j == k {
        true
    } else if 0 < j < parents.len() && 0 <= parents[j] < j {
        in_subtree(parents, k, parents[j])
    } else {
        false
    }
}

/// Node `j` lies under one of the nodes `cs` (or is one of them).
pub open spec fn in_any_subtree(parents: Seq<int>, cs: Seq<int>, j: int) -> bool
    decreases cs.len(),
{
    cs.len() > 0 && (in_subtree(parents, cs.last(), j) || in_any_subtree(parents, cs.drop_last(), j))
}

/// This a mapping of the WZ archive contents
pub struct Archive {
    /// WZ archive header
    pub header: Header,
    map: ContentTree,
}

/// Hands `value` with `path` to `func`, and returns what `func` leaves in it.
fn apply<F: Fn(&str, &mut Content)>(func: &F, path: &str, value: Content) -> (r: Content)
    requires
        forall|s: &str, c: &mut Content| call_requires(*func, (s, c)),
    ensures
        exists|s: &str, c: &mut Content|
            s@ == path@ && (*c)@ == value@ && (*final(c))@ == r@ && #[trigger] call_ensures(
                *func,
                (s, c),
                (),
            ),
{
    let mut v = value;
    let c = &mut v;
    func(path, c);
    v
}

impl ContentTree {
    /// The parent of each node, by the order in which nodes were added (-1 for the root).
    pub closed spec fn parents(&self) -> Seq<int> {
        self.parents@
    }

    /// The content of each node, by the order in which nodes were added.
    pub closed spec fn contents(&self) -> Seq<ContentView> {
        self.ids@.map_values(|id: NodeId| tree_nodes(self.tree)[id].value)
    }

    /// The tree holds one node for each entry of `parents`, in the shape they describe.
    pub closed spec fn wf(&self) -> bool {
        &&& parents_wf(self.parents@)
        &&& self.ids@.len() == self.parents@.len()
        &&& self.up@.len() == self.parents@.len()
        &&& forall|k: int| 1 <= k < self.up@.len() ==> #[trigger] self.up@[k] == self.parents@[k]
        &&& tree_root(self.tree) == self.ids@[0]
        &&& forall|k: int|
            0 <= k < self.ids@.len() ==> tree_nodes(self.tree).dom().contains(
                #[trigger] self.ids@[k],
            )
        &&& forall|j: int, k: int|
            0 <= j < self.ids@.len() && 0 <= k < self.ids@.len() && j != k ==> self.ids@[j]
                != self.ids@[k]
        &&& forall|k: int|
            0 <= k < self.ids@.len() ==> tree_nodes(self.tree)[#[trigger] self.ids@[k]].children
                == children_of(self.parents@, k).map_values(|j: int| self.ids@[j])
        &&& forall|k: int|
            0 <= k < self.ids@.len() ==> tree_nodes(self.tree)[#[trigger] self.ids@[k]].parent
                == if k == 0 {
                None
            } else {
                Some(self.ids@[self.parents@[k]])
            }
    }

    /// A map that holds the root alone.
    pub(crate) fn with_root(root: Content) -> (r: Self)
        ensures
            r.wf(),
            r.parents() == seq![-1int],
            r.contents() == seq![root@],
    {
        let tree = tree_new(root);
        let root_id = tree_root_id(&tree);
        let mut ids: Vec<NodeId> = Vec::new();
        ids.push(root_id);
        let parents: Ghost<Seq<int>> = Ghost(Seq::empty().push(-1int));
        let ghost t = tree_nodes(tree);
        let mut up: Vec<usize> = Vec::new();
        up.push(0);
        let r = ContentTree { tree, ids, up, parents };
        assert(r.ids@[0] == root_id);
        assert(t[root_id].children == Seq::<NodeId>::empty());
        assert(r.parents() =~= seq![-1int]);
        assert(children_of(r.parents(), 0) =~= Seq::<int>::empty()) by {
            reveal_with_fuel(children_upto, 2);
        }
        assert(r.contents() =~= seq![root@]);
        assert(children_of(r.parents@, 0).map_values(|j: int| r.ids@[j]) =~= Seq::<
            NodeId,
        >::empty());
        assert(tree_nodes(r.tree)[r.ids@[0]].children == children_of(r.parents@, 0).map_values(
            |j: int| r.ids@[j],
        ));
        r
    }

    /// The children of every node, by index.
    pub(crate) fn child_lists(&self) -> (r: Vec<Vec<usize>>)
        requires
            self.wf(),
        ensures
            r@.len() == self.parents().len(),
            forall|k: int|
                0 <= k < r@.len() ==> (#[trigger] r@[k])@.map_values(|j: usize| j as int) == children_of(
                    self.parents(),
                    k,
                ),
    {
        let n = self.up.len();
        let ghost ps = self.parents@;
        let mut r: Vec<Vec<usize>> = Vec::new();
        let mut i: usize = 0;
        while i < n
            invariant
                i <= n,
                n == ps.len(),
                r@.len() == i,
                forall|k: int| 0 <= k < i ==> (#[trigger] r@[k])@.len() == 0,
            decreases n - i,
        {
            r.push(Vec::new());
            i = i + 1;
        }
        proof {
            assert forall|k: int| 0 <= k < n implies (#[trigger] r@[k])@.map_values(|j: usize| j as int)
                == children_upto(ps, k, 1) by {
                reveal_with_fuel(children_upto, 2);
                assert(r@[k]@.map_values(|j: usize| j as int) =~= Seq::<int>::empty());
            }
        }
        let mut j: usize = 1;
        while j < n
            invariant
                1 <= j <= n,
                n == ps.len(),
                self.wf(),
                ps == self.parents@,
                r@.len() == n,
                forall|k: int|
                    0 <= k < n ==> (#[trigger] r@[k])@.map_values(|x: usize| x as int) == children_upto(
                        ps,
                        k,
                        j as nat,
                    ),
            decreases n - j,
        {
            let p = self.up[j];
            assert(0 <= p < j);
            let ghost before = r@;
            r[p].push(j);
            proof {
                assert forall|k: int| 0 <= k < n implies (#[trigger] r@[k])@.map_values(|x: usize| x as int)
                    == children_upto(ps, k, (j + 1) as nat) by {
                    if k == p {
                        assert(r@[k]@.map_values(|x: usize| x as int) =~= before[k]@.map_values(
                            |x: usize| x as int,
                        ).push(j as int));
                    } else {
                        assert(r@[k] == before[k]);
                    }
                }
            }
            j = j + 1;
        }
        r
    }

    /// The number of nodes.
    pub(crate) fn len(&self) -> (r: usize)
        requires
            self.wf(),
        ensures
            r == self.parents().len(),
    {
        self.ids.len()
    }

    /// The id of node `k`.
    pub(crate) fn id_at(&self, k: usize) -> (r: NodeId)
        requires
            self.wf(),
            k < self.parents().len(),
        ensures
            r == self.node_ids()[k as int],
    {
        self.ids[k]
    }

    /// The content of node `k` (whose id is `id`).
    pub(crate) fn value_of(&self, id: NodeId, Ghost(k): Ghost<int>) -> (r: &Content)
        requires
            self.wf(),
            0 <= k < self.parents().len(),
            id == self.node_ids()[k],
        ensures
            r@ == self.contents()[k],
    {
        tree_value(&self.tree, id)
    }

    /// The id of the parent of node `k` (whose id is `id`): none for the root.
    pub(crate) fn parent_of(&self, id: NodeId, Ghost(k): Ghost<int>) -> (r: Option<NodeId>)
        requires
            self.wf(),
            0 <= k < self.parents().len(),
            id == self.node_ids()[k],
        ensures
            k == 0 ==> r is None,
            k > 0 ==> r == Some(self.node_ids()[self.parents()[k]]),
    {
        tree_parent(&self.tree, id)
    }

    /// The ids of the children of node `k` (whose id is `id`), in order.
    pub(crate) fn children_ids(&self, id: NodeId, Ghost(k): Ghost<int>) -> (r: Vec<NodeId>)
        requires
            self.wf(),
            0 <= k < self.parents().len(),
            id == self.node_ids()[k],
        ensures
            r@ == children_of(self.parents(), k).map_values(|j: int| self.node_ids()[j]),
            forall|i: int|
                0 <= i < children_of(self.parents(), k).len() ==> k < #[trigger] children_of(
                    self.parents(),
                    k,
                )[i] < self.parents().len(),
    {
        proof {
            let ps = self.parents@;
            let ch = children_of(ps, k);
            lemma_children_upto_bounds(ps, k, ps.len());
            assert forall|i: int| 0 <= i < ch.len() implies k < #[trigger] ch[i] < ps.len() by {
                assert(ps[ch[i]] == k);
                if ch[i] > 0 {
                    assert(0 <= ps[ch[i]] < ch[i]);
                }
            }
        }
        tree_children(&self.tree, id)
    }

    /// Replaces the content of node `k` (whose id is `id`).
    pub(crate) fn set_value(&mut self, id: NodeId, Ghost(k): Ghost<int>, value: Content)
        requires
            old(self).wf(),
            0 <= k < old(self).parents().len(),
            id == old(self).node_ids()[k],
        ensures
            final(self).wf(),
            final(self).parents() == old(self).parents(),
            final(self).node_ids() == old(self).node_ids(),
            final(self).contents() == old(self).contents().update(k, value@),
    {
        let ghost t0 = tree_nodes(self.tree);
        let ghost ids = self.ids@;
        let ghost v = value@;
        tree_set_value(&mut self.tree, id, value);
        proof {
            let t1 = tree_nodes(self.tree);
            assert forall|j: int| 0 <= j < ids.len() implies t1.dom().contains(#[trigger] ids[j])
                && t1[ids[j]].children == t0[ids[j]].children && t1[ids[j]].parent
                == t0[ids[j]].parent by {
                assert(t0.dom().contains(ids[j]));
            }
            assert(self.contents() =~= old(self).contents().update(k, v)) by {
                assert forall|j: int| 0 <= j < ids.len() && j != k implies #[trigger] t1[ids[j]].value
                    == t0[ids[j]].value by {
                    assert(ids[j] != ids[k]);
                }
            }
        }
    }

    /// Adds `value` as the last child of node `p`.
    pub(crate) fn add_child(&mut self, p: usize, value: Content)
        requires
            old(self).wf(),
            p < old(self).parents().len(),
        ensures
            final(self).wf(),
            final(self).node_ids().len() == old(self).node_ids().len() + 1,
            final(self).node_ids().drop_last() == old(self).node_ids(),
            final(self).parents() == old(self).parents().push(p as int),
            final(self).contents() == old(self).contents().push(value@),
    {
        let ghost t0 = tree_nodes(self.tree);
        let ghost ids0 = self.ids@;
        let ghost ps0 = self.parents@;
        let ghost n = ids0.len();
        let pid = self.ids[p];
        let ghost v = value@;
        let id = tree_append(&mut self.tree, pid, value);
        self.ids.push(id);
        self.up.push(p);
        proof {
            self.parents@ = self.parents@.push(p as int);
            let ps1 = self.parents@;
            let ids1 = self.ids@;
            let t1 = tree_nodes(self.tree);
            assert(ids1 == ids0.push(id));
            assert(forall|k: int| 0 <= k < n ==> ids1[k] == ids0[k]);
            assert forall|k: int| 0 <= k < ids1.len() implies t1.dom().contains(
                #[trigger] ids1[k],
            ) by {
                if k < n {
                    assert(t0.dom().contains(ids0[k]));
                }
            }
            assert forall|j: int, k: int|
                0 <= j < ids1.len() && 0 <= k < ids1.len() && j != k implies ids1[j]
                != ids1[k] by {
                if j < n && k < n {
                } else if j < n {
                    assert(t0.dom().contains(ids0[j]));
                } else {
                    assert(t0.dom().contains(ids0[k]));
                }
            }
            assert forall|k: int| 0 <= k < ids1.len() implies t1[#[trigger] ids1[k]].children
                == children_of(ps1, k).map_values(|j: int| ids1[j]) by {
                lemma_children_upto_push(ps0, p as int, k, n as nat);
                lemma_children_upto_bounds(ps0, k, n as nat);
                if k == n {
                    assert forall|j: int| 0 <= j < ps1.len() implies #[trigger] ps1[j] != k by {
                        if j > 0 {
                            assert(0 <= ps1[j] < j);
                        }
                    }
                    lemma_children_upto_none(ps1, k, ps1.len() as nat);
                    assert(children_of(ps1, k).map_values(|j: int| ids1[j]) =~= Seq::<
                        NodeId,
                    >::empty());
                } else {
                    assert(ids1[k] == ids0[k]);
                    let old_children = children_upto(ps0, k, n as nat);
                    assert(old_children.map_values(|j: int| ids1[j]) =~= old_children.map_values(
                        |j: int| ids0[j],
                    ));
                    if k == p {
                        assert(children_of(ps1, k) == old_children.push(n as int));
                        assert(children_of(ps1, k).map_values(|j: int| ids1[j])
                            =~= old_children.map_values(|j: int| ids0[j]).push(id));
                    } else {
                        assert(ids0[k] != ids0[p as int]);
                        assert(children_of(ps1, k) == old_children);
                    }
                }
            }
            assert(self.contents() =~= old(self).contents().push(v)) by {
                assert forall|k: int| 0 <= k < n implies #[trigger] t1[ids0[k]].value
                    == t0[ids0[k]].value by {
                    assert(ids0[k] != id) by {
                        assert(t0.dom().contains(ids0[k]));
                    }
                }
            }
        }
    }

    /// The id of each node in the tree, by the order in which nodes were added.
    pub closed spec fn node_ids(&self) -> Seq<NodeId> {
        self.ids@
    }

    /// The first child of node `k` (whose id is `id`) that bears the name `name`.
    fn find_child(&self, id: NodeId, Ghost(k): Ghost<int>, name: &String) -> (r: Option<NodeId>)
        requires
            self.wf(),
            0 <= k < self.parents().len(),
            id == self.node_ids()[k],
        ensures
            match find_named(self.contents(), children_of(self.parents(), k), name@) {
                Some(c) => r == Some(self.node_ids()[c]),
                None => r is None,
            },
    {
        let ghost ch = children_of(self.parents@, k);
        let ghost ids = self.ids@;
        let ghost vs = self.contents();
        proof {
            lemma_children_upto_bounds(self.parents@, k, self.parents@.len());
        }
        let cs = tree_children(&self.tree, id);
        assert(ch.skip(0) =~= ch);
        let mut m: usize = 0;
        while m < cs.len()
            invariant
                self.wf(),
                ids == self.ids@,
                vs == self.contents(),
                ch == children_of(self.parents(), k),
                cs@ == ch.map_values(|j: int| ids[j]),
                forall|i: int| 0 <= i < ch.len() ==> 0 <= #[trigger] ch[i] < ids.len(),
                m <= cs@.len(),
                find_named(vs, ch, name@) == find_named(vs, ch.skip(m as int), name@),
            decreases cs@.len() - m,
        {
            let c = tree_value(&self.tree, cs[m]);
            assert(c@ == vs[ch[m as int]]);
            assert(ch.skip(m as int)[0] == ch[m as int]);
            assert(ch.skip(m as int).drop_first() =~= ch.skip(m + 1));
            let hit = match &c.content_type {
                ContentType::Package(n) => n.eq(name),
                ContentType::Image(n) => n.eq(name),
            };
            if hit {
                assert(ch.skip(m as int).len() > 0);
                assert(vs[ch.skip(m as int)[0]].content_type.name() == name@);
                assert(find_named(vs, ch.skip(m as int), name@) == Some(ch[m as int]));
                assert(cs@[m as int] == ids[ch[m as int]]);
                return Some(cs[m]);
            }
            m = m + 1;
        }
        None
    }

    /// Returns the id of the node at the specified path
    pub fn get_node(&self, path: &str) -> (r: Option<NodeId>)
        requires
            self.wf(),
        ensures
            match resolve(self.parents(), self.contents(), 0, path_parts(path@)) {
                Some(k) => r == Some(self.node_ids()[k]) && 0 <= k < self.parents().len(),
                None => r is None,
            },
    {
        let parts = split_str(path, '/');
        let ghost pv = parts@.map_values(|p: String| p@);
        proof {
            lemma_split_on_len(path@, '/');
        }
        assert(parts@[0]@ == pv[0]);
        let mut j: usize = if parts[0].as_str().is_empty() {
            1
        } else {
            0
        };
        assert(path_parts(path@) =~= pv.skip(j as int));
        let mut id = tree_root_id(&self.tree);
        let ghost mut k: int = 0;
        while j < parts.len()
            invariant
                self.wf(),
                pv == parts@.map_values(|p: String| p@),
                j <= parts@.len(),
                0 <= k < self.parents().len(),
                id == self.node_ids()[k],
                resolve(self.parents(), self.contents(), 0, path_parts(path@)) == resolve(
                    self.parents(),
                    self.contents(),
                    k,
                    pv.skip(j as int),
                ),
            decreases parts@.len() - j,
        {
            assert(pv.skip(j as int)[0] == parts@[j as int]@);
            assert(pv.skip(j as int).drop_first() =~= pv.skip(j + 1));
            match self.find_child(id, Ghost(k), &parts[j]) {
                None => return None,
                Some(c) => {
                    proof {
                        let found = find_named(
                            self.contents(),
                            children_of(self.parents(), k),
                            parts@[j as int]@,
                        );
                        lemma_find_named_in(self.contents(), children_of(self.parents(), k), parts@[j as int]@);
                        lemma_children_upto_bounds(self.parents(), k, self.parents().len());
                        k = found->0;
                    }
                    id = c;
                },
            }
            j = j + 1;
        }
        assert(pv.skip(j as int).len() == 0);
        Some(id)
    }

    /// Returns a reference to the content at the specified path
    pub fn get(&self, path: &str) -> (r: Option<&Content>)
        requires
            self.wf(),
        ensures
            match resolve(self.parents(), self.contents(), 0, path_parts(path@)) {
                Some(k) => r matches Some(c) && c@ == self.contents()[k],
                None => r is None,
            },
    {
        match self.get_node(path) {
            Some(id) => Some(tree_value(&self.tree, id)),
            None => None,
        }
    }

    /// Copies node `k` (whose id is `id`) and every node under it into a new map, breadth
    /// first: node `k` becomes the root.
    fn copy_subtree(&self, id: NodeId, Ghost(k): Ghost<int>) -> (r: ContentTree)
        requires
            self.wf(),
            0 <= k < self.parents().len(),
            id == self.node_ids()[k],
        ensures
            r.wf(),
            copy_order(self.parents(), seq![k], seq![-1int], 0, self.parents().len()) matches Some(
                (o, q),
            ) && r.parents() == q && r.contents() == o.map_values(|j: int| self.contents()[j]),
    {
        let ghost ps = self.parents();
        let ghost vs = self.contents();
        let ghost ids = self.node_ids();
        let ghost n = ps.len();
        proof {
            lemma_copy_order_complete(ps, k, n);
        }
        let mut out = ContentTree::with_root(self.value_of(id, Ghost(k)).duplicate());
        let mut queue: Vec<NodeId> = Vec::new();
        queue.push(id);
        let ghost mut order: Seq<int> = Seq::empty().push(k);
        let ghost mut q: Seq<int> = Seq::empty().push(-1int);
        let ghost mut fuel: nat = n;
        assert(out.contents() =~= order.map_values(|j: int| vs[j]));
        let mut i: usize = 0;
        while i < queue.len()
            invariant
                self.wf(),
                out.wf(),
                ps == self.parents(),
                vs == self.contents(),
                ids == self.node_ids(),
                n == ps.len(),
                queue@.len() == order.len(),
                forall|t: int| 0 <= t < order.len() ==> 0 <= #[trigger] order[t] < n,
                forall|t: int| 0 <= t < order.len() ==> queue@[t] == ids[#[trigger] order[t]],
                out.parents() == q,
                q.len() == order.len(),
                out.contents() == order.map_values(|j: int| vs[j]),
                i <= order.len(),
                copy_order(ps, seq![k], seq![-1int], 0, n) == copy_order(ps, order, q, i as nat, fuel),
                copy_order(ps, order, q, i as nat, fuel) is Some,
            decreases fuel,
        {
            let cur = queue[i];
            let ghost kk = order[i as int];
            let ghost ch = children_of(ps, kk);
            assert(0 <= kk < n);
            assert(fuel > 0);
            let cs = self.children_ids(cur, Ghost(kk));
            let ghost order0 = order;
            let ghost q0 = q;
            let mut j: usize = 0;
            while j < cs.len()
                invariant
                    self.wf(),
                    out.wf(),
                    ps == self.parents(),
                    vs == self.contents(),
                    ids == self.node_ids(),
                    n == ps.len(),
                    ch == children_of(ps, kk),
                    0 <= kk < n,
                    cs@ == ch.map_values(|c: int| ids[c]),
                    forall|a: int| 0 <= a < ch.len() ==> kk < #[trigger] ch[a] < n,
                    i < order0.len(),
                    j <= cs@.len(),
                    queue@.len() == order0.len() + j,
                    forall|t: int| 0 <= t < order0.len() ==> 0 <= #[trigger] order0[t] < n,
                    forall|t: int| 0 <= t < order0.len() + j ==> queue@[t] == ids[#[trigger] (order0 + ch)[t]],
                    out.parents() == q0 + Seq::new(j as nat, |t: int| i as int),
                    out.contents() == (order0 + ch.take(j as int)).map_values(|c: int| vs[c]),
                    q0.len() == order0.len(),
                decreases cs@.len() - j,
            {
                let c = cs[j];
                let ghost cj = ch[j as int];
                assert(cs@[j as int] == ids[cj]);
                let v = self.value_of(c, Ghost(cj)).duplicate();
                out.add_child(i, v);
                queue.push(c);
                proof {
                    assert(q0 + Seq::new((j + 1) as nat, |t: int| i as int) =~= (q0 + Seq::new(
                        j as nat,
                        |t: int| i as int,
                    )).push(i as int));
                    assert((order0 + ch.take(j + 1)).map_values(|c: int| vs[c]) =~= (order0
                        + ch.take(j as int)).map_values(|c: int| vs[c]).push(vs[cj]));
                    assert forall|t: int| 0 <= t < order0.len() + j + 1 implies queue@[t]
                        == ids[#[trigger] (order0 + ch)[t]] by {
                        if t == order0.len() + j {
                            assert((order0 + ch)[t] == cj);
                        }
                    }
                }
                j = j + 1;
            }
            proof {
                assert(ch.take(ch.len() as int) =~= ch);
                assert(q0.len() == order0.len()) ;
                order = order0 + ch;
                q = q0 + Seq::new(ch.len(), |t: int| i as int);
                fuel = (fuel - 1) as nat;
                assert forall|t: int| 0 <= t < order.len() implies 0 <= #[trigger] order[t] < n by {
                    if t >= order0.len() {
                        assert(order[t] == ch[t - order0.len()]);
                    }
                }
            }
            i = i + 1;
        }
        out
    }

    /// Lists node `k` (whose id is `id` and whose package path is `path`) and its
    /// descendants, depth first.
    fn collect<'a>(
        &'a self,
        id: NodeId,
        Ghost(k): Ghost<int>,
        is_root: bool,
        path: String,
        out: &mut Vec<(String, &'a Content)>,
    )
        requires
            self.wf(),
            0 <= k < self.parents().len(),
            id == self.node_ids()[k],
            is_root == (k == 0),
            path@ == node_path(self.parents(), self.contents(), k),
        ensures
            entries_view(final(out)@) == entries_view(old(out)@) + path_entries(
                self.parents(),
                self.contents(),
                preorder(self.parents(), k),
            ),
        decreases self.parents().len() - k,
    {
        let ghost ps = self.parents();
        let ghost vs = self.contents();
        let ghost ids = self.ids@;
        let ghost ch = children_of(ps, k);
        let ghost out0 = entries_view(out@);
        proof {
            lemma_children_upto_bounds(ps, k, ps.len());
            assert forall|i: int| 0 <= i < ch.len() implies k < #[trigger] ch[i] < ps.len() by {
                assert(ps[ch[i]] == k);
                if ch[i] > 0 {
                    assert(0 <= ps[ch[i]] < ch[i]);
                }
            }
        }
        let c = tree_value(&self.tree, id);
        let mut dir = path.clone();
        if is_root {
            dir = String::new();
        } else {
            dir.append("/");
        }
        proof {
            reveal_strlit("/");
        }
        match &c.content_type {
            ContentType::Package(n) => dir.append(n.as_str()),
            ContentType::Image(n) => dir.append(n.as_str()),
        }
        assert(dir@ == dir_path(ps, vs, k));
        out.push((path, c));
        assert(entries_view(out@) =~= out0 + seq![(node_path(ps, vs, k), vs[k])]);
        let cs = tree_children(&self.tree, id);
        assert(ch.take(0) =~= Seq::<int>::empty());
        let mut m: usize = 0;
        while m < cs.len()
            invariant
                self.wf(),
                ps == self.parents(),
                vs == self.contents(),
                ids == self.ids@,
                0 <= k < ps.len(),
                ch == children_of(ps, k),
                forall|i: int| 0 <= i < ch.len() ==> k < #[trigger] ch[i] < ps.len(),
                cs@ == ch.map_values(|j: int| ids[j]),
                m <= cs@.len(),
                dir@ == dir_path(ps, vs, k),
                entries_view(out@) == out0 + seq![(node_path(ps, vs, k), vs[k])] + path_entries(
                    ps,
                    vs,
                    preorder_list(ps, ch.take(m as int), k),
                ),
            decreases cs@.len() - m,
        {
            let ghost j = ch[m as int];
            assert(ps[j] == k) by {
                lemma_children_upto_bounds(ps, k, ps.len());
            }
            assert(node_path(ps, vs, j) == dir_path(ps, vs, k));
            let ghost before = entries_view(out@);
            self.collect(cs[m], Ghost(j), false, dir.clone(), out);
            proof {
                lemma_preorder_list_push(ps, ch.take(m as int), j, k);
                assert(ch.take(m + 1) =~= ch.take(m as int).push(j));
                let a = preorder_list(ps, ch.take(m as int), k);
                let b = preorder(ps, j);
                assert(path_entries(ps, vs, a + b) =~= path_entries(ps, vs, a) + path_entries(
                    ps,
                    vs,
                    b,
                ));
            }
            m = m + 1;
        }
        proof {
            assert(ch.take(m as int) =~= ch);
            assert(preorder(ps, k) == seq![k] + preorder_list(ps, ch, k));
            assert(path_entries(ps, vs, preorder(ps, k)) =~= seq![(node_path(ps, vs, k), vs[k])]
                + path_entries(ps, vs, preorder_list(ps, ch, k)));
        }
    }

    /// Lists the archive content, depth first: each node with its package path
    pub fn iter(&self) -> (r: Vec<(String, &Content)>)
        requires
            self.wf(),
        ensures
            entries_view(r@) == path_entries(
                self.parents(),
                self.contents(),
                preorder(self.parents(), 0),
            ),
            r@.len() == self.parents().len(),
            preorder(self.parents(), 0).no_duplicates(),
            forall|j: int|
                0 <= j < self.parents().len() ==> #[trigger] preorder(self.parents(), 0).contains(j),
    {
        proof {
            lemma_preorder_lists_every_node(self.parents());
        }
        let mut out: Vec<(String, &Content)> = Vec::new();
        let root = tree_root_id(&self.tree);
        self.collect(root, Ghost(0), true, String::new(), &mut out);
        assert(entries_view(Seq::<(String, &Content)>::empty()) =~= Seq::empty());
        out
    }

}


impl Archive {
    /// The header, as plain values.
    pub closed spec fn header_view(&self) -> HeaderView {
        self.header@
    }

    /// The parent of each node, by the order in which nodes were added (-1 for the root).
    pub closed spec fn parents(&self) -> Seq<int> {
        self.map.parents()
    }

    /// The content of each node, by the order in which nodes were added.
    pub closed spec fn contents(&self) -> Seq<ContentView> {
        self.map.contents()
    }

    /// The id of each node in the tree, by the order in which nodes were added.
    pub closed spec fn node_ids(&self) -> Seq<NodeId> {
        self.map.node_ids()
    }

    /// The tree holds one node for each entry of `parents`, in the shape they describe.
    pub closed spec fn wf(&self) -> bool {
        self.map.wf()
    }

    /// An archive of `header` whose contents are those of `map`.
    pub(crate) fn from_parts(header: Header, map: ContentTree) -> (r: Self)
        requires
            map.wf(),
        ensures
            r.wf(),
            r.header_view() == header@,
            r.parents() == map.parents(),
            r.contents() == map.contents(),
    {
        Archive { header, map }
    }

    /// Returns the id of the node at the specified path
    pub fn get_node(&self, path: &str) -> (r: Option<NodeId>)
        requires
            self.wf(),
        ensures
            match resolve(self.parents(), self.contents(), 0, path_parts(path@)) {
                Some(k) => r == Some(self.node_ids()[k]) && 0 <= k < self.parents().len(),
                None => r is None,
            },
    {
        self.map.get_node(path)
    }

    /// Hands node `k` (with `path`) and then each node under it, depth first, to `func`,
    /// which may change it; the path of a node is made of the names its packages hold once
    /// `func` has seen them.
    fn visit<F: Fn(&str, &mut Content)>(
        &mut self,
        k: usize,
        path: &str,
        func: &F,
        lists: &Vec<Vec<usize>>,
    )
        requires
            old(self).wf(),
            k < old(self).parents().len(),
            lists@.len() == old(self).parents().len(),
            forall|j: int|
                0 <= j < lists@.len() ==> (#[trigger] lists@[j])@.map_values(|c: usize| c as int)
                    == children_of(old(self).parents(), j),
            path@ == visit_path(old(self).parents(), old(self).contents(), k as int),
            forall|s: &str, c: &mut Content| call_requires(*func, (s, c)),
        ensures
            final(self).wf(),
            final(self).header_view() == old(self).header_view(),
            final(self).parents() == old(self).parents(),
            final(self).node_ids() == old(self).node_ids(),
            final(self).contents().len() == old(self).contents().len(),
            forall|j: int|
                0 <= j < old(self).contents().len() ==> if in_subtree(
                    old(self).parents(),
                    k as int,
                    j,
                ) {
                    exists|s: &str, c: &mut Content|
                        s@ == visit_path(old(self).parents(), final(self).contents(), j) && (*c)@
                            == old(self).contents()[j] && (*final(c))@ == final(self).contents()[j]
                            && #[trigger] call_ensures(*func, (s, c), ())
                } else {
                    final(self).contents()[j] == old(self).contents()[j]
                },
        decreases lists@.len() - k,
    {
        let ghost ps = self.parents();
        let ghost vs0 = self.contents();
        let ghost n = vs0.len();
        let id = self.map.id_at(k);
        let v = apply(func, path, self.map.value_of(id, Ghost(k as int)).duplicate());
        let ghost vk = v@;
        let mut child_path = String::new();
        if k != 0 {
            child_path = path.to_string();
            child_path.append("/");
            child_path.append(v.name());
        }
        proof {
            reveal_strlit("/");
        }
        self.map.set_value(id, Ghost(k as int), v);
        proof {
            let vs1 = self.contents();
            assert forall|a: int|
                #![trigger in_subtree(ps, a, k as int)]
                in_subtree(ps, a, k as int) && a != k implies vs0[a].content_type.name()
                    == vs1[a].content_type.name() by {
                lemma_subtree_le(ps, a, k as int);
            }
            lemma_visit_path_same(ps, vs0, vs1, k as int);
        }
        let ghost ids = self.node_ids();
        let ghost cs = children_of(ps, k as int);
        let children = &lists[k];
        proof {
            lemma_children_upto_sorted(ps, k as int, ps.len());
            lemma_children_upto_bounds(ps, k as int, ps.len());
            assert(cs.take(0) =~= Seq::<int>::empty());
            assert forall|a: int| 0 <= a < cs.len() implies cs[a] == #[trigger] children@[a] as int by {
                assert(children@.map_values(|c: usize| c as int)[a] == children@[a] as int);
            }
            assert(children@.map_values(|c: usize| c as int).len() == cs.len());
        }
        let mut i: usize = 0;
        while i < children.len()
            invariant
                self.wf(),
                self.header_view() == old(self).header_view(),
                ps == self.parents(),
                ids == self.node_ids(),
                self.contents().len() == n,
                n == ps.len(),
                vs0.len() == n,
                0 <= k < n,
                cs == children_of(ps, k as int),
                lists@.len() == n,
                forall|j: int|
                    0 <= j < lists@.len() ==> (#[trigger] lists@[j])@.map_values(|c: usize| c as int)
                        == children_of(ps, j),
                children@.len() == cs.len(),
                forall|a: int| 0 <= a < cs.len() ==> cs[a] == #[trigger] children@[a] as int,
                forall|a: int| 0 <= a < cs.len() ==> k < #[trigger] cs[a] < n && ps[cs[a]] == k,
                forall|a: int, b: int| 0 <= a < b < cs.len() ==> #[trigger] cs[a] < #[trigger] cs[b],
                i <= cs.len(),
                self.contents()[k as int] == vk,
                visit_path(ps, self.contents(), k as int) == path@,
                child_path@ == if k == 0 {
                    Seq::<char>::empty()
                } else {
                    path@ + seq!['/'] + vk.content_type.name()
                },
                forall|s: &str, c: &mut Content| call_requires(*func, (s, c)),
                exists|s: &str, c: &mut Content|
                    s@ == path@ && (*c)@ == vs0[k as int] && (*final(c))@ == vk
                        && #[trigger] call_ensures(*func, (s, c), ()),
                forall|j: int|
                    #![trigger in_any_subtree(ps, cs.take(i as int), j)]
                    0 <= j < n && j != k ==> if in_any_subtree(ps, cs.take(i as int), j) {
                        exists|s: &str, c: &mut Content|
                            s@ == visit_path(ps, self.contents(), j) && (*c)@ == vs0[j] && (*final(c))@ == self.contents()[j] && #[trigger] call_ensures(*func, (s, c), ())
                    } else {
                        self.contents()[j] == vs0[j]
                    },
            decreases cs.len() - i,
        {
            let ghost cur = self.contents();
            let ghost ci = cs[i as int];
            proof {
                assert(ps[ci] == k);
                assert(visit_path(ps, cur, ci) == child_path@);
            }
            let next_k = children[i];
            assert(next_k as int == ci && k < ci && ci < lists@.len());
            assert(0 <= lists@.len() - next_k < lists@.len() - k);
            self.visit(next_k, child_path.as_str(), func, lists);
            let ghost next = self.contents();
            proof {
                assert(cs.take(i + 1).drop_last() =~= cs.take(i as int));
                assert(cs.take(i + 1).last() == ci);
                // The nodes seen so far, and the packages above them, lie outside the
                // subtree just seen.
                assert(!in_subtree(ps, ci, k as int)) by {
                    if in_subtree(ps, ci, k as int) {
                        lemma_subtree_le(ps, ci, k as int);
                    }
                }
                assert forall|a: int|
                    #![trigger in_subtree(ps, a, k as int)]
                    in_subtree(ps, a, k as int) && a != k implies cur[a].content_type.name()
                        == next[a].content_type.name() by {
                    lemma_subtree_le(ps, a, k as int);
                    if in_subtree(ps, ci, a) {
                        lemma_subtree_le(ps, ci, a);
                    }
                }
                lemma_visit_path_same(ps, cur, next, k as int);
                assert forall|j: int|
                    #![trigger in_any_subtree(ps, cs.take(i + 1), j)]
                    0 <= j < n && j != k implies if in_any_subtree(ps, cs.take(i + 1), j) {
                        exists|s: &str, c: &mut Content|
                            s@ == visit_path(ps, next, j) && (*c)@ == vs0[j] && (*final(c))@
                                == next[j] && #[trigger] call_ensures(*func, (s, c), ())
                    } else {
                        next[j] == vs0[j]
                    } by {
                    if in_subtree(ps, ci, j) {
                        // Not seen before
                        if in_any_subtree(ps, cs.take(i as int), j) {
                            let m = lemma_any_subtree_elim(ps, cs.take(i as int), j);
                            lemma_sibling_disjoint(ps, k as int, cs[m], ci, j);
                        }
                        assert(cur[j] == vs0[j]);
                        assert(in_subtree(ps, next_k as int, j));
                        assert(exists|s: &str, c: &mut Content|
                            s@ == visit_path(ps, next, j) && (*c)@ == cur[j] && (*final(c))@
                                == next[j] && #[trigger] call_ensures(*func, (s, c), ()));
                    } else if in_any_subtree(ps, cs.take(i as int), j) {
                        let m = lemma_any_subtree_elim(ps, cs.take(i as int), j);
                        assert forall|a: int|
                            #![trigger in_subtree(ps, a, j)]
                            in_subtree(ps, a, j) && a != j implies cur[a].content_type.name()
                                == next[a].content_type.name() by {
                            lemma_subtree_le(ps, a, j);
                            if in_subtree(ps, ci, a) {
                                lemma_subtree_trans(ps, ci, a, j);
                            }
                        }
                        lemma_visit_path_same(ps, cur, next, j);
                        assert(next[j] == cur[j]);
                        assert(exists|s: &str, c: &mut Content|
                            s@ == visit_path(ps, cur, j) && (*c)@ == vs0[j] && (*final(c))@
                                == cur[j] && #[trigger] call_ensures(*func, (s, c), ()));
                    }
                }
            }
            i = i + 1;
        }
        proof {
            let fin = self.contents();
            assert(cs.take(cs.len() as int) =~= cs);
            assert forall|j: int| 0 <= j < n && in_subtree(ps, k as int, j) implies exists|s: &str, c: &mut Content|
                    s@ == visit_path(ps, fin, j) && (*c)@ == vs0[j] && (*final(c))@ == fin[j]
                        && #[trigger] call_ensures(*func, (s, c), ()) by {
                if j == k {
                    assert(visit_path(ps, fin, j) == path@);
                    assert(fin[j] == vk);
                } else {
                    let c = lemma_subtree_child(ps, k as int, j);
                    lemma_children_upto_has(ps, k as int, ps.len(), c);
                    let m = choose|m: int| 0 <= m < cs.len() && cs[m] == c;
                    lemma_any_subtree_intro(ps, cs, m, j);
                }
            }
            assert forall|j: int| 0 <= j < n && !in_subtree(ps, k as int, j) implies fin[j] == vs0[j] by {
                assert(in_subtree(ps, k as int, k as int));
                if in_any_subtree(ps, cs, j) {
                    let m = lemma_any_subtree_elim(ps, cs, j);
                    assert(in_subtree(ps, k as int, cs[m]));
                    lemma_subtree_trans(ps, k as int, cs[m], j);
                }
            }
        }
    }

    /// Perform a mutable function on all the archive content: `func` gets the top-level
    /// package, then every other content, depth first, each with the path of the package
    /// it lies in (empty for the top-level package and its contents)
    pub fn for_each<F: Fn(&str, &mut Content)>(&mut self, func: F)
        requires
            old(self).wf(),
            forall|s: &str, c: &mut Content| call_requires(func, (s, c)),
        ensures
            final(self).wf(),
            final(self).header_view() == old(self).header_view(),
            final(self).parents() == old(self).parents(),
            final(self).node_ids() == old(self).node_ids(),
            final(self).contents().len() == old(self).contents().len(),
            forall|j: int|
                0 <= j < old(self).contents().len() ==> #[trigger] in_subtree(old(self).parents(), 0, j)
                    && exists|s: &str, c: &mut Content|
                    s@ == visit_path(old(self).parents(), final(self).contents(), j) && (*c)@
                        == old(self).contents()[j] && (*final(c))@ == final(self).contents()[j]
                        && #[trigger] call_ensures(func, (s, c), ()),
    {
        let lists = self.map.child_lists();
        let ghost ps = self.parents();
        let ghost vs0 = self.contents();
        proof {
            reveal_strlit("");
            assert(""@ =~= visit_path(ps, vs0, 0));
        }
        let root: usize = 0;
        self.visit(root, "", &func, &lists);
        proof {
            let fin = self.contents();
            assert forall|j: int| 0 <= j < vs0.len() implies #[trigger] in_subtree(ps, 0, j) && exists|s: &str, c: &mut Content|
                s@ == visit_path(ps, fin, j) && (*c)@ == vs0[j] && (*final(c))@ == fin[j]
                    && #[trigger] call_ensures(func, (s, c), ()) by {
                lemma_subtree_root(ps, j);
                assert(in_subtree(ps, root as int, j));
                let pj = visit_path(ps, fin, j);
                let fj = fin[j];
            }
        }
    }

    /// Returns a reference to the content at the specified path
    pub fn get(&self, path: &str) -> (r: Option<&Content>)
        requires
            self.wf(),
        ensures
            match resolve(self.parents(), self.contents(), 0, path_parts(path@)) {
                Some(k) => r matches Some(c) && c@ == self.contents()[k],
                None => r is None,
            },
    {
        self.map.get(path)
    }

    /// Builds a new map of the content at the path and everything under it, breadth first
    pub fn get_subtree(&self, path: &str) -> (r: Option<ContentTree>)
        requires
            self.wf(),
        ensures
            match resolve(self.parents(), self.contents(), 0, path_parts(path@)) {
                Some(k) => r matches Some(t) && t.wf() && (copy_order(
                    self.parents(),
                    seq![k],
                    seq![-1int],
                    0,
                    self.parents().len(),
                ) matches Some((o, q)) && t.parents() == q && t.contents() == o.map_values(
                    |j: int| self.contents()[j],
                )),
                None => r is None,
            },
    {
        let ghost k = resolve(self.parents(), self.contents(), 0, path_parts(path@));
        match self.map.get_node(path) {
            Some(id) => Some(self.map.copy_subtree(id, Ghost(k->0))),
            None => None,
        }
    }

    /// Lists the archive content, depth first: each node with its package path
    pub fn iter(&self) -> (r: Vec<(String, &Content)>)
        requires
            self.wf(),
        ensures
            entries_view(r@) == path_entries(
                self.parents(),
                self.contents(),
                preorder(self.parents(), 0),
            ),
            r@.len() == self.parents().len(),
            preorder(self.parents(), 0).no_duplicates(),
            forall|j: int|
                0 <= j < self.parents().len() ==> #[trigger] preorder(self.parents(), 0).contains(j),
    {
        proof {
            lemma_preorder_lists_every_node(self.parents());
        }
        self.map.iter()
    }

    /// Parses a WZ Archive and maps all the content
    pub fn parse(header: Header, decoder: &mut SliceDecoder) -> (r: Result<Self, Error>)
        requires
            header.content_start + 2 <= u32::MAX,
        ensures
            match spec_map(old(decoder).stream(), header@) {
                Ok((ps, vs)) => r matches Ok(a) && a.wf() && a.header_view() == header@ && a.parents()
                    == ps && a.contents() == vs,
                Err(c) => r matches Err(e) && e.spec_code() == c,
            },
    {
        let ghost s = decoder.stream();
        let ghost hv = header@;
        let start = header.content_start + 2;
        let size = Int32::from(header.size);
        let root = Content {
            content_type: ContentType::Package(String::new()),
            size,
            checksum: Int32::from(0i32),
            offset: Offset::from(start),
        };
        assert(root@ == spec_root(hv));
        let mut map = ContentTree::with_root(root);
        let mut fuel: usize = decoder.len();
        let mut i: usize = 0;
        while i < map.ids.len()
            invariant
                map.wf(),
                                decoder.stream() == s,
                old(decoder).stream() == s,
                header@ == hv,
                i <= map.ids@.len(),
                spec_map(s, hv) == spec_map_from(
                    s,
                    map.parents(),
                    map.contents(),
                    i as nat,
                    fuel as nat,
                ),
            decreases fuel, map.ids@.len() - i,
        {
            proof {
                reveal_with_fuel(spec_map_from, 1);
            }
            let id = map.ids[i];
            let c = tree_value(&map.tree, id);
            let is_image = match &c.content_type {
                ContentType::Image(_) => true,
                ContentType::Package(_) => false,
            };
            let offset = c.offset.value();
            assert(map.contents()[i as int] == c@);
            let ghost ps = map.parents();
            let ghost vs = map.contents();
            if !is_image {
                assert(vs[i as int].content_type is Package);
                if fuel == 0 {
                    assert(spec_map_from(s, ps, vs, i as nat, fuel as nat) == Err::<
                        (Seq<int>, Seq<ContentView>),
                        ErrorCode,
                    >(ErrorCode::Offset));
                    return Err(Error::offset("package contents run in a circle"));
                }
                fuel = fuel - 1;
                let _ = decoder.seek(offset);
                let package = match Package::decode(decoder) {
                    Ok(p) => p,
                    Err(e) => {
                        assert(spec_package(s, offset as int) is Err);
                        assert(spec_map_from(s, ps, vs, i as nat, (fuel + 1) as nat) == Err::<
                            (Seq<int>, Seq<ContentView>),
                            ErrorCode,
                        >(e.spec_code()));
                        return Err(e);
                    },
                };
                let ghost cs = package@;
                let ghost ps0 = map.parents();
                let ghost vs0 = map.contents();
                let mut contents = package.contents;
                let ghost mut m: int = 0;
                while contents.len() > 0
                    invariant
                        map.wf(),
                                                i < map.ids@.len(),
                        0 <= m <= cs.len(),
                        contents@.map_values(|c: Content| c@) == cs.skip(m),
                        map.parents() == ps0 + Seq::new(m as nat, |j: int| i as int),
                        map.contents() == vs0 + cs.take(m),
                    decreases contents.len(),
                {
                    let ghost before = contents@;
                    assert(before.map_values(|c: Content| c@).len() == cs.skip(m).len());
                    let c = contents.remove(0);
                    proof {
                        assert(before.map_values(|c: Content| c@)[0] == cs.skip(m)[0]);
                        assert(c@ == cs[m]);
                        assert forall|j: int| 0 <= j < contents@.len() implies #[trigger] contents@[j]@
                            == cs.skip(m + 1)[j] by {
                            assert(contents@[j] == before[j + 1]);
                            assert(before.map_values(|c: Content| c@)[j + 1] == cs.skip(m)[j + 1]);
                        }
                        assert(contents@.map_values(|c: Content| c@) =~= cs.skip(m + 1));
                    }
                    map.add_child(i, c);
                    proof {
                        assert(map.parents() =~= ps0 + Seq::new(
                            (m + 1) as nat,
                            |j: int| i as int,
                        ));
                        assert(map.contents() =~= vs0 + cs.take(m + 1));
                        m = m + 1;
                    }
                }
                proof {
                    assert(cs.skip(m).len() == 0);
                    assert(cs.take(m) =~= cs);
                }
            }
            i = i + 1;
        }
        Ok(Archive { header, map })
    }
}

/// A node under a node under `a` lies under `a`.
proof fn lemma_subtree_trans(parents: Seq<int>, a: int, b: int, j: int)
    requires
        in_subtree(parents, a, b),
        in_subtree(parents, b, j),
    ensures
        in_subtree(parents, a, j),
    decreases j,
{
    if j != b {
        lemma_subtree_trans(parents, a, b, parents[j]);
    }
}

/// A node comes after every node it lies under.
proof fn lemma_subtree_le(parents: Seq<int>, c: int, j: int)
    requires
        in_subtree(parents, c, j),
    ensures
        c <= j,
        c != j ==> 0 <= c,
    decreases j,
{
    if j != c {
        lemma_subtree_le(parents, c, parents[j]);
    }
}

/// The nodes that a node lies under form a chain.
proof fn lemma_subtree_chain(parents: Seq<int>, c: int, d: int, j: int)
    requires
        in_subtree(parents, c, j),
        in_subtree(parents, d, j),
    ensures
        in_subtree(parents, c, d) || in_subtree(parents, d, c),
    decreases j,
{
    if j != c && j != d {
        lemma_subtree_chain(parents, c, d, parents[j]);
    }
}

/// The subtrees of two different contents of one package have no node in common.
proof fn lemma_sibling_disjoint(parents: Seq<int>, k: int, c: int, d: int, j: int)
    requires
        0 < c < parents.len(),
        0 < d < parents.len(),
        parents[c] == k,
        parents[d] == k,
        0 <= k < c,
        k < d,
        c != d,
        in_subtree(parents, c, j),
    ensures
        !in_subtree(parents, d, j),
{
    if in_subtree(parents, d, j) {
        lemma_subtree_chain(parents, c, d, j);
        if in_subtree(parents, c, d) {
            lemma_subtree_le(parents, c, parents[d]);
        } else {
            lemma_subtree_le(parents, d, parents[c]);
        }
    }
}

/// A node strictly under `k` lies under one of the contents of `k`.
proof fn lemma_subtree_child(parents: Seq<int>, k: int, j: int) -> (c: int)
    requires
        parents_wf(parents),
        0 <= k,
        0 <= j < parents.len(),
        in_subtree(parents, k, j),
        j != k,
    ensures
        0 < c <= j,
        parents[c] == k,
        in_subtree(parents, c, j),
    decreases j,
{
    if parents[j] == k {
        j
    } else {
        let c = lemma_subtree_child(parents, k, parents[j]);
        assert(in_subtree(parents, parents[j], parents[j]));
        assert(in_subtree(parents, parents[j], j));
        lemma_subtree_trans(parents, c, parents[j], j);
        c
    }
}

/// Every node lies under the root.
proof fn lemma_subtree_root(parents: Seq<int>, j: int)
    requires
        parents_wf(parents),
        0 <= j < parents.len(),
    ensures
        in_subtree(parents, 0, j),
    decreases j,
{
    if j > 0 {
        lemma_subtree_root(parents, parents[j]);
    }
}

/// A node whose package is `p` is among the contents of `p`.
proof fn lemma_children_upto_has(parents: Seq<int>, p: int, m: nat, c: int)
    requires
        m <= parents.len(),
        0 <= c < m,
        parents[c] == p,
    ensures
        children_upto(parents, p, m).contains(c),
    decreases m,
{
    if c < m - 1 {
        lemma_children_upto_has(parents, p, (m - 1) as nat, c);
        let rest = children_upto(parents, p, (m - 1) as nat);
        let i = choose|i: int| 0 <= i < rest.len() && rest[i] == c;
        if parents[m - 1] == p {
            assert(rest.push(m - 1)[i] == c);
        }
    } else {
        let rest = children_upto(parents, p, (m - 1) as nat);
        assert(rest.push(m - 1)[rest.len() as int] == c);
    }
}

/// The contents of a package come in the order in which they were added.
pub(crate) proof fn lemma_children_upto_sorted(parents: Seq<int>, p: int, m: nat)
    requires
        m <= parents.len(),
    ensures
        forall|a: int, b: int|
            0 <= a < b < children_upto(parents, p, m).len() ==> #[trigger] children_upto(
                parents,
                p,
                m,
            )[a] < #[trigger] children_upto(parents, p, m)[b],
    decreases m,
{
    if m > 0 {
        lemma_children_upto_sorted(parents, p, (m - 1) as nat);
        lemma_children_upto_bounds(parents, p, (m - 1) as nat);
        let rest = children_upto(parents, p, (m - 1) as nat);
        let cs = children_upto(parents, p, m);
        assert forall|a: int, b: int| 0 <= a < b < cs.len() implies #[trigger] cs[a] < #[trigger] cs[b] by {
            if parents[m - 1] == p {
                assert(cs == rest.push(m - 1));
                if b == rest.len() {
                    assert(rest[a] < m - 1);
                } else {
                    assert(rest[a] < rest[b]);
                }
            } else {
                assert(rest[a] < rest[b]);
            }
        }
    }
}

/// A node under one of `cs[i]` lies under one of `cs`.
proof fn lemma_any_subtree_intro(parents: Seq<int>, cs: Seq<int>, i: int, j: int)
    requires
        0 <= i < cs.len(),
        in_subtree(parents, cs[i], j),
    ensures
        in_any_subtree(parents, cs, j),
    decreases cs.len(),
{
    if i < cs.len() - 1 {
        lemma_any_subtree_intro(parents, cs.drop_last(), i, j);
    }
}

/// A node under one of `cs` lies under some `cs[i]`.
proof fn lemma_any_subtree_elim(parents: Seq<int>, cs: Seq<int>, j: int) -> (i: int)
    requires
        in_any_subtree(parents, cs, j),
    ensures
        0 <= i < cs.len(),
        in_subtree(parents, cs[i], j),
    decreases cs.len(),
{
    if in_subtree(parents, cs.last(), j) {
        cs.len() - 1
    } else {
        lemma_any_subtree_elim(parents, cs.drop_last(), j)
    }
}

/// The path of a node depends on the names of the packages above it alone.
proof fn lemma_visit_path_same(parents: Seq<int>, v1: Seq<ContentView>, v2: Seq<ContentView>, j: int)
    requires
        forall|a: int|
            #![trigger in_subtree(parents, a, j)]
            in_subtree(parents, a, j) && a != j ==> v1[a].content_type.name()
                == v2[a].content_type.name(),
    ensures
        visit_path(parents, v1, j) == visit_path(parents, v2, j),
    decreases j,
{
    if 0 < j < parents.len() && 0 < parents[j] < j {
        let p = parents[j];
        assert(in_subtree(parents, p, p));
        assert(in_subtree(parents, p, j));
        assert forall|a: int| #![trigger in_subtree(parents, a, p)] in_subtree(parents, a, p) && a != p implies v1[a].content_type.name()
            == v2[a].content_type.name() by {
            lemma_subtree_le(parents, a, p);
            assert(in_subtree(parents, a, j));
        }
        lemma_visit_path_same(parents, v1, v2, p);
    }
}


/// What `find_named` finds is one of the nodes it searched.
proof fn lemma_find_named_in(values: Seq<ContentView>, cs: Seq<int>, name: Seq<char>)
    ensures
        find_named(values, cs, name) is Some ==> cs.contains(find_named(values, cs, name)->0),
    decreases cs.len(),
{
    if cs.len() > 0 {
        if values[cs[0]].content_type.name() == name {
            assert(cs[0] == cs[0]);
        } else {
            let rest = cs.drop_first();
            lemma_find_named_in(values, rest, name);
            if find_named(values, rest, name) is Some {
                let c = find_named(values, rest, name)->0;
                let i = choose|i: int| 0 <= i < rest.len() && rest[i] == c;
                assert(cs[i + 1] == c);
            }
        }
    }
}

/// Listing one node more lists its descendants at the end.
proof fn lemma_preorder_list_push(parents: Seq<int>, cs: Seq<int>, x: int, lo: int)
    requires
        forall|i: int| 0 <= i < cs.len() ==> lo < #[trigger] cs[i] < parents.len(),
        lo < x < parents.len(),
    ensures
        preorder_list(parents, cs.push(x), lo) == preorder_list(parents, cs, lo) + preorder(
            parents,
            x,
        ),
    decreases cs.len(),
{
    if cs.len() == 0 {
        assert(cs.push(x).drop_first() =~= Seq::<int>::empty());
        assert(preorder_list(parents, Seq::<int>::empty(), lo) == Seq::<int>::empty());
        assert(preorder(parents, x) + Seq::<int>::empty() =~= preorder(parents, x));
    } else {
        assert(cs.push(x).drop_first() =~= cs.drop_first().push(x));
        assert(cs[0] == cs[0]);
        lemma_preorder_list_push(parents, cs.drop_first(), x, lo);
        assert(preorder_list(parents, cs.push(x), lo) =~= preorder(parents, cs[0]) + (
        preorder_list(parents, cs.drop_first(), lo) + preorder(parents, x)));
    }
}

/// Children found among nodes that `parents` does not hold yet stay the same when a node is
/// added.
pub(crate) proof fn lemma_children_upto_push(parents: Seq<int>, x: int, p: int, m: nat)
    requires
        m <= parents.len(),
    ensures
        children_upto(parents.push(x), p, m) == children_upto(parents, p, m),
        children_upto(parents.push(x), p, m + 1) == if x == p && m == parents.len() {
            children_upto(parents, p, m).push(m as int)
        } else if m == parents.len() {
            children_upto(parents, p, m)
        } else {
            children_upto(parents.push(x), p, m + 1)
        },
    decreases m,
{
    if m > 0 {
        lemma_children_upto_push(parents, x, p, (m - 1) as nat);
    }
}

/// The children of `p` among the first `m` nodes come before `m` and have `p` as parent.
pub(crate) proof fn lemma_children_upto_bounds(parents: Seq<int>, p: int, m: nat)
    requires
        m <= parents.len(),
    ensures
        forall|i: int|
            0 <= i < children_upto(parents, p, m).len() ==> 0 <= #[trigger] children_upto(
                parents,
                p,
                m,
            )[i] < m && parents[children_upto(parents, p, m)[i]] == p,
    decreases m,
{
    if m > 0 {
        lemma_children_upto_bounds(parents, p, (m - 1) as nat);
        let r = children_upto(parents, p, (m - 1) as nat);
        assert forall|i: int| 0 <= i < children_upto(parents, p, m).len() implies 0
            <= #[trigger] children_upto(parents, p, m)[i] < m && parents[children_upto(
            parents,
            p,
            m,
        )[i]] == p by {
            if i < r.len() {
                assert(children_upto(parents, p, m)[i] == r[i]);
            }
        }
    }
}

/// A node has fewer children than there are nodes.
pub proof fn lemma_children_upto_len(parents: Seq<int>, p: int, m: nat)
    requires
        m <= parents.len(),
    ensures
        children_upto(parents, p, m).len() <= m,
        0 <= p < m && parents[p] != p ==> children_upto(parents, p, m).len() < m,
    decreases m,
{
    if m > 0 {
        lemma_children_upto_len(parents, p, (m - 1) as nat);
    }
}

/// A node that is no node's parent has no children.
pub(crate) proof fn lemma_children_upto_none(parents: Seq<int>, p: int, m: nat)
    requires
        m <= parents.len(),
        forall|j: int| 0 <= j < m ==> #[trigger] parents[j] != p,
    ensures
        children_upto(parents, p, m) == Seq::<int>::empty(),
    decreases m,
{
    if m > 0 {
        lemma_children_upto_none(parents, p, (m - 1) as nat);
    }
}


/// Two duplicate-free sequences with no element in common join into a duplicate-free one.
proof fn lemma_concat_no_duplicates(a: Seq<int>, b: Seq<int>)
    requires
        a.no_duplicates(),
        b.no_duplicates(),
        forall|x: int| a.contains(x) ==> !b.contains(x),
    ensures
        (a + b).no_duplicates(),
{
    let c = a + b;
    assert forall|i: int, j: int| 0 <= i < c.len() && 0 <= j < c.len() && i != j implies c[i]
        != c[j] by {
        if i < a.len() && j >= a.len() {
            assert(a.contains(c[i]));
            assert(b[j - a.len()] == c[j]);
        } else if j < a.len() && i >= a.len() {
            assert(a.contains(c[j]));
            assert(b[i - a.len()] == c[i]);
        } else if i >= a.len() {
            assert(b[i - a.len()] == c[i] && b[j - a.len()] == c[j]);
        }
    }
}

/// Depth first from node `k`, every node under `k` is listed, and only once.
proof fn lemma_preorder_nodes(parents: Seq<int>, k: int)
    requires
        parents_wf(parents),
        0 <= k < parents.len(),
    ensures
        preorder(parents, k).no_duplicates(),
        forall|j: int|
            #[trigger] preorder(parents, k).contains(j) <==> (0 <= j < parents.len() && in_subtree(
                parents,
                k,
                j,
            )),
    decreases parents.len() - k + 1, 0int,
{
    let cs = children_of(parents, k);
    lemma_children_upto_bounds(parents, k, parents.len());
    lemma_children_upto_sorted(parents, k, parents.len());
    lemma_preorder_list_nodes(parents, cs, k);
    let rest = preorder_list(parents, cs, k);
    assert forall|j: int| rest.contains(j) implies j != k by {
        let i = choose|i: int| 0 <= i < cs.len() && in_subtree(parents, cs[i], j);
        lemma_subtree_le(parents, cs[i], j);
    }
    assert(seq![k].no_duplicates());
    lemma_concat_no_duplicates(seq![k], rest);
    assert forall|j: int|
        #[trigger] preorder(parents, k).contains(j) <==> (0 <= j < parents.len() && in_subtree(
            parents,
            k,
            j,
        )) by {
        let all = preorder(parents, k);
        assert(all == seq![k] + rest);
        if all.contains(j) {
            let t = choose|t: int| 0 <= t < all.len() && all[t] == j;
            if t > 0 {
                assert(rest[t - 1] == j);
                assert(rest.contains(j));
                let i = choose|i: int| 0 <= i < cs.len() && in_subtree(parents, cs[i], j);
                assert(parents[cs[i]] == k);
                assert(cs[i] != 0);
                assert(0 <= parents[cs[i]] < cs[i]);
                assert(in_subtree(parents, k, k));
                assert(in_subtree(parents, k, cs[i]));
                lemma_subtree_trans(parents, k, cs[i], j);
            }
        }
        if 0 <= j < parents.len() && in_subtree(parents, k, j) {
            if j == k {
                assert(all[0] == j);
            } else {
                let c = lemma_subtree_child(parents, k, j);
                lemma_children_upto_has(parents, k, parents.len(), c);
                let i = choose|i: int| 0 <= i < cs.len() && cs[i] == c;
                assert(in_subtree(parents, cs[i], j));
                assert(rest.contains(j));
                let t = choose|t: int| 0 <= t < rest.len() && rest[t] == j;
                assert(all[t + 1] == j);
            }
        }
    }
}

/// Depth first from the contents `cs` of node `lo` (in the order they were added), every
/// node under one of them is listed, and only once.
proof fn lemma_preorder_list_nodes(parents: Seq<int>, cs: Seq<int>, lo: int)
    requires
        parents_wf(parents),
        0 <= lo < parents.len(),
        forall|i: int| 0 <= i < cs.len() ==> lo < #[trigger] cs[i] < parents.len(),
        forall|i: int| 0 <= i < cs.len() ==> parents[#[trigger] cs[i]] == lo,
        forall|a: int, b: int| 0 <= a < b < cs.len() ==> #[trigger] cs[a] < #[trigger] cs[b],
    ensures
        preorder_list(parents, cs, lo).no_duplicates(),
        forall|j: int|
            #[trigger] preorder_list(parents, cs, lo).contains(j) <==> (0 <= j < parents.len()
                && exists|i: int| 0 <= i < cs.len() && in_subtree(parents, cs[i], j)),
    decreases parents.len() - lo, cs.len(),
{
    if cs.len() > 0 {
        let c = cs[0];
        let tail = cs.drop_first();
        assert forall|i: int| 0 <= i < tail.len() implies lo < #[trigger] tail[i] < parents.len()
            && parents[tail[i]] == lo by {
            assert(tail[i] == cs[i + 1]);
        }
        assert forall|a: int, b: int| 0 <= a < b < tail.len() implies #[trigger] tail[a]
            < #[trigger] tail[b] by {
            assert(tail[a] == cs[a + 1] && tail[b] == cs[b + 1]);
        }
        lemma_preorder_nodes(parents, c);
        lemma_preorder_list_nodes(parents, tail, lo);
        let a = preorder(parents, c);
        let b = preorder_list(parents, tail, lo);
        assert(preorder_list(parents, cs, lo) == a + b);
        assert forall|j: int| a.contains(j) implies !b.contains(j) by {
            if b.contains(j) {
                let i = choose|i: int| 0 <= i < tail.len() && in_subtree(parents, tail[i], j);
                assert(tail[i] == cs[i + 1]);
                assert(c < tail[i]);
                lemma_sibling_disjoint(parents, lo, c, tail[i], j);
            }
        }
        lemma_concat_no_duplicates(a, b);
        assert forall|j: int|
            #[trigger] preorder_list(parents, cs, lo).contains(j) <==> (0 <= j < parents.len()
                && exists|i: int| 0 <= i < cs.len() && in_subtree(parents, cs[i], j)) by {
            let all = a + b;
            if all.contains(j) {
                let t = choose|t: int| 0 <= t < all.len() && all[t] == j;
                if t < a.len() {
                    assert(a.contains(j));
                    assert(in_subtree(parents, cs[0], j));
                } else {
                    assert(b[t - a.len()] == j);
                    assert(b.contains(j));
                    let i = choose|i: int| 0 <= i < tail.len() && in_subtree(parents, tail[i], j);
                    assert(in_subtree(parents, cs[i + 1], j));
                }
            }
            if 0 <= j < parents.len() && exists|i: int| 0 <= i < cs.len() && in_subtree(parents, cs[i], j) {
                let i = choose|i: int| 0 <= i < cs.len() && in_subtree(parents, cs[i], j);
                if i == 0 {
                    assert(a.contains(j));
                    let t = choose|t: int| 0 <= t < a.len() && a[t] == j;
                    assert(all[t] == j);
                } else {
                    assert(tail[i - 1] == cs[i]);
                    assert(b.contains(j));
                    let t = choose|t: int| 0 <= t < b.len() && b[t] == j;
                    assert(all[a.len() + t] == j);
                }
            }
        }
    } else {
        assert(preorder_list(parents, cs, lo) == Seq::<int>::empty());
    }
}

/// Listing a well-formed tree depth first from the root lists every node exactly once: the
/// list is as long as there are nodes, holds no node twice, and holds every node.
pub proof fn lemma_preorder_lists_every_node(parents: Seq<int>)
    requires
        parents_wf(parents),
    ensures
        preorder(parents, 0).len() == parents.len(),
        preorder(parents, 0).no_duplicates(),
        forall|j: int| 0 <= j < parents.len() ==> #[trigger] preorder(parents, 0).contains(j),
        forall|t: int|
            0 <= t < preorder(parents, 0).len() ==> 0 <= #[trigger] preorder(parents, 0)[t]
                < parents.len(),
{
    let o = preorder(parents, 0);
    let n = parents.len() as int;
    lemma_preorder_nodes(parents, 0);
    assert forall|j: int| 0 <= j < n implies #[trigger] o.contains(j) by {
        lemma_subtree_root(parents, j);
    }
    assert forall|t: int| 0 <= t < o.len() implies 0 <= #[trigger] o[t] < n by {
        assert(o.contains(o[t]));
    }
    o.unique_seq_to_set();
    vstd::set_lib::lemma_int_range(0, n);
    assert(o.to_set() =~= vstd::set_lib::set_int_range(0, n)) by {
        assert forall|j: int| o.to_set().contains(j) implies vstd::set_lib::set_int_range(
            0,
            n,
        ).contains(j) by {
            assert(o.contains(j));
        }
        assert forall|j: int| vstd::set_lib::set_int_range(0, n).contains(j) implies o.to_set().contains(j) by {
            assert(o.contains(j));
        }
    }
}

} // verus!
