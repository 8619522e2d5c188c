//! WZ directory: a named node that records its children and their total size

use vstd::prelude::*;

verus! {

/// A WZ directory
#[derive(Debug, PartialEq, Eq)]
pub struct WzDirectory {
    name: String,
    size: Option<u64>,
    offset: Option<u64>,
    children: Vec<usize>,
}

/// A directory as plain values: name, size, offset and children
pub struct WzDirectoryView {
    /// Name
    pub name: Seq<char>,
    /// Total size of the children, once there is one
    pub size: Option<u64>,
    /// Offset
    pub offset: Option<u64>,
    /// Children
    pub children: Seq<usize>,
}

impl View for WzDirectory {
    type V = WzDirectoryView;

    closed spec fn view(&self) -> WzDirectoryView {
        WzDirectoryView {
            name: self.name@,
            size: self.size,
            offset: self.offset,
            children: self.children@,
        }
    }
}

impl WzDirectory {
    /// An empty directory named `name`
    pub fn new(name: &str) -> (r: Self)
        ensures
            r@ == (WzDirectoryView {
                name: name@,
                size: None,
                offset: None,
                children: Seq::empty(),
            }),
    {
        WzDirectory { name: String::from_str(name), size: None, offset: None, children: Vec::new() }
    }

    /// An empty directory named `name` at `offset`
    pub fn with_offset(name: &str, offset: u64) -> (r: Self)
        ensures
            r@ == (WzDirectoryView {
                name: name@,
                size: None,
                offset: Some(offset),
                children: Seq::empty(),
            }),
    {
        WzDirectory {
            name: String::from_str(name),
            size: None,
            offset: Some(offset),
            children: Vec::new(),
        }
    }

    /// Records a child and adds its size to the size of the directory
    pub fn add_child(&mut self, child: usize, size: u64)
        requires
            old(self)@.size matches Some(s) ==> s + size <= u64::MAX,
        ensures
            final(self)@ == added(old(self)@, child, size),
    {
        self.children.push(child);
        match self.size {
            Some(s) => self.size = Some(s + size),
            None => self.size = Some(size),
        }
    }

    /// A directory is always a directory
    pub fn is_dir(&self) -> (r: bool)
        ensures
            r,
    {
        true
    }

    /// The name of the directory
    pub fn name(&self) -> (r: &str)
        ensures
            r@ == self@.name,
    {
        self.name.as_str()
    }

    /// The total size of the children, once a child was added
    pub fn size(&self) -> (r: Option<u64>)
        ensures
            r == self@.size,
    {
        self.size
    }

    /// The offset of the directory, when it has one
    pub fn offset(&self) -> (r: Option<u64>)
        ensures
            r == self@.offset,
    {
        self.offset
    }

    /// The number of children
    pub fn len(&self) -> (r: usize)
        ensures
            r == self@.children.len(),
    {
        self.children.len()
    }
}


/// The directory `d` after the child `child` of size `size` is recorded.
pub open spec fn added(d: WzDirectoryView, child: usize, size: u64) -> WzDirectoryView {
    WzDirectoryView {
        size: Some(
            match d.size {
                Some(s) => (s + size) as u64,
                None => size,
            },
        ),
        children: d.children.push(child),
        ..d
    }
}

/// The directory `d` after each child of `cs` (an id and a size) is recorded in turn.
pub open spec fn added_all(d: WzDirectoryView, cs: Seq<(usize, u64)>) -> WzDirectoryView
    decreases cs.len(),
{
    if cs.len() == 0 {
        d
    } else {
        added(added_all(d, cs.drop_last()), cs.last().0, cs.last().1)
    }
}

/// The sum of the sizes of the children `cs`.
pub open spec fn sizes_sum(cs: Seq<(usize, u64)>) -> int
    decreases cs.len(),
{
    if cs.len() == 0 {
        0
    } else {
        sizes_sum(cs.drop_last()) + cs.last().1
    }
}

/// The sum of sizes is never negative.
proof fn lemma_added_all_sum(cs: Seq<(usize, u64)>)
    ensures
        sizes_sum(cs) >= 0,
    decreases cs.len(),
{
    if cs.len() > 0 {
        lemma_added_all_sum(cs.drop_last());
    }
}

/// Recording the children `cs` one after another in a directory without children gives a
/// directory with those children in order, whose size is the sum of their sizes (none when
/// there are no children), its name and offset unchanged; no step overflows when the sum
/// fits in 64 bits.
pub proof fn lemma_added_all(d: WzDirectoryView, cs: Seq<(usize, u64)>)
    requires
        d.size is None,
        d.children.len() == 0,
        sizes_sum(cs) <= u64::MAX,
    ensures
        sizes_sum(cs) >= 0,
        added_all(d, cs).children == cs.map_values(|c: (usize, u64)| c.0),
        added_all(d, cs).size == if cs.len() == 0 {
            None::<u64>
        } else {
            Some(sizes_sum(cs) as u64)
        },
        added_all(d, cs).name == d.name,
        added_all(d, cs).offset == d.offset,
        forall|i: int|
            0 <= i < cs.len() ==> (#[trigger] added_all(d, cs.take(i)).size matches Some(s) ==> s
                + cs[i].1 <= u64::MAX),
    decreases cs.len(),
{
    if cs.len() > 0 {
        let init = cs.drop_last();
        lemma_added_all_sum(init);
        assert(sizes_sum(init) <= sizes_sum(cs));
        lemma_added_all(d, init);
        assert(cs.map_values(|c: (usize, u64)| c.0) =~= init.map_values(|c: (usize, u64)| c.0).push(
            cs.last().0,
        ));
        assert forall|i: int|
            0 <= i < cs.len() implies (#[trigger] added_all(d, cs.take(i)).size matches Some(s) ==> s
            + cs[i].1 <= u64::MAX) by {
            if i < cs.len() - 1 {
                assert(cs.take(i) =~= init.take(i));
                assert(cs[i] == init[i]);
            } else {
                assert(cs.take(i) =~= init);
                assert(cs[i] == cs.last());
            }
        }
    }
}

} // verus!
