//! A snapshot of a directory and everything below it.

use vstd::prelude::*;

verus! {

/// What a directory entry is.
#[derive(Debug, Clone, Copy, PartialEq, Eq, Structural)]
pub enum EntryKind {
    File,
    Directory,
    /// Anything else, such as a link that leads nowhere.
    Other,
}

/// One entry of the snapshot: its name, its kind and, for a directory, the
/// indices of the entries inside it.
pub struct Entry {
    pub name: String,
    pub kind: EntryKind,
    pub children: Vec<usize>,
}

/// A directory and its contents. `entries[0]` is the directory itself;
/// every entry's children come after it.
pub struct DirTree {
    pub entries: Vec<Entry>,
}

impl DirTree {
    /// There is a root, and every child index points to a later entry.
    pub open spec fn wf(&self) -> bool {
        &&& self.entries@.len() >= 1
        &&& forall|i: int, k: int|
            0 <= i < self.entries@.len() && 0 <= k < self.entries@[i].children@.len() ==> i
                < #[trigger] self.entries@[i].children@[k] < self.entries@.len()
    }

    /// The number of entries.
    pub open spec fn size(&self) -> int {
        self.entries@.len() as int
    }

    /// The index of the `k`th child of entry `node`.
    pub open spec fn child(&self, node: int, k: int) -> int {
        self.entries@[node].children@[k] as int
    }

    /// The number of children of entry `node`.
    pub open spec fn child_count(&self, node: int) -> int {
        self.entries@[node].children@.len() as int
    }

    /// A snapshot of a directory that holds nothing.
    pub fn empty_dir(name: String) -> (r: DirTree)
        ensures
            r.wf(),
            r.size() == 1,
            r.entries@[0].name == name,
            r.child_count(0) == 0,
    {
        let mut entries: Vec<Entry> = Vec::new();
        entries.push(Entry { name, kind: EntryKind::Directory, children: Vec::new() });
        DirTree { entries }
    }

    /// Adds an entry of kind `kind` named `name` inside the directory
    /// `parent`, and returns its index.
    pub fn add(&mut self, parent: usize, name: String, kind: EntryKind) -> (r: usize)
        requires
            old(self).wf(),
            parent < old(self).size(),
            old(self).size() < usize::MAX,
        ensures
            final(self).wf(),
            r == old(self).size(),
            final(self).size() == old(self).size() + 1,
            final(self).entries@[r as int].name == name,
            final(self).entries@[r as int].kind == kind,
            final(self).child_count(r as int) == 0,
            final(self).entries@[parent as int].children@ == old(self).entries@[parent as int].children@.push(r),
            forall|i: int| 0 <= i < old(self).size() && i != parent ==> #[trigger] final(self).entries@[i]
                == old(self).entries@[i],
            forall|i: int| 0 <= i < old(self).size() && i != parent ==> #[trigger] final(self).entries@[i].children@
                == old(self).entries@[i].children@,
            final(self).entries@[parent as int].name == old(self).entries@[parent as int].name,
            final(self).entries@[parent as int].kind == old(self).entries@[parent as int].kind,
    {
        let r = self.entries.len();
        self.entries.push(Entry { name, kind, children: Vec::new() });
        let mut children = Vec::new();
        std::mem::swap(&mut children, &mut self.entries[parent].children);
        children.push(r);
        std::mem::swap(&mut children, &mut self.entries[parent].children);
        proof {
            assert forall|i: int, k: int|
                0 <= i < self.entries@.len() && 0 <= k < self.entries@[i].children@.len() implies i
                    < #[trigger] self.entries@[i].children@[k] < self.entries@.len() by {
                if i != parent && i < r {
                    assert(self.entries@[i] == old(self).entries@[i]);
                }
            }
        }
        r
    }
}

} // verus!
