use vstd::prelude::*;

use crate::rel_path::RelPath;

verus! {

broadcast use vstd::seq_lib::group_seq_lib_default;

/// What an entry is, mathematically: its path and whether it is a directory.
pub struct EntryView {
    pub path: Seq<Seq<char>>,
    pub is_dir: bool,
}

/// One file or directory of a tree, named by its path from the tree's root.
pub struct Entry {
    pub path: RelPath,
    pub is_dir: bool,
}

impl View for Entry {
    type V = EntryView;

    open spec fn view(&self) -> EntryView {
        EntryView { path: self.path@, is_dir: self.is_dir }
    }
}

/// The views of a sequence of entries.
pub open spec fn entry_views(s: Seq<Entry>) -> Seq<EntryView> {
    s.map_values(|e: Entry| e@)
}

pub proof fn lemma_entry_views_push(s: Seq<Entry>, e: Entry)
    ensures
        entry_views(s.push(e)) == entry_views(s).push(e@),
{
    assert(entry_views(s.push(e)) =~= entry_views(s).push(e@));
}

/// `p` names an entry directly inside the directory `dir`.
pub open spec fn is_child_of(p: Seq<Seq<char>>, dir: Seq<Seq<char>>) -> bool {
    p.len() == dir.len() + 1 && p.take(dir.len() as int) == dir
}

/// The entries directly inside `dir`, in the order in which they are held.
pub open spec fn children_of(entries: Seq<EntryView>, dir: Seq<Seq<char>>) -> Seq<EntryView> {
    entries.filter(|e: EntryView| is_child_of(e.path, dir))
}

pub proof fn lemma_children_of_push(s: Seq<EntryView>, e: EntryView, dir: Seq<Seq<char>>)
    ensures
        children_of(s.push(e), dir) == if is_child_of(e.path, dir) {
            children_of(s, dir).push(e)
        } else {
            children_of(s, dir)
        },
{
    reveal(Seq::filter);
    assert(s.push(e).drop_last() =~= s);
}

impl Entry {
    pub fn new(path: RelPath, is_dir: bool) -> (r: Entry)
        ensures
            r@ == (EntryView { path: path@, is_dir }),
    {
        Entry { path, is_dir }
    }

    pub fn is_dir(&self) -> (r: bool)
        ensures
            r == self.is_dir,
    {
        self.is_dir
    }

    /// A copy of this entry.
    pub fn duplicate(&self) -> (r: Entry)
        ensures
            r@ == self@,
    {
        Entry { path: self.path.duplicate(), is_dir: self.is_dir }
    }
}

/// An in-memory snapshot of a directory tree: every entry under its root.
pub struct Tree {
    pub entries: Vec<Entry>,
}

impl View for Tree {
    type V = Seq<EntryView>;

    open spec fn view(&self) -> Seq<EntryView> {
        entry_views(self.entries@)
    }
}

/// Whether `p` names an entry directly inside `dir`.
pub fn path_is_child_of(p: &RelPath, dir: &RelPath) -> (r: bool)
    ensures
        r == is_child_of(p@, dir@),
{
    let n = dir.components.len();
    if p.components.len() == 0 || p.components.len() - 1 != n {
        return false;
    }
    let mut i: usize = 0;
    while i < n
        invariant
            n == dir.components.len(),
            p.components.len() == n + 1,
            i <= n,
            forall|k: int| 0 <= k < i ==> p@[k] == dir@[k],
        decreases n - i,
    {
        if p.components[i] != dir.components[i] {
            assert(p@.take(n as int)[i as int] != dir@[i as int]);
            return false;
        }
        i += 1;
    }
    assert(p@.take(n as int) =~= dir@);
    true
}

impl Tree {
    /// A tree with no entries.
    pub fn new() -> (r: Tree)
        ensures
            r@ == Seq::<EntryView>::empty(),
    {
        let r = Tree { entries: Vec::new() };
        assert(r@ =~= Seq::<EntryView>::empty());
        r
    }

    /// Adds an entry after those already held.
    pub fn insert(&mut self, entry: Entry)
        ensures
            final(self)@ == old(self)@.push(entry@),
    {
        proof {
            lemma_entry_views_push(self.entries@, entry);
        }
        self.entries.push(entry);
    }

    /// Copies of the entries directly inside `dir`, in the order in which they are held.
    pub fn child_entries(&self, dir: &RelPath) -> (r: Vec<Entry>)
        ensures
            entry_views(r@) == children_of(self@, dir@),
    {
        let mut r: Vec<Entry> = Vec::new();
        let mut i: usize = 0;
        assert(self@.take(0) =~= Seq::<EntryView>::empty());
        assert(entry_views(r@) =~= Seq::<EntryView>::empty());
        while i < self.entries.len()
            invariant
                i <= self.entries.len(),
                entry_views(r@) == children_of(self@.take(i as int), dir@),
            decreases self.entries.len() - i,
        {
            let e = &self.entries[i];
            assert(self@.take(i + 1) =~= self@.take(i as int).push(e@));
            proof {
                lemma_children_of_push(self@.take(i as int), e@, dir@);
            }
            if path_is_child_of(&e.path, dir) {
                let c = e.duplicate();
                proof {
                    lemma_entry_views_push(r@, c);
                }
                r.push(c);
            }
            i += 1;
        }
        assert(self@.take(self.entries.len() as int) =~= self@);
        r
    }
}

} // verus!
