use vstd::prelude::*;
use vstd::string::*;

use crate::listing::{
    display_name_of, is_listing, item_views, lemma_item_views_push, list_entries, BrowseItem,
    DirectoryBrowserEntry,
};
use crate::rel_path::RelPath;
use crate::text::{contains_chars, is_substring, lower_of, lowercase, to_chars};
use crate::tree::Tree;

verus! {

/// A row matches a lower-cased query when the lower case of its display name
/// contains the query.
pub open spec fn matches_query(item: BrowseItem, q: Seq<char>) -> bool {
    is_substring(q, lower_of(display_name_of(item)))
}

/// The rows of `items` that match the lower-cased query `q`, in order.
pub open spec fn filter_items(items: Seq<BrowseItem>, q: Seq<char>) -> Seq<BrowseItem> {
    items.filter(|b: BrowseItem| matches_query(b, q))
}

proof fn lemma_filter_items_push(s: Seq<BrowseItem>, b: BrowseItem, q: Seq<char>)
    ensures
        filter_items(s.push(b), q) == if matches_query(b, q) {
            filter_items(s, q).push(b)
        } else {
            filter_items(s, q)
        },
{
    reveal(Seq::filter);
    assert(s.push(b).drop_last() =~= s);
}

/// The empty query keeps every row.
pub proof fn lemma_filter_empty_query(items: Seq<BrowseItem>)
    ensures
        filter_items(items, Seq::empty()) == items,
    decreases items.len(),
{
    if items.len() > 0 {
        let s = items.drop_last();
        lemma_filter_empty_query(s);
        lemma_filter_items_push(s, items.last(), Seq::empty());
        let h = lower_of(display_name_of(items.last()));
        assert(h.subrange(0int, 0int + Seq::<char>::empty().len()) =~= Seq::<char>::empty());
        assert(is_substring(Seq::<char>::empty(), h));
        assert(s.push(items.last()) =~= items);
    } else {
        reveal(Seq::filter);
    }
}

/// Filtering twice by the same query keeps what filtering once kept.
pub proof fn lemma_filter_idempotent(items: Seq<BrowseItem>, q: Seq<char>)
    ensures
        filter_items(filter_items(items, q), q) == filter_items(items, q),
    decreases items.len(),
{
    if items.len() > 0 {
        let s = items.drop_last();
        let b = items.last();
        lemma_filter_idempotent(s, q);
        assert(s.push(b) =~= items);
        lemma_filter_items_push(s, b, q);
        if matches_query(b, q) {
            lemma_filter_items_push(filter_items(s, q), b, q);
        }
    } else {
        reveal(Seq::filter);
    }
}

/// The row names the file or directory `name` (by its last component).
pub open spec fn is_named(item: BrowseItem, name: Seq<char>) -> bool {
    item is Concrete && item->Concrete_0.path.len() > 0 && item->Concrete_0.path.last() == name
}

/// `sel` is where a fresh listing puts the cursor: on the first row named by
/// the hint, if any row is, else on the first row.
pub open spec fn initial_selection(items: Seq<BrowseItem>, hint: Option<String>, sel: int) -> bool {
    match hint {
        Some(t) => if exists|i: int| 0 <= i < items.len() && #[trigger] is_named(items[i], t@) {
            &&& 0 <= sel < items.len()
            &&& is_named(items[sel], t@)
            &&& forall|j: int| 0 <= j < sel ==> !#[trigger] is_named(items[j], t@)
        } else {
            sel == 0
        },
        None => sel == 0,
    }
}

/// The file to preview for row `ix`: its path when the row is a file.
pub open spec fn preview_path(items: Seq<BrowseItem>, ix: int) -> Option<Seq<Seq<char>>> {
    if 0 <= ix < items.len() && items[ix] is Concrete && !items[ix]->Concrete_0.is_dir {
        Some(items[ix]->Concrete_0.path)
    } else {
        None
    }
}

/// The cursor kept in bounds after the list shrank to `len` rows.
pub open spec fn clamped(sel: int, len: int) -> int {
    if sel < len {
        sel
    } else if len > 0 {
        len - 1
    } else {
        0
    }
}

/// The view of an optional path.
pub open spec fn path_opt(p: Option<RelPath>) -> Option<Seq<Seq<char>>> {
    match p {
        Some(x) => Some(x@),
        None => None,
    }
}

/// What confirming a row leads to.
pub enum BrowseAction {
    /// Nothing: no row was selected, or the step up was taken at the root.
    Nothing,
    /// The session moved to another directory.
    Navigated,
    /// The file is to be opened, in a split when `split`.
    Open { path: RelPath, split: bool },
}

/// What to undo when browsing is cancelled: an item to close, an item to
/// make active again.
pub struct DismissPlan {
    pub close_item: Option<u64>,
    pub restore_item: Option<u64>,
}

/// The state of browsing one directory at a time of a tree: where it is, what
/// it lists, what the query keeps, and where the cursor stands.
pub struct DirectoryBrowserDelegate {
    pub worktree_id: u64,
    pub current_path: RelPath,
    pub all_entries: Vec<DirectoryBrowserEntry>,
    pub filtered_entries: Vec<DirectoryBrowserEntry>,
    pub selected_index: usize,
    pub show_hidden_files: bool,
    /// The file name to put the cursor on at the first load, if any.
    pub initial_selected_path: Option<String>,
    /// The item that was active when browsing began, to restore on cancel.
    pub original_active_item_id: Option<u64>,
    /// Whether a file was opened (rather than browsing cancelled).
    pub confirmed: bool,
    /// The lower-cased query that `filtered_entries` was made with.
    pub query: Ghost<Seq<char>>,
}

/// Copies of the rows of `v`.
fn duplicate_rows(v: &Vec<DirectoryBrowserEntry>) -> (r: Vec<DirectoryBrowserEntry>)
    ensures
        item_views(r@) == item_views(v@),
{
    let mut r: Vec<DirectoryBrowserEntry> = Vec::new();
    let mut i: usize = 0;
    while i < v.len()
        invariant
            i <= v.len(),
            item_views(r@) == item_views(v@).take(i as int),
        decreases v.len() - i,
    {
        let b = v[i].duplicate();
        proof {
            lemma_item_views_push(r@, b);
            assert(item_views(v@).take(i + 1) =~= item_views(v@).take(i as int).push(b@));
        }
        r.push(b);
        i += 1;
    }
    assert(item_views(v@).take(v.len() as int) =~= item_views(v@));
    r
}

/// The index of the first row named `target`, if any.
fn position_named(entries: &Vec<DirectoryBrowserEntry>, target: &String) -> (r: Option<usize>)
    ensures
        match r {
            Some(i) => {
                &&& i < entries.len()
                &&& is_named(item_views(entries@)[i as int], target@)
                &&& forall|j: int| 0 <= j < i ==> !#[trigger] is_named(item_views(entries@)[j], target@)
            },
            None => forall|j: int|
                0 <= j < entries.len() ==> !#[trigger] is_named(item_views(entries@)[j], target@),
        },
{
    let ghost items = item_views(entries@);
    let mut i: usize = 0;
    while i < entries.len()
        invariant
            items == item_views(entries@),
            i <= entries.len(),
            forall|j: int| 0 <= j < i ==> !#[trigger] is_named(items[j], target@),
        decreases entries.len() - i,
    {
        let hit = match &entries[i] {
            DirectoryBrowserEntry::ParentDirectory => false,
            DirectoryBrowserEntry::Entry(e) => match e.path.file_name() {
                Some(name) => name == *target,
                None => false,
            },
        };
        assert(items[i as int] == entries@[i as int]@);
        if hit {
            return Some(i);
        }
        i += 1;
    }
    None
}

impl DirectoryBrowserDelegate {
    /// The filtered rows are those of the full listing that match the query,
    /// and the cursor stands on one of them (at 0 when there is none).
    pub open spec fn wf(&self) -> bool {
        &&& item_views(self.filtered_entries@) == filter_items(
            item_views(self.all_entries@),
            self.query@,
        )
        &&& (self.filtered_entries.len() > 0 ==> self.selected_index < self.filtered_entries.len())
        &&& (self.filtered_entries.len() == 0 ==> self.selected_index == 0)
    }

    /// `self` is what loading made of `prev` (whose path and hidden choice it
    /// has taken): the listing of its directory, all of it shown, the cursor
    /// placed by the hint, which is then spent.
    pub open spec fn loaded_from(&self, prev: &Self, tree: Option<&Tree>) -> bool {
        &&& match tree {
            Some(t) => is_listing(
                t@,
                self.current_path@,
                self.show_hidden_files,
                item_views(self.all_entries@),
            ),
            None => self.all_entries@.len() == 0,
        }
        &&& item_views(self.filtered_entries@) == item_views(self.all_entries@)
        &&& self.initial_selected_path is None
        &&& initial_selection(
            item_views(self.all_entries@),
            prev.initial_selected_path,
            self.selected_index as int,
        )
        &&& self.worktree_id == prev.worktree_id
        &&& self.original_active_item_id == prev.original_active_item_id
        &&& self.confirmed == prev.confirmed
        &&& self.wf()
    }

    /// `self` differs from `prev` in its filtered rows, cursor and query at most.
    pub open spec fn same_listing(&self, prev: &Self) -> bool {
        &&& self.worktree_id == prev.worktree_id
        &&& self.current_path == prev.current_path
        &&& self.all_entries == prev.all_entries
        &&& self.show_hidden_files == prev.show_hidden_files
        &&& self.initial_selected_path == prev.initial_selected_path
        &&& self.original_active_item_id == prev.original_active_item_id
        &&& self.confirmed == prev.confirmed
    }

    /// `self` is `prev` moved into the directory `dir` and loaded there.
    pub open spec fn moved_to(&self, prev: &Self, dir: Seq<Seq<char>>, tree: Option<&Tree>) -> bool {
        &&& self.current_path@ == dir
        &&& self.show_hidden_files == prev.show_hidden_files
        &&& self.loaded_from(prev, tree)
    }

    /// A session at `current_path` with nothing loaded yet.
    pub fn new(
        worktree_id: u64,
        current_path: RelPath,
        initial_selected_path: Option<String>,
        original_active_item_id: Option<u64>,
    ) -> (r: Self)
        ensures
            r.worktree_id == worktree_id,
            r.current_path@ == current_path@,
            r.all_entries@.len() == 0,
            r.filtered_entries@.len() == 0,
            r.selected_index == 0,
            !r.show_hidden_files,
            r.initial_selected_path == initial_selected_path,
            r.original_active_item_id == original_active_item_id,
            !r.confirmed,
            r.wf(),
    {
        let r = DirectoryBrowserDelegate {
            worktree_id,
            current_path,
            all_entries: Vec::new(),
            filtered_entries: Vec::new(),
            selected_index: 0,
            show_hidden_files: false,
            initial_selected_path,
            original_active_item_id,
            confirmed: false,
            query: Ghost(Seq::empty()),
        };
        proof {
            reveal(Seq::filter);
            assert(item_views(r.all_entries@) =~= Seq::<BrowseItem>::empty());
            assert(item_views(r.filtered_entries@) =~= Seq::<BrowseItem>::empty());
        }
        r
    }

    /// Lists the current directory anew: every row shown, the cursor on the
    /// row that the hint names (the hint is then spent), else on the first.
    pub fn load_entries(&mut self, tree: Option<&Tree>)
        ensures
            final(self).loaded_from(old(self), tree),
            final(self).current_path == old(self).current_path,
            final(self).show_hidden_files == old(self).show_hidden_files,
    {
        let entries = list_entries(tree, &self.current_path, self.show_hidden_files);
        let filtered = duplicate_rows(&entries);
        let hint = self.initial_selected_path.take();
        let ghost items = item_views(entries@);
        let sel: usize = match &hint {
            Some(target) => match position_named(&entries, target) {
                Some(i) => i,
                None => 0,
            },
            None => 0,
        };
        assert(filtered@.len() == item_views(filtered@).len());
        assert(entries@.len() == items.len());
        self.all_entries = entries;
        self.filtered_entries = filtered;
        self.selected_index = sel;
        self.query = Ghost(Seq::empty());
        proof {
            lemma_filter_empty_query(items);
        }
    }
}


impl DirectoryBrowserDelegate {
    /// Filters the listing by `query`, case-insensitively: the rows whose
    /// display name contains it, in listing order (all rows for the empty
    /// query). The cursor stays, pulled back onto the last row if the list
    /// became shorter. Returns the file to preview at the cursor.
    pub fn update_matches(&mut self, query: &str) -> (r: Option<RelPath>)
        ensures
            item_views(final(self).filtered_entries@) == filter_items(
                item_views(old(self).all_entries@),
                lower_of(query@),
            ),
            final(self).selected_index == clamped(
                old(self).selected_index as int,
                final(self).filtered_entries@.len() as int,
            ),
            final(self).same_listing(old(self)),
            final(self).query@ == lower_of(query@),
            query@.len() == 0 ==> item_views(final(self).filtered_entries@) == item_views(
                old(self).all_entries@,
            ),
            final(self).wf(),
            path_opt(r) == preview_path(
                item_views(final(self).filtered_entries@),
                final(self).selected_index as int,
            ),
    {
        let q = lowercase(query);
        let qc = to_chars(q.as_str());
        let ghost all = item_views(self.all_entries@);
        let mut out: Vec<DirectoryBrowserEntry> = Vec::new();
        let mut i: usize = 0;
        proof {
            reveal(Seq::filter);
            assert(all.take(0) =~= Seq::<BrowseItem>::empty());
            assert(item_views(out@) =~= Seq::<BrowseItem>::empty());
        }
        while i < self.all_entries.len()
            invariant
                all == item_views(self.all_entries@),
                qc@ == lower_of(query@),
                i <= self.all_entries.len(),
                item_views(out@) == filter_items(all.take(i as int), qc@),
            decreases self.all_entries.len() - i,
        {
            let row = &self.all_entries[i];
            let name = row.display_name();
            let lower_name = lowercase(name.as_str());
            let nc = to_chars(lower_name.as_str());
            proof {
                assert(all.take(i + 1) =~= all.take(i as int).push(row@));
                lemma_filter_items_push(all.take(i as int), row@, qc@);
            }
            if contains_chars(&nc, &qc) {
                let b = row.duplicate();
                proof {
                    lemma_item_views_push(out@, b);
                }
                out.push(b);
            }
            i += 1;
        }
        assert(all.take(self.all_entries.len() as int) =~= all);
        proof {
            if query@.len() == 0 {
                assert(qc@ =~= Seq::<char>::empty());
                lemma_filter_empty_query(all);
            }
        }
        assert(out@.len() == item_views(out@).len());
        self.filtered_entries = out;
        self.query = Ghost(qc@);
        if self.selected_index >= self.filtered_entries.len() {
            self.selected_index = if self.filtered_entries.len() > 0 {
                self.filtered_entries.len() - 1
            } else {
                0
            };
        }
        self.preview_entry_at_index(self.selected_index)
    }

    /// The file to preview for row `ix`: its path when the row is a file.
    pub fn preview_entry_at_index(&self, ix: usize) -> (r: Option<RelPath>)
        ensures
            path_opt(r) == preview_path(item_views(self.filtered_entries@), ix as int),
    {
        if ix >= self.filtered_entries.len() {
            return None;
        }
        assert(item_views(self.filtered_entries@)[ix as int] == self.filtered_entries@[ix as int]@);
        match &self.filtered_entries[ix] {
            DirectoryBrowserEntry::ParentDirectory => None,
            DirectoryBrowserEntry::Entry(e) => if e.is_dir() {
                None
            } else {
                Some(e.path.duplicate())
            },
        }
    }

    /// The cursor moved to `ix`: the file to preview there.
    pub fn selected_index_changed(&self, ix: usize) -> (r: Option<RelPath>)
        ensures
            path_opt(r) == preview_path(item_views(self.filtered_entries@), ix as int),
    {
        self.preview_entry_at_index(ix)
    }

    /// Moves up to the parent directory and lists it; at the root, does nothing.
    pub fn navigate_to_parent(&mut self, tree: Option<&Tree>) -> (r: bool)
        ensures
            r == (old(self).current_path@.len() > 0),
            r ==> final(self).moved_to(old(self), old(self).current_path@.drop_last(), tree),
            !r ==> *final(self) == *old(self),
            old(self).wf() ==> final(self).wf(),
    {
        match self.current_path.parent() {
            Some(parent) => {
                self.current_path = parent;
                self.load_entries(tree);
                true
            },
            None => false,
        }
    }

    /// Moves into the directory of `entry` and lists it; for the parent step
    /// or a file, does nothing.
    pub fn navigate_to_entry(&mut self, entry: &DirectoryBrowserEntry, tree: Option<&Tree>) -> (r:
        bool)
        ensures
            r == (entry@ is Concrete && entry@->Concrete_0.is_dir),
            r ==> final(self).moved_to(old(self), entry@->Concrete_0.path, tree),
            !r ==> *final(self) == *old(self),
            old(self).wf() ==> final(self).wf(),
    {
        match entry {
            DirectoryBrowserEntry::Entry(e) => {
                if e.is_dir() {
                    self.current_path = e.path.duplicate();
                    self.load_entries(tree);
                    true
                } else {
                    false
                }
            },
            DirectoryBrowserEntry::ParentDirectory => false,
        }
    }

    /// Acts on the row under the cursor: steps up for the parent step, moves
    /// into a directory, and for a file marks the session confirmed and asks
    /// for the file to be opened (in a split when `secondary`).
    pub fn confirm(&mut self, secondary: bool, tree: Option<&Tree>) -> (r: BrowseAction)
        ensures
            old(self).wf() ==> final(self).wf(),
            ({
                let items = item_views(old(self).filtered_entries@);
                let sel = old(self).selected_index as int;
                if sel >= items.len() {
                    r is Nothing && *final(self) == *old(self)
                } else {
                    match items[sel] {
                        BrowseItem::Parent => if old(self).current_path@.len() > 0 {
                            r is Navigated && final(self).moved_to(
                                old(self),
                                old(self).current_path@.drop_last(),
                                tree,
                            )
                        } else {
                            r is Nothing && *final(self) == *old(self)
                        },
                        BrowseItem::Concrete(e) => if e.is_dir {
                            r is Navigated && final(self).moved_to(old(self), e.path, tree)
                        } else {
                            &&& r is Open
                            &&& r->path@ == e.path
                            &&& r->split == secondary
                            &&& *final(self) == (DirectoryBrowserDelegate {
                                confirmed: true,
                                ..*old(self)
                            })
                        },
                    }
                }
            }),
    {
        if self.selected_index >= self.filtered_entries.len() {
            return BrowseAction::Nothing;
        }
        let entry = self.filtered_entries[self.selected_index].duplicate();
        assert(item_views(self.filtered_entries@)[self.selected_index as int]
            == self.filtered_entries@[self.selected_index as int]@);
        match entry {
            DirectoryBrowserEntry::ParentDirectory => {
                if self.navigate_to_parent(tree) {
                    BrowseAction::Navigated
                } else {
                    BrowseAction::Nothing
                }
            },
            DirectoryBrowserEntry::Entry(e) => {
                if e.is_dir() {
                    self.current_path = e.path;
                    self.load_entries(tree);
                    BrowseAction::Navigated
                } else {
                    self.confirmed = true;
                    BrowseAction::Open { path: e.path, split: secondary }
                }
            },
        }
    }

    /// Puts the cursor on row `ix`.
    pub fn set_selected_index(&mut self, ix: usize)
        requires
            ix < old(self).filtered_entries@.len(),
        ensures
            *final(self) == (DirectoryBrowserDelegate { selected_index: ix, ..*old(self) }),
            old(self).wf() ==> final(self).wf(),
    {
        self.selected_index = ix;
    }

    /// The row under the cursor.
    pub fn selected_index(&self) -> (r: usize)
        ensures
            r == self.selected_index,
    {
        self.selected_index
    }

    /// The number of rows that the query keeps.
    pub fn match_count(&self) -> (r: usize)
        ensures
            r == self.filtered_entries@.len(),
    {
        self.filtered_entries.len()
    }

    /// A separator follows the parent step when it heads the list.
    pub fn separators_after_indices(&self) -> (r: Vec<usize>)
        ensures
            r@ == if self.filtered_entries@.len() > 0 && self.filtered_entries@[0]@ is Parent {
                seq![0usize]
            } else {
                Seq::<usize>::empty()
            },
    {
        let mut r: Vec<usize> = Vec::new();
        if self.filtered_entries.len() > 0 {
            match &self.filtered_entries[0] {
                DirectoryBrowserEntry::ParentDirectory => {
                    r.push(0);
                },
                DirectoryBrowserEntry::Entry(_) => {},
            }
        }
        assert(r@ =~= (if self.filtered_entries@.len() > 0 && self.filtered_entries@[0]@ is Parent {
            seq![0usize]
        } else {
            Seq::<usize>::empty()
        }));
        r
    }

    /// What cancelling asks to undo. Only when no file was opened and live
    /// previews were on: close the previewed item unless it is the one that
    /// was active at the start, and make that one active again.
    pub fn dismissed(&self, live_preview_enabled: bool, preview_item_id: Option<u64>) -> (r:
        DismissPlan)
        ensures
            if !self.confirmed && live_preview_enabled {
                &&& r.close_item == match preview_item_id {
                    Some(p) => if self.original_active_item_id == Some(p) {
                        None
                    } else {
                        Some(p)
                    },
                    None => None,
                }
                &&& r.restore_item == self.original_active_item_id
            } else {
                r.close_item is None && r.restore_item is None
            },
    {
        if self.confirmed || !live_preview_enabled {
            return DismissPlan { close_item: None, restore_item: None };
        }
        let close_item = match preview_item_id {
            Some(p) => match self.original_active_item_id {
                Some(o) => if o == p {
                    None
                } else {
                    Some(p)
                },
                None => Some(p),
            },
            None => None,
        };
        DismissPlan { close_item, restore_item: self.original_active_item_id }
    }
}


/// The name under which the current directory is shown: its last component,
/// else the tree's root name, else `.`.
pub open spec fn display_path_of(path: Seq<Seq<char>>, root_name: Option<&str>) -> Seq<char> {
    if path.len() > 0 {
        path.last()
    } else {
        match root_name {
            Some(n) => n@,
            None => seq!['.'],
        }
    }
}

/// The label of a row: `parent directory` for the step up, else the name,
/// with a trailing `/` for a directory.
pub open spec fn label_of(item: BrowseItem) -> Seq<char> {
    match item {
        BrowseItem::Parent => "parent directory"@,
        BrowseItem::Concrete(e) => if e.is_dir {
            display_name_of(item) + seq!['/']
        } else {
            display_name_of(item)
        },
    }
}

impl DirectoryBrowserDelegate {
    /// The name under which the current directory is shown.
    pub fn display_path(&self, root_name: Option<&str>) -> (r: String)
        ensures
            r@ == display_path_of(self.current_path@, root_name),
    {
        match self.current_path.file_name() {
            Some(name) => name,
            None => match root_name {
                Some(n) => n.to_owned(),
                None => {
                    proof {
                        reveal_strlit(".");
                    }
                    ".".to_owned()
                },
            },
        }
    }

    /// The hint shown in the empty query field.
    pub fn placeholder_text(&self, root_name: Option<&str>) -> (r: String)
        ensures
            r@ == "Search in "@ + display_path_of(self.current_path@, root_name) + "/"@,
    {
        let mut text = "Search in ".to_owned();
        let name = self.display_path(root_name);
        text.append(name.as_str());
        text.append("/");
        text
    }

    /// The label of row `ix`, if there is such a row.
    pub fn match_label(&self, ix: usize) -> (r: Option<String>)
        ensures
            ix < self.filtered_entries@.len() ==> r is Some && r->0@ == label_of(
                self.filtered_entries@[ix as int]@,
            ),
            ix >= self.filtered_entries@.len() ==> r is None,
    {
        if ix >= self.filtered_entries.len() {
            return None;
        }
        let row = &self.filtered_entries[ix];
        match row {
            DirectoryBrowserEntry::ParentDirectory => Some("parent directory".to_owned()),
            DirectoryBrowserEntry::Entry(e) => {
                let mut name = row.display_name();
                if e.is_dir() {
                    proof {
                        reveal_strlit("/");
                    }
                    name.append("/");
                }
                Some(name)
            },
        }
    }
}

} // verus!
