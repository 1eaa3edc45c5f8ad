use vstd::prelude::*;
use vstd::string::*;

use crate::rel_path::{
    lemma_path_lt_irreflexive, lemma_path_lt_total, lemma_path_lt_transitive, path_less, path_lt,
    RelPath,
};
use crate::tree::{children_of, is_child_of, entry_views, lemma_entry_views_push, Entry, EntryView, Tree};

verus! {

broadcast use {vstd::seq_lib::group_seq_lib_default, vstd::seq_lib::group_to_multiset_ensures};

/// What a row of a directory listing is, mathematically.
pub enum BrowseItem {
    Parent,
    Concrete(EntryView),
}

/// A row of a directory listing: the synthetic step up to the parent
/// directory, or an entry of the tree.
pub enum DirectoryBrowserEntry {
    ParentDirectory,
    Entry(Entry),
}

impl View for DirectoryBrowserEntry {
    type V = BrowseItem;

    open spec fn view(&self) -> BrowseItem {
        match self {
            DirectoryBrowserEntry::ParentDirectory => BrowseItem::Parent,
            DirectoryBrowserEntry::Entry(e) => BrowseItem::Concrete(e@),
        }
    }
}

/// The views of a sequence of rows.
pub open spec fn item_views(s: Seq<DirectoryBrowserEntry>) -> Seq<BrowseItem> {
    s.map_values(|b: DirectoryBrowserEntry| b@)
}

pub proof fn lemma_item_views_push(s: Seq<DirectoryBrowserEntry>, b: DirectoryBrowserEntry)
    ensures
        item_views(s.push(b)) == item_views(s).push(b@),
{
    assert(item_views(s.push(b)) =~= item_views(s).push(b@));
}

/// The last component of a path, empty for the root.
pub open spec fn name_of(p: Seq<Seq<char>>) -> Seq<char> {
    if p.len() > 0 {
        p.last()
    } else {
        Seq::empty()
    }
}

/// A path is hidden when its last component starts with a dot.
pub open spec fn is_hidden_path(p: Seq<Seq<char>>) -> bool {
    name_of(p).len() > 0 && name_of(p)[0] == '.'
}

/// The name under which a row is shown and matched: `..` for the parent
/// step, else the entry's last component (`.` for the root itself).
pub open spec fn display_name_of(item: BrowseItem) -> Seq<char> {
    match item {
        BrowseItem::Parent => seq!['.', '.'],
        BrowseItem::Concrete(e) => if e.path.len() > 0 {
            e.path.last()
        } else {
            seq!['.']
        },
    }
}

/// The entries that a listing shows: all of them, or those not hidden.
pub open spec fn visible(s: Seq<EntryView>, show_hidden: bool) -> Seq<EntryView> {
    s.filter(|e: EntryView| show_hidden || !is_hidden_path(e.path))
}

/// The directories among `s`, in order.
pub open spec fn dirs_of(s: Seq<EntryView>) -> Seq<EntryView> {
    s.filter(|e: EntryView| e.is_dir)
}

/// The files among `s`, in order.
pub open spec fn files_of(s: Seq<EntryView>) -> Seq<EntryView> {
    s.filter(|e: EntryView| !e.is_dir)
}

/// No entry of `s` comes after a later one in path order.
pub open spec fn sorted_by_path(s: Seq<EntryView>) -> bool {
    forall|i: int, j: int| 0 <= i < j < s.len() ==> !path_lt(#[trigger] s[j].path, #[trigger] s[i].path)
}

/// `out` holds the entries of `input`, each as often, sorted by path.
pub open spec fn is_sorting_of(out: Seq<EntryView>, input: Seq<EntryView>) -> bool {
    sorted_by_path(out) && out.to_multiset() == input.to_multiset()
}

/// Entries as rows of a listing.
pub open spec fn concrete_items(s: Seq<EntryView>) -> Seq<BrowseItem> {
    s.map_values(|e: EntryView| BrowseItem::Concrete(e))
}

/// The parent step that heads the listing of any directory but the root.
pub open spec fn parent_part(dir: Seq<Seq<char>>) -> Seq<BrowseItem> {
    if dir.len() > 0 {
        seq![BrowseItem::Parent]
    } else {
        Seq::empty()
    }
}

/// The children of `dir` in `tree` that a listing shows.
pub open spec fn shown_children(tree: Seq<EntryView>, dir: Seq<Seq<char>>, show_hidden: bool) -> Seq<
    EntryView,
> {
    visible(children_of(tree, dir), show_hidden)
}

/// `out` is the listing of `dir`: the parent step unless `dir` is the root,
/// then the shown child directories sorted by path, then the shown child
/// files sorted by path.
pub open spec fn is_listing(
    tree: Seq<EntryView>,
    dir: Seq<Seq<char>>,
    show_hidden: bool,
    out: Seq<BrowseItem>,
) -> bool {
    exists|d: Seq<EntryView>, f: Seq<EntryView>|
        #![trigger is_sorting_of(d, dirs_of(shown_children(tree, dir, show_hidden))), is_sorting_of(f, files_of(shown_children(tree, dir, show_hidden)))]
        is_sorting_of(d, dirs_of(shown_children(tree, dir, show_hidden))) && is_sorting_of(
            f,
            files_of(shown_children(tree, dir, show_hidden)),
        ) && out == parent_part(dir) + concrete_items(d) + concrete_items(f)
}

proof fn lemma_visible_push(s: Seq<EntryView>, e: EntryView, show_hidden: bool)
    ensures
        visible(s.push(e), show_hidden) == if show_hidden || !is_hidden_path(e.path) {
            visible(s, show_hidden).push(e)
        } else {
            visible(s, show_hidden)
        },
{
    reveal(Seq::filter);
    assert(s.push(e).drop_last() =~= s);
}

proof fn lemma_dirs_files_push(s: Seq<EntryView>, e: EntryView)
    ensures
        dirs_of(s.push(e)) == if e.is_dir {
            dirs_of(s).push(e)
        } else {
            dirs_of(s)
        },
        files_of(s.push(e)) == if !e.is_dir {
            files_of(s).push(e)
        } else {
            files_of(s)
        },
{
    reveal(Seq::filter);
    assert(s.push(e).drop_last() =~= s);
}

impl DirectoryBrowserEntry {
    /// The name under which this row is shown and matched.
    pub fn display_name(&self) -> (r: String)
        ensures
            r@ == display_name_of(self@),
    {
        match self {
            DirectoryBrowserEntry::ParentDirectory => {
                proof {
                    reveal_strlit("..");
                }
                "..".to_owned()
            },
            DirectoryBrowserEntry::Entry(e) => match e.path.file_name() {
                Some(name) => name,
                None => {
                    proof {
                        reveal_strlit(".");
                    }
                    ".".to_owned()
                },
            },
        }
    }

    /// A copy of this row.
    pub fn duplicate(&self) -> (r: DirectoryBrowserEntry)
        ensures
            r@ == self@,
    {
        match self {
            DirectoryBrowserEntry::ParentDirectory => DirectoryBrowserEntry::ParentDirectory,
            DirectoryBrowserEntry::Entry(e) => DirectoryBrowserEntry::Entry(e.duplicate()),
        }
    }
}

/// Whether the entry's last path component starts with a dot.
pub fn is_hidden(entry: &Entry) -> (r: bool)
    ensures
        r == is_hidden_path(entry@.path),
{
    match entry.path.file_name() {
        None => false,
        Some(name) => name.as_str().unicode_len() > 0 && name.as_str().get_char(0) == '.',
    }
}

/// The entries of `v` sorted by path.
pub fn sort_by_path(v: Vec<Entry>) -> (r: Vec<Entry>)
    ensures
        is_sorting_of(entry_views(r@), entry_views(v@)),
{
    let mut out: Vec<Entry> = Vec::new();
    let mut i: usize = 0;
    assert(entry_views(out@) =~= entry_views(v@).take(0));
    while i < v.len()
        invariant
            i <= v.len(),
            sorted_by_path(entry_views(out@)),
            entry_views(out@).to_multiset() == entry_views(v@).take(i as int).to_multiset(),
        decreases v.len() - i,
    {
        let x = v[i].duplicate();
        let mut j: usize = 0;
        while j < out.len() && !path_less(&x.path, &out[j].path)
            invariant
                j <= out.len(),
                forall|k: int| 0 <= k < j ==> !path_lt(x@.path, #[trigger] out@[k]@.path),
            decreases out.len() - j,
        {
            j += 1;
        }
        let ghost old_views = entry_views(out@);
        proof {
            assert forall|k: int| j <= k < old_views.len() implies !path_lt(
                #[trigger] old_views[k].path,
                x@.path,
            ) by {
                if path_lt(old_views[k].path, x@.path) {
                    lemma_path_lt_transitive(old_views[k].path, x@.path, old_views[j as int].path);
                    if k == j {
                        lemma_path_lt_irreflexive(old_views[k].path);
                    }
                }
            }
        }
        out.insert(j, x);
        proof {
            let nv = entry_views(out@);
            assert(nv =~= old_views.insert(j as int, x@));
            assert(sorted_by_path(nv)) by {
                assert forall|a: int, b: int| 0 <= a < b < nv.len() implies !path_lt(
                    #[trigger] nv[b].path,
                    #[trigger] nv[a].path,
                ) by {
                    if b < j {
                    } else if b == j {
                    } else if a < j {
                        assert(nv[b] == old_views[b - 1]);
                        assert(nv[a] == old_views[a]);
                    } else if a == j {
                        assert(nv[b] == old_views[b - 1]);
                    } else {
                        assert(nv[b] == old_views[b - 1]);
                        assert(nv[a] == old_views[a - 1]);
                    }
                }
            }
            assert(entry_views(v@).take(i + 1) =~= entry_views(v@).take(i as int).push(v@[i as int]@));
        }
        i += 1;
    }
    assert(entry_views(v@).take(v.len() as int) =~= entry_views(v@));
    out
}

/// Appends the entries of `v` to `out` as rows.
fn push_concrete(out: &mut Vec<DirectoryBrowserEntry>, v: &Vec<Entry>)
    ensures
        item_views(final(out)@) == item_views(old(out)@) + concrete_items(entry_views(v@)),
{
    let ghost start = item_views(out@);
    let mut i: usize = 0;
    assert(concrete_items(entry_views(v@).take(0)) =~= Seq::<BrowseItem>::empty());
    while i < v.len()
        invariant
            i <= v.len(),
            item_views(out@) == start + concrete_items(entry_views(v@).take(i as int)),
        decreases v.len() - i,
    {
        let row = DirectoryBrowserEntry::Entry(v[i].duplicate());
        proof {
            lemma_item_views_push(out@, row);
            assert(concrete_items(entry_views(v@).take(i + 1)) =~= concrete_items(
                entry_views(v@).take(i as int),
            ).push(row@));
        }
        out.push(row);
        i += 1;
    }
    assert(entry_views(v@).take(v.len() as int) =~= entry_views(v@));
}

/// The listing of `dir` in `tree`: a parent step unless `dir` is the root,
/// then the child directories and then the child files, each group sorted by
/// path, hidden children left out unless `show_hidden`. A tree that is not
/// there yet lists nothing.
pub fn list_entries(tree: Option<&Tree>, dir: &RelPath, show_hidden: bool) -> (r: Vec<
    DirectoryBrowserEntry,
>)
    ensures
        match tree {
            Some(t) => is_listing(t@, dir@, show_hidden, item_views(r@)),
            None => r@.len() == 0,
        },
{
    let t = match tree {
        Some(t) => t,
        None => {
            return Vec::new();
        },
    };
    let children = t.child_entries(dir);
    let ghost shown = shown_children(t@, dir@, show_hidden);
    let mut dirs: Vec<Entry> = Vec::new();
    let mut files: Vec<Entry> = Vec::new();
    let mut i: usize = 0;
    assert(entry_views(children@).take(0) =~= Seq::<EntryView>::empty());
    assert(entry_views(dirs@) =~= Seq::<EntryView>::empty());
    while i < children.len()
        invariant
            i <= children.len(),
            entry_views(children@) == children_of(t@, dir@),
            entry_views(dirs@) == dirs_of(visible(entry_views(children@).take(i as int), show_hidden)),
            entry_views(files@) == files_of(visible(entry_views(children@).take(i as int), show_hidden)),
        decreases children.len() - i,
    {
        let e = &children[i];
        let ghost pre = entry_views(children@).take(i as int);
        proof {
            assert(entry_views(children@).take(i + 1) =~= pre.push(e@));
            lemma_visible_push(pre, e@, show_hidden);
            lemma_dirs_files_push(visible(pre, show_hidden), e@);
        }
        if show_hidden || !is_hidden(e) {
            if e.is_dir() {
                let c = e.duplicate();
                proof {
                    lemma_entry_views_push(dirs@, c);
                }
                dirs.push(c);
            } else {
                let c = e.duplicate();
                proof {
                    lemma_entry_views_push(files@, c);
                }
                files.push(c);
            }
        }
        i += 1;
    }
    assert(entry_views(children@).take(children.len() as int) =~= entry_views(children@));
    let sorted_dirs = sort_by_path(dirs);
    let sorted_files = sort_by_path(files);
    let mut out: Vec<DirectoryBrowserEntry> = Vec::new();
    if !dir.is_empty() {
        out.push(DirectoryBrowserEntry::ParentDirectory);
    }
    assert(item_views(out@) =~= parent_part(dir@));
    push_concrete(&mut out, &sorted_dirs);
    push_concrete(&mut out, &sorted_files);
    assert(is_sorting_of(entry_views(sorted_dirs@), dirs_of(shown)));
    assert(is_sorting_of(entry_views(sorted_files@), files_of(shown)));
    out
}

/// Two sorted sequences of entries of one kind that hold the same entries
/// are the same sequence.
proof fn lemma_sorting_unique(s1: Seq<EntryView>, s2: Seq<EntryView>, kind: bool)
    requires
        sorted_by_path(s1),
        sorted_by_path(s2),
        s1.to_multiset() == s2.to_multiset(),
        forall|i: int| 0 <= i < s1.len() ==> (#[trigger] s1[i]).is_dir == kind,
        forall|i: int| 0 <= i < s2.len() ==> (#[trigger] s2[i]).is_dir == kind,
    ensures
        s1 == s2,
    decreases s1.len(),
{
    if s1.len() == 0 {
        assert(s1.to_multiset().len() == s1.len());
        assert(s2.to_multiset().len() == s2.len());
        assert(s1 =~= s2);
    } else {
        let a = s1[0];
        let b = s2[0];
        assert(s1.contains(a));
        assert(s1.to_multiset().count(a) > 0);
        assert(s2.contains(a));
        assert(s2.to_multiset().len() == s2.len());
        assert(s1.to_multiset().len() == s1.len());
        assert(s2.contains(b));
        assert(s2.to_multiset().count(b) > 0);
        assert(s1.contains(b));
        let m = choose|m: int| 0 <= m < s2.len() && s2[m] == a;
        let n = choose|n: int| 0 <= n < s1.len() && s1[n] == b;
        if m > 0 {
            assert(!path_lt(s2[m].path, s2[0].path));
        }
        if n > 0 {
            assert(!path_lt(s1[n].path, s1[0].path));
        }
        if a.path != b.path {
            lemma_path_lt_total(a.path, b.path);
        }
        assert(a == b);
        assert(s1.remove(0) =~= s1.drop_first());
        assert(s2.remove(0) =~= s2.drop_first());
        assert(s1.remove(0).to_multiset() == s1.to_multiset().remove(a));
        assert(s2.remove(0).to_multiset() == s2.to_multiset().remove(b));
        let t1 = s1.drop_first();
        let t2 = s2.drop_first();
        assert forall|i: int| 0 <= i < t1.len() implies (#[trigger] t1[i]).is_dir == kind by {
            assert(t1[i] == s1[i + 1]);
        }
        assert forall|i: int| 0 <= i < t2.len() implies (#[trigger] t2[i]).is_dir == kind by {
            assert(t2[i] == s2[i + 1]);
        }
        assert forall|i: int, j: int| 0 <= i < j < t1.len() implies !path_lt(
            #[trigger] t1[j].path,
            #[trigger] t1[i].path,
        ) by {
            assert(t1[j] == s1[j + 1] && t1[i] == s1[i + 1]);
        }
        assert forall|i: int, j: int| 0 <= i < j < t2.len() implies !path_lt(
            #[trigger] t2[j].path,
            #[trigger] t2[i].path,
        ) by {
            assert(t2[j] == s2[j + 1] && t2[i] == s2[i + 1]);
        }
        lemma_sorting_unique(t1, t2, kind);
        assert(s1 =~= s2) by {
            assert forall|i: int| 0 <= i < s1.len() implies s1[i] == s2[i] by {
                if i > 0 {
                    assert(s1[i] == t1[i - 1]);
                    assert(s2[i] == t2[i - 1]);
                }
            }
        }
    }
}

/// Every entry of a sorting of `input` is an entry of `input`.
proof fn lemma_sorting_members(d: Seq<EntryView>, input: Seq<EntryView>)
    requires
        d.to_multiset() == input.to_multiset(),
    ensures
        forall|i: int| 0 <= i < d.len() ==> input.contains(#[trigger] d[i]),
{
    assert forall|i: int| 0 <= i < d.len() implies input.contains(#[trigger] d[i]) by {
        assert(d.contains(d[i]));
        assert(d.to_multiset().count(d[i]) > 0);
    }
}

/// What every entry row of a listing is: a shown child of the directory,
/// of the group that it stands in.
proof fn lemma_listing_members(
    tree: Seq<EntryView>,
    dir: Seq<Seq<char>>,
    show_hidden: bool,
    d: Seq<EntryView>,
    f: Seq<EntryView>,
)
    requires
        is_sorting_of(d, dirs_of(shown_children(tree, dir, show_hidden))),
        is_sorting_of(f, files_of(shown_children(tree, dir, show_hidden))),
    ensures
        forall|i: int| 0 <= i < d.len() ==> (#[trigger] d[i]).is_dir && shown_children(tree, dir, show_hidden).contains(d[i]),
        forall|i: int| 0 <= i < f.len() ==> !(#[trigger] f[i]).is_dir && shown_children(tree, dir, show_hidden).contains(f[i]),
{
    let shown = shown_children(tree, dir, show_hidden);
    lemma_sorting_members(d, dirs_of(shown));
    lemma_sorting_members(f, files_of(shown));
    assert forall|i: int| 0 <= i < d.len() implies (#[trigger] d[i]).is_dir && shown.contains(d[i]) by {
        let k = choose|k: int| 0 <= k < dirs_of(shown).len() && dirs_of(shown)[k] == d[i];
        shown.lemma_filter_contains_rev(|e: EntryView| e.is_dir, d[i]);
    }
    assert forall|i: int| 0 <= i < f.len() implies !(#[trigger] f[i]).is_dir && shown.contains(f[i]) by {
        let k = choose|k: int| 0 <= k < files_of(shown).len() && files_of(shown)[k] == f[i];
        shown.lemma_filter_contains_rev(|e: EntryView| !e.is_dir, f[i]);
    }
}

/// A directory has one listing: two listings of the same directory of the
/// same tree, with the same choice on hidden entries, are equal.
pub proof fn lemma_listing_unique(
    tree: Seq<EntryView>,
    dir: Seq<Seq<char>>,
    show_hidden: bool,
    a: Seq<BrowseItem>,
    b: Seq<BrowseItem>,
)
    requires
        is_listing(tree, dir, show_hidden, a),
        is_listing(tree, dir, show_hidden, b),
    ensures
        a == b,
{
    let shown = shown_children(tree, dir, show_hidden);
    let (d1, f1) = choose|d: Seq<EntryView>, f: Seq<EntryView>|
        is_sorting_of(d, dirs_of(shown)) && is_sorting_of(f, files_of(shown)) && a == parent_part(dir)
            + concrete_items(d) + concrete_items(f);
    let (d2, f2) = choose|d: Seq<EntryView>, f: Seq<EntryView>|
        is_sorting_of(d, dirs_of(shown)) && is_sorting_of(f, files_of(shown)) && b == parent_part(dir)
            + concrete_items(d) + concrete_items(f);
    lemma_listing_members(tree, dir, show_hidden, d1, f1);
    lemma_listing_members(tree, dir, show_hidden, d2, f2);
    lemma_sorting_unique(d1, d2, true);
    lemma_sorting_unique(f1, f2, false);
}

/// The rows of `parent_part(dir) + concrete_items(d) + concrete_items(f)`, one by one.
proof fn lemma_listing_index(dir: Seq<Seq<char>>, d: Seq<EntryView>, f: Seq<EntryView>)
    ensures
        ({
            let out = parent_part(dir) + concrete_items(d) + concrete_items(f);
            let k = parent_part(dir).len();
            &&& k == (if dir.len() > 0 { 1int } else { 0int })
            &&& out.len() == k + d.len() + f.len()
            &&& forall|i: int| 0 <= i < k ==> out[i] == BrowseItem::Parent
            &&& forall|i: int|
                k <= i < k + d.len() ==> out[i] == BrowseItem::Concrete(#[trigger] d[i - k])
            &&& forall|i: int|
                k + d.len() <= i < out.len() ==> out[i] == BrowseItem::Concrete(
                    #[trigger] f[i - k - d.len()],
                )
        }),
{
}

/// The rows of a listing, with the two sorted groups that make them up.
proof fn listing_parts(
    tree: Seq<EntryView>,
    dir: Seq<Seq<char>>,
    show_hidden: bool,
    out: Seq<BrowseItem>,
) -> (r: (Seq<EntryView>, Seq<EntryView>))
    requires
        is_listing(tree, dir, show_hidden, out),
    ensures
        is_sorting_of(r.0, dirs_of(shown_children(tree, dir, show_hidden))),
        is_sorting_of(r.1, files_of(shown_children(tree, dir, show_hidden))),
        out == parent_part(dir) + concrete_items(r.0) + concrete_items(r.1),
        forall|i: int| 0 <= i < r.0.len() ==> (#[trigger] r.0[i]).is_dir && shown_children(tree, dir, show_hidden).contains(r.0[i]),
        forall|i: int| 0 <= i < r.1.len() ==> !(#[trigger] r.1[i]).is_dir && shown_children(tree, dir, show_hidden).contains(r.1[i]),
{
    let shown = shown_children(tree, dir, show_hidden);
    let (d, f) = choose|d: Seq<EntryView>, f: Seq<EntryView>|
        is_sorting_of(d, dirs_of(shown)) && is_sorting_of(f, files_of(shown)) && out == parent_part(dir)
            + concrete_items(d) + concrete_items(f);
    lemma_listing_members(tree, dir, show_hidden, d, f);
    lemma_listing_index(dir, d, f);
    (d, f)
}

/// Without hidden entries shown, no row of a listing is a hidden entry.
pub proof fn lemma_hidden_entries_left_out(
    tree: Seq<EntryView>,
    dir: Seq<Seq<char>>,
    out: Seq<BrowseItem>,
)
    requires
        is_listing(tree, dir, false, out),
    ensures
        forall|i: int|
            0 <= i < out.len() && (#[trigger] out[i]) is Concrete ==> !is_hidden_path(
                out[i]->Concrete_0.path,
            ),
{
    let (d, f) = listing_parts(tree, dir, false, out);
    lemma_listing_index(dir, d, f);
    let shown = shown_children(tree, dir, false);
    assert forall|i: int| 0 <= i < out.len() && (#[trigger] out[i]) is Concrete implies !is_hidden_path(
        out[i]->Concrete_0.path,
    ) by {
        let e = out[i]->Concrete_0;
        assert(shown.contains(e));
        let k = choose|k: int| 0 <= k < shown.len() && shown[k] == e;
    }
}

/// With hidden entries shown, every child of the directory is a row of its listing.
pub proof fn lemma_show_hidden_lists_all(
    tree: Seq<EntryView>,
    dir: Seq<Seq<char>>,
    out: Seq<BrowseItem>,
)
    requires
        is_listing(tree, dir, true, out),
    ensures
        forall|e: EntryView|
            #[trigger] children_of(tree, dir).contains(e) ==> out.contains(BrowseItem::Concrete(e)),
{
    let (d, f) = listing_parts(tree, dir, true, out);
    lemma_listing_index(dir, d, f);
    let shown = shown_children(tree, dir, true);
    let kp = parent_part(dir).len();
    assert forall|e: EntryView|
        #[trigger] children_of(tree, dir).contains(e) implies out.contains(BrowseItem::Concrete(e)) by {
        let c = children_of(tree, dir);
        let k = choose|k: int| 0 <= k < c.len() && c[k] == e;
        assert(shown.contains(c[k]));
        let m = choose|m: int| 0 <= m < shown.len() && shown[m] == e;
        if e.is_dir {
            assert(dirs_of(shown).contains(shown[m]));
            assert(dirs_of(shown).to_multiset().count(e) > 0);
            assert(d.to_multiset().count(e) > 0);
            let j = choose|j: int| 0 <= j < d.len() && d[j] == e;
            assert(out[kp + j] == BrowseItem::Concrete(d[j]));
        } else {
            assert(files_of(shown).contains(shown[m]));
            assert(files_of(shown).to_multiset().count(e) > 0);
            assert(f.to_multiset().count(e) > 0);
            let j = choose|j: int| 0 <= j < f.len() && f[j] == e;
            assert(out[kp + d.len() + j] == BrowseItem::Concrete(f[j]));
        }
    }
}

/// Changing the choice on hidden entries twice gives back the listing that
/// was there before: `before` lists with `show_hidden`, `between` with the
/// other choice, `after` with the choice changed back.
pub proof fn lemma_toggle_hidden_twice(
    tree: Seq<EntryView>,
    dir: Seq<Seq<char>>,
    show_hidden: bool,
    before: Seq<BrowseItem>,
    between: Seq<BrowseItem>,
    after: Seq<BrowseItem>,
)
    requires
        is_listing(tree, dir, show_hidden, before),
        is_listing(tree, dir, !show_hidden, between),
        is_listing(tree, dir, !(!show_hidden), after),
    ensures
        after == before,
{
    lemma_listing_unique(tree, dir, show_hidden, before, after);
}

/// No path component in the tree is `..`.
pub open spec fn names_valid(tree: Seq<EntryView>) -> bool {
    forall|i: int| 0 <= i < tree.len() && (#[trigger] tree[i]).path.len() > 0 ==> tree[i].path.last() != seq!['.', '.']
}

/// The parent step heads the listing exactly when the directory is not the
/// root, appears nowhere else, and (in a tree with no `..` component) is the
/// only row named `..`.
pub proof fn lemma_parent_marker(
    tree: Seq<EntryView>,
    dir: Seq<Seq<char>>,
    show_hidden: bool,
    out: Seq<BrowseItem>,
)
    requires
        is_listing(tree, dir, show_hidden, out),
    ensures
        dir.len() > 0 <==> (out.len() > 0 && out[0] == BrowseItem::Parent),
        forall|i: int| 0 < i < out.len() ==> #[trigger] out[i] != BrowseItem::Parent,
        names_valid(tree) ==> forall|i: int|
            0 <= i < out.len() && display_name_of(#[trigger] out[i]) == seq!['.', '.'] ==> out[i]
                == BrowseItem::Parent,
{
    let (d, f) = listing_parts(tree, dir, show_hidden, out);
    lemma_listing_index(dir, d, f);
    let shown = shown_children(tree, dir, show_hidden);
    if names_valid(tree) {
        assert forall|i: int|
            0 <= i < out.len() && display_name_of(#[trigger] out[i]) == seq!['.', '.'] implies out[i]
            == BrowseItem::Parent by {
            if out[i] is Concrete {
                let e = out[i]->Concrete_0;
                assert(shown.contains(e));
                let c = children_of(tree, dir);
                c.lemma_filter_contains_rev(|x: EntryView| show_hidden || !is_hidden_path(x.path), e);
                tree.lemma_filter_contains_rev(|x: EntryView| crate::tree::is_child_of(x.path, dir), e);
                let m = choose|m: int| 0 <= m < c.len() && c[m] == e;
                let k = choose|k: int| 0 <= k < tree.len() && tree[k] == e;
                assert(e.path.len() > 0);
                assert(tree[k].path.len() > 0);
            }
        }
    }
}

/// In a listing, every directory row comes before every file row, and within
/// each group the rows are in path order.
pub proof fn lemma_listing_order(
    tree: Seq<EntryView>,
    dir: Seq<Seq<char>>,
    show_hidden: bool,
    out: Seq<BrowseItem>,
)
    requires
        is_listing(tree, dir, show_hidden, out),
    ensures
        forall|i: int, j: int|
            0 <= i < j < out.len() && (#[trigger] out[i]) is Concrete && (#[trigger] out[j]) is Concrete
                ==> {
                let a = out[i]->Concrete_0;
                let b = out[j]->Concrete_0;
                &&& (!a.is_dir ==> !b.is_dir)
                &&& (a.is_dir == b.is_dir ==> !path_lt(b.path, a.path))
            },
{
    let (d, f) = listing_parts(tree, dir, show_hidden, out);
    lemma_listing_index(dir, d, f);
    let kp = parent_part(dir).len();
    assert forall|i: int, j: int|
        0 <= i < j < out.len() && (#[trigger] out[i]) is Concrete && (#[trigger] out[j]) is Concrete
            implies {
            let a = out[i]->Concrete_0;
            let b = out[j]->Concrete_0;
            &&& (!a.is_dir ==> !b.is_dir)
            &&& (a.is_dir == b.is_dir ==> !path_lt(b.path, a.path))
        } by {
        if j < kp + d.len() {
            assert(out[i] == BrowseItem::Concrete(d[i - kp]));
            assert(out[j] == BrowseItem::Concrete(d[j - kp]));
        } else if i >= kp + d.len() {
            assert(out[i] == BrowseItem::Concrete(f[i - kp - d.len()]));
            assert(out[j] == BrowseItem::Concrete(f[j - kp - d.len()]));
        } else {
            assert(out[i] == BrowseItem::Concrete(d[i - kp]));
            assert(out[j] == BrowseItem::Concrete(f[j - kp - d.len()]));
        }
    }
}

/// Every entry row of a listing is a child of the listed directory.
pub proof fn lemma_listing_rows_are_children(
    tree: Seq<EntryView>,
    dir: Seq<Seq<char>>,
    show_hidden: bool,
    out: Seq<BrowseItem>,
)
    requires
        is_listing(tree, dir, show_hidden, out),
    ensures
        forall|i: int|
            0 <= i < out.len() && (#[trigger] out[i]) is Concrete ==> is_child_of(
                out[i]->Concrete_0.path,
                dir,
            ),
{
    let (d, f) = listing_parts(tree, dir, show_hidden, out);
    lemma_listing_index(dir, d, f);
    let shown = shown_children(tree, dir, show_hidden);
    let c = children_of(tree, dir);
    assert forall|i: int| 0 <= i < out.len() && (#[trigger] out[i]) is Concrete implies is_child_of(
        out[i]->Concrete_0.path,
        dir,
    ) by {
        let e = out[i]->Concrete_0;
        assert(shown.contains(e));
        c.lemma_filter_contains_rev(|x: EntryView| show_hidden || !is_hidden_path(x.path), e);
        let m = choose|m: int| 0 <= m < c.len() && c[m] == e;
    }
}

/// Moving into a directory of a listing and back up to its parent gives the
/// listing that was there before.
pub proof fn lemma_enter_then_leave(
    tree: Seq<EntryView>,
    dir: Seq<Seq<char>>,
    show_hidden: bool,
    before: Seq<BrowseItem>,
    entered: EntryView,
    after: Seq<BrowseItem>,
)
    requires
        is_listing(tree, dir, show_hidden, before),
        before.contains(BrowseItem::Concrete(entered)),
        entered.is_dir,
        is_listing(tree, entered.path.drop_last(), show_hidden, after),
    ensures
        after == before,
{
    lemma_listing_rows_are_children(tree, dir, show_hidden, before);
    let i = choose|i: int| 0 <= i < before.len() && before[i] == BrowseItem::Concrete(entered);
    assert(before[i] is Concrete);
    assert(entered.path.drop_last() =~= entered.path.take(dir.len() as int));
    lemma_listing_unique(tree, dir, show_hidden, before, after);
}

/// A directory other than the root with no children lists the parent step alone.
pub proof fn lemma_empty_directory_listing(
    tree: Seq<EntryView>,
    dir: Seq<Seq<char>>,
    show_hidden: bool,
    out: Seq<BrowseItem>,
)
    requires
        is_listing(tree, dir, show_hidden, out),
        dir.len() > 0,
        children_of(tree, dir).len() == 0,
    ensures
        out == seq![BrowseItem::Parent],
{
    let (d, f) = listing_parts(tree, dir, show_hidden, out);
    let shown = shown_children(tree, dir, show_hidden);
    assert(d.len() == 0) by {
        assert(d.to_multiset().len() == d.len());
        assert(dirs_of(shown).to_multiset().len() == dirs_of(shown).len());
    }
    assert(f.len() == 0) by {
        assert(f.to_multiset().len() == f.len());
        assert(files_of(shown).to_multiset().len() == files_of(shown).len());
    }
    assert(out =~= seq![BrowseItem::Parent]);
}

} // verus!
