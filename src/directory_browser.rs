use vstd::prelude::*;

use crate::browser::{initial_selection, preview_path, DirectoryBrowserDelegate};
use crate::listing::{is_listing, item_views, DirectoryBrowserEntry};
use crate::rel_path::RelPath;
use crate::tree::Tree;

verus! {

/// A path inside one tree of a project.
pub struct ProjectPath {
    pub worktree_id: u64,
    pub path: RelPath,
}

/// Where browsing starts: a tree, a directory in it, and the file name to
/// put the cursor on.
pub struct BrowseLocation {
    pub worktree_id: u64,
    pub current_path: RelPath,
    pub initial_selected_path: Option<String>,
}

/// The side on which a file opens in a split.
pub enum SplitDirection {
    Left,
    Right,
    Up,
    Down,
}

/// A file to open in a split on the given side.
pub struct SplitOpen {
    pub path: RelPath,
    pub direction: SplitDirection,
}

/// `r` is the file under the cursor, to open on side `direction`, or `None`
/// when the cursor is not on a file.
pub open spec fn is_split_of(r: Option<SplitOpen>, d: &DirectoryBrowserDelegate, direction: SplitDirection) -> bool {
    match preview_path(item_views(d.filtered_entries@), d.selected_index as int) {
        Some(p) => r is Some && r->0.path@ == p && r->0.direction == direction,
        None => r is None,
    }
}

/// A browsing session, as the host's actions drive it.
pub struct DirectoryBrowser {
    pub delegate: DirectoryBrowserDelegate,
}

impl DirectoryBrowser {
    /// Where browsing starts. With an active item that has a path: the item's
    /// directory, with the cursor on the item's file. With an active item that
    /// has none: nowhere. With no active item: the root of the first tree, if
    /// there is one.
    pub fn open(active_item: Option<Option<ProjectPath>>, first_worktree_id: Option<u64>) -> (r:
        Option<BrowseLocation>)
        ensures
            match active_item {
                Some(Some(pp)) => {
                    &&& r is Some
                    &&& r->0.worktree_id == pp.worktree_id
                    &&& pp.path@.len() > 0 ==> r->0.current_path@ == pp.path@.drop_last()
                        && r->0.initial_selected_path is Some
                        && r->0.initial_selected_path->0@ == pp.path@.last()
                    &&& pp.path@.len() == 0 ==> r->0.current_path@.len() == 0
                        && r->0.initial_selected_path is None
                },
                Some(None) => r is None,
                None => match first_worktree_id {
                    Some(id) => {
                        &&& r is Some
                        &&& r->0.worktree_id == id
                        &&& r->0.current_path@.len() == 0
                        &&& r->0.initial_selected_path is None
                    },
                    None => r is None,
                },
            },
    {
        match active_item {
            Some(Some(pp)) => {
                let current_path = match pp.path.parent() {
                    Some(p) => p,
                    None => RelPath::empty(),
                };
                let initial_selected_path = pp.path.file_name();
                Some(BrowseLocation { worktree_id: pp.worktree_id, current_path, initial_selected_path })
            },
            Some(None) => None,
            None => match first_worktree_id {
                Some(id) => Some(
                    BrowseLocation {
                        worktree_id: id,
                        current_path: RelPath::empty(),
                        initial_selected_path: None,
                    },
                ),
                None => None,
            },
        }
    }

    /// A session at `location`, loaded from `tree`.
    pub fn new(location: BrowseLocation, original_active_item_id: Option<u64>, tree: Option<&Tree>) -> (r:
        DirectoryBrowser)
        ensures
            r.delegate.worktree_id == location.worktree_id,
            r.delegate.current_path@ == location.current_path@,
            !r.delegate.show_hidden_files,
            match tree {
                Some(t) => is_listing(
                    t@,
                    location.current_path@,
                    false,
                    item_views(r.delegate.all_entries@),
                ),
                None => r.delegate.all_entries@.len() == 0,
            },
            item_views(r.delegate.filtered_entries@) == item_views(r.delegate.all_entries@),
            initial_selection(
                item_views(r.delegate.all_entries@),
                location.initial_selected_path,
                r.delegate.selected_index as int,
            ),
            r.delegate.initial_selected_path is None,
            r.delegate.original_active_item_id == original_active_item_id,
            !r.delegate.confirmed,
            r.delegate.wf(),
    {
        let mut delegate = DirectoryBrowserDelegate::new(
            location.worktree_id,
            location.current_path,
            location.initial_selected_path,
            original_active_item_id,
        );
        delegate.load_entries(tree);
        DirectoryBrowser { delegate }
    }

    /// Whether the session may close now: not while one of its menus has focus.
    pub fn on_before_dismiss(&self, filter_menu_focused: bool, split_menu_focused: bool) -> (r: bool)
        ensures
            r == !(filter_menu_focused || split_menu_focused),
    {
        !(filter_menu_focused || split_menu_focused)
    }

    /// Steps up to the parent directory; at the root, does nothing.
    pub fn handle_navigate_to_parent(&mut self, tree: Option<&Tree>) -> (r: bool)
        ensures
            r == (old(self).delegate.current_path@.len() > 0),
            r ==> final(self).delegate.moved_to(
                &old(self).delegate,
                old(self).delegate.current_path@.drop_last(),
                tree,
            ),
            !r ==> *final(self) == *old(self),
            old(self).delegate.wf() ==> final(self).delegate.wf(),
    {
        self.delegate.navigate_to_parent(tree)
    }

    /// Shows hidden entries if they were left out, leaves them out if they
    /// were shown, and lists the directory anew.
    pub fn handle_toggle_show_hidden(&mut self, tree: Option<&Tree>)
        ensures
            final(self).delegate.show_hidden_files == !old(self).delegate.show_hidden_files,
            final(self).delegate.current_path == old(self).delegate.current_path,
            final(self).delegate.loaded_from(&old(self).delegate, tree),
    {
        self.delegate.show_hidden_files = !self.delegate.show_hidden_files;
        self.delegate.load_entries(tree);
    }

    /// The file under the cursor, to open in a split on side `direction`;
    /// `None` when the cursor is not on a file.
    pub fn go_to_file_split_inner(&self, direction: SplitDirection) -> (r: Option<SplitOpen>)
        ensures
            is_split_of(r, &self.delegate, direction),
    {
        match self.delegate.preview_entry_at_index(self.delegate.selected_index) {
            Some(path) => Some(SplitOpen { path, direction }),
            None => None,
        }
    }

    /// The file under the cursor, to open in a split on the left.
    pub fn go_to_file_split_left(&self) -> (r: Option<SplitOpen>)
        ensures
            is_split_of(r, &self.delegate, SplitDirection::Left),
    {
        self.go_to_file_split_inner(SplitDirection::Left)
    }

    /// The file under the cursor, to open in a split on the right.
    pub fn go_to_file_split_right(&self) -> (r: Option<SplitOpen>)
        ensures
            is_split_of(r, &self.delegate, SplitDirection::Right),
    {
        self.go_to_file_split_inner(SplitDirection::Right)
    }

    /// The file under the cursor, to open in a split above.
    pub fn go_to_file_split_up(&self) -> (r: Option<SplitOpen>)
        ensures
            is_split_of(r, &self.delegate, SplitDirection::Up),
    {
        self.go_to_file_split_inner(SplitDirection::Up)
    }

    /// The file under the cursor, to open in a split below.
    pub fn go_to_file_split_down(&self) -> (r: Option<SplitOpen>)
        ensures
            is_split_of(r, &self.delegate, SplitDirection::Down),
    {
        self.go_to_file_split_inner(SplitDirection::Down)
    }
}

} // verus!
