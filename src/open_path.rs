use vstd::prelude::*;
use vstd::string::*;

use crate::path_query::{
    ends_with_sep, parse_query, partial_of, prefix_of, sep_of, PathStyle,
};
use crate::text::{lower_of, lowercase, starts_with, starts_with_chars, to_chars};

verus! {

broadcast use vstd::seq_lib::group_seq_lib_default;

/// What a directory read gives for one child: its name and kind.
pub struct CandidateInfo {
    pub name: String,
    pub is_dir: bool,
}

/// What a child of a directory read is, mathematically.
pub struct CandidateView {
    pub name: Seq<char>,
    pub is_dir: bool,
}

impl View for CandidateInfo {
    type V = CandidateView;

    open spec fn view(&self) -> CandidateView {
        CandidateView { name: self.name@, is_dir: self.is_dir }
    }
}

/// A completion that can be chosen.
pub enum CompletionCandidate {
    /// Stay in the directory typed so far (shown as `./`).
    CurrentDirectory,
    /// A child of the directory typed so far.
    Existing(CandidateInfo),
    /// The name as typed, for a path that is to be created.
    NewPath(String),
}

/// What a completion is, mathematically.
pub enum CandidateItem {
    CurrentDirectory,
    Existing(CandidateView),
    NewPath(Seq<char>),
}

impl View for CompletionCandidate {
    type V = CandidateItem;

    open spec fn view(&self) -> CandidateItem {
        match self {
            CompletionCandidate::CurrentDirectory => CandidateItem::CurrentDirectory,
            CompletionCandidate::Existing(c) => CandidateItem::Existing(c@),
            CompletionCandidate::NewPath(n) => CandidateItem::NewPath(n@),
        }
    }
}

/// The views of a sequence of directory children.
pub open spec fn info_views(s: Seq<CandidateInfo>) -> Seq<CandidateView> {
    s.map_values(|c: CandidateInfo| c@)
}

/// The views of a sequence of completions.
pub open spec fn candidate_views(s: Seq<CompletionCandidate>) -> Seq<CandidateItem> {
    s.map_values(|c: CompletionCandidate| c@)
}

/// A child completes the partial name when its name starts with it, case
/// aside.
pub open spec fn completes(name: Seq<char>, partial: Seq<char>) -> bool {
    starts_with(lower_of(name), lower_of(partial))
}

/// The children that complete `partial`, in listing order.
pub open spec fn completing(listing: Seq<CandidateView>, partial: Seq<char>) -> Seq<CandidateView> {
    listing.filter(|c: CandidateView| completes(c.name, partial))
}

/// Children as completions.
pub open spec fn existing_items(s: Seq<CandidateView>) -> Seq<CandidateItem> {
    s.map_values(|c: CandidateView| CandidateItem::Existing(c))
}

/// Some child is named exactly `name`.
pub open spec fn has_exact(listing: Seq<CandidateView>, name: Seq<char>) -> bool {
    exists|i: int| 0 <= i < listing.len() && #[trigger] listing[i].name == name
}

/// The completions for the typed path `query`, given the children of its
/// directory part: `./` first when it names a directory and no partial name
/// (it ends with a separator, or is a bare drive); when creating, the
/// partial name itself if no child is named so; then the children whose names
/// start with the partial name, case aside, in listing order.
pub open spec fn completions(
    query: Seq<char>,
    style: PathStyle,
    creating: bool,
    listing: Seq<CandidateView>,
) -> Seq<CandidateItem> {
    let partial = partial_of(query, style);
    let marker = if ends_with_sep(query, style) || (partial.len() == 0 && prefix_of(
        query,
        style,
    ).len() > 0) {
        seq![CandidateItem::CurrentDirectory]
    } else {
        Seq::empty()
    };
    let literal = if creating && partial.len() > 0 && !has_exact(listing, partial) {
        seq![CandidateItem::NewPath(partial)]
    } else {
        Seq::empty()
    };
    marker + literal + existing_items(completing(listing, partial))
}

/// How a completion is shown.
pub open spec fn candidate_label(c: CandidateItem, style: PathStyle) -> Seq<char> {
    match c {
        CandidateItem::CurrentDirectory => seq!['.'] + sep_of(style),
        CandidateItem::Existing(v) => v.name,
        CandidateItem::NewPath(n) => n,
    }
}

/// The text that choosing `c` for the typed path `query` completes it to:
/// the directory part as typed, then the name, then a separator for a
/// directory. `None` for staying in the directory.
pub open spec fn completed_text(query: Seq<char>, style: PathStyle, c: CandidateItem) -> Option<
    Seq<char>,
> {
    match c {
        CandidateItem::CurrentDirectory => None,
        CandidateItem::Existing(v) => Some(
            prefix_of(query, style) + v.name + if v.is_dir {
                sep_of(style)
            } else {
                Seq::empty()
            },
        ),
        CandidateItem::NewPath(n) => Some(prefix_of(query, style) + n),
    }
}

/// The completion is the child named `name`.
pub open spec fn names_child(c: CandidateItem, name: Seq<char>) -> bool {
    c is Existing && c->Existing_0.name == name
}

/// `sel` is where a fresh set of completions puts the cursor: on the first
/// child named by the hint, if any is, else on the first completion.
pub open spec fn preselection(items: Seq<CandidateItem>, hint: Option<String>, sel: int) -> bool {
    match hint {
        Some(t) => if exists|i: int| 0 <= i < items.len() && #[trigger] names_child(items[i], t@) {
            &&& 0 <= sel < items.len()
            &&& names_child(items[sel], t@)
            &&& forall|j: int| 0 <= j < sel ==> !#[trigger] names_child(items[j], t@)
        } else {
            sel == 0
        },
        None => sel == 0,
    }
}

/// The generation that follows `g`.
pub open spec fn next_generation(g: u64) -> u64 {
    if g == u64::MAX {
        0
    } else {
        (g + 1) as u64
    }
}

/// A new query always starts a generation other than the current one, so the
/// read that the previous query asked for is no longer taken.
pub proof fn lemma_new_query_drops_pending_read(current: u64)
    ensures
        next_generation(current) != current,
{
}

/// A directory read that a query asks for: the directory part as typed, and
/// the generation whose result it will be.
pub struct DirectoryRead {
    pub generation: u64,
    pub directory: String,
}

/// The state of completing a typed path: the query, the generation of the
/// directory read it asked for, the completions, and the cursor.
pub struct OpenPathDelegate {
    pub creating_path: bool,
    pub path_style: PathStyle,
    pub query: String,
    pub generation: u64,
    pub candidates: Vec<CompletionCandidate>,
    pub selected_index: usize,
    /// The file name to put the cursor on when completions first arrive.
    pub preselect: Option<String>,
}

proof fn lemma_completing_push(s: Seq<CandidateView>, c: CandidateView, partial: Seq<char>)
    ensures
        completing(s.push(c), partial) == if completes(c.name, partial) {
            completing(s, partial).push(c)
        } else {
            completing(s, partial)
        },
{
    reveal(Seq::filter);
    assert(s.push(c).drop_last() =~= s);
}

/// A copy of a directory child.
fn duplicate_info(c: &CandidateInfo) -> (r: CandidateInfo)
    ensures
        r@ == c@,
{
    CandidateInfo { name: c.name.clone(), is_dir: c.is_dir }
}

/// Whether some child is named exactly `name`.
fn find_exact(listing: &Vec<CandidateInfo>, name: &String) -> (r: bool)
    ensures
        r == has_exact(info_views(listing@), name@),
{
    let mut i: usize = 0;
    while i < listing.len()
        invariant
            i <= listing.len(),
            forall|j: int| 0 <= j < i ==> #[trigger] info_views(listing@)[j].name != name@,
        decreases listing.len() - i,
    {
        if listing[i].name == *name {
            assert(info_views(listing@)[i as int].name == name@);
            return true;
        }
        i += 1;
    }
    false
}

/// The index of the first completion that is the child `name`, if any.
fn position_of_child(items: &Vec<CompletionCandidate>, name: &String) -> (r: Option<usize>)
    ensures
        match r {
            Some(i) => {
                &&& i < items.len()
                &&& names_child(candidate_views(items@)[i as int], name@)
                &&& forall|j: int|
                    0 <= j < i ==> !#[trigger] names_child(candidate_views(items@)[j], name@)
            },
            None => forall|j: int|
                0 <= j < items.len() ==> !#[trigger] names_child(candidate_views(items@)[j], name@),
        },
{
    let mut i: usize = 0;
    while i < items.len()
        invariant
            i <= items.len(),
            forall|j: int| 0 <= j < i ==> !#[trigger] names_child(candidate_views(items@)[j], name@),
        decreases items.len() - i,
    {
        assert(candidate_views(items@)[i as int] == items@[i as int]@);
        let hit = match &items[i] {
            CompletionCandidate::Existing(c) => c.name == *name,
            _ => false,
        };
        if hit {
            return Some(i);
        }
        i += 1;
    }
    None
}

/// The completions for `query` from the children `listing` of its directory part.
pub fn build_completions(
    query: &str,
    style: PathStyle,
    creating: bool,
    listing: &Vec<CandidateInfo>,
) -> (r: Vec<CompletionCandidate>)
    ensures
        candidate_views(r@) == completions(query@, style, creating, info_views(listing@)),
{
    let parsed = parse_query(query, style);
    let partial = parsed.partial_name;
    let lower_partial = lowercase(partial.as_str());
    let pc = to_chars(lower_partial.as_str());
    let ghost lv = info_views(listing@);
    let mut out: Vec<CompletionCandidate> = Vec::new();
    if parsed.ends_with_separator || (partial.as_str().unicode_len() == 0
        && parsed.directory_prefix.as_str().unicode_len() > 0) {
        out.push(CompletionCandidate::CurrentDirectory);
    }
    if creating && partial.as_str().unicode_len() > 0 && !find_exact(listing, &partial) {
        out.push(CompletionCandidate::NewPath(partial.clone()));
    }
    let ghost head = candidate_views(out@);
    assert(head =~= (if ends_with_sep(query@, style) || (partial@.len() == 0 && prefix_of(
        query@,
        style,
    ).len() > 0) {
        seq![CandidateItem::CurrentDirectory]
    } else {
        Seq::empty()
    }) + (if creating && partial@.len() > 0 && !has_exact(lv, partial@) {
        seq![CandidateItem::NewPath(partial@)]
    } else {
        Seq::empty()
    }));
    let mut i: usize = 0;
    proof {
        reveal(Seq::filter);
        assert(lv.take(0) =~= Seq::<CandidateView>::empty());
        assert(existing_items(Seq::<CandidateView>::empty()) =~= Seq::<CandidateItem>::empty());
        assert(head + existing_items(completing(lv.take(0), partial@)) =~= head);
    }
    while i < listing.len()
        invariant
            lv == info_views(listing@),
            pc@ == lower_of(partial@),
            i <= listing.len(),
            candidate_views(out@) == head + existing_items(completing(lv.take(i as int), partial@)),
        decreases listing.len() - i,
    {
        let c = &listing[i];
        let lower_name = lowercase(c.name.as_str());
        let nc = to_chars(lower_name.as_str());
        proof {
            assert(lv.take(i + 1) =~= lv.take(i as int).push(c@));
            lemma_completing_push(lv.take(i as int), c@, partial@);
        }
        if starts_with_chars(&nc, &pc) {
            let item = CompletionCandidate::Existing(duplicate_info(c));
            proof {
                let old_out = candidate_views(out@);
                assert(candidate_views(out@.push(item)) =~= old_out.push(item@));
                assert(existing_items(completing(lv.take(i as int), partial@).push(c@))
                    =~= existing_items(completing(lv.take(i as int), partial@)).push(item@));
            }
            out.push(item);
        }
        i += 1;
    }
    assert(lv.take(listing.len() as int) =~= lv);
    out
}

impl OpenPathDelegate {
    /// The cursor stands on a completion (at 0 when there is none).
    pub open spec fn wf(&self) -> bool {
        &&& (self.candidates@.len() > 0 ==> self.selected_index < self.candidates@.len())
        &&& (self.candidates@.len() == 0 ==> self.selected_index == 0)
    }

    /// A session with no query yet.
    pub fn new(creating_path: bool, path_style: PathStyle) -> (r: Self)
        ensures
            r.creating_path == creating_path,
            r.path_style == path_style,
            r.query@.len() == 0,
            r.generation == 0,
            r.candidates@.len() == 0,
            r.selected_index == 0,
            r.preselect is None,
            r.wf(),
    {
        OpenPathDelegate {
            creating_path,
            path_style,
            query: String::new(),
            generation: 0,
            candidates: Vec::new(),
            selected_index: 0,
            preselect: None,
        }
    }

    /// The same session, putting the cursor on the child `filename` when
    /// completions first arrive.
    pub fn with_preselect(self, filename: String) -> (r: Self)
        ensures
            r == (OpenPathDelegate { preselect: Some(filename), ..self }),
    {
        OpenPathDelegate { preselect: Some(filename), ..self }
    }

    /// Takes a new query: starts a new generation, whose directory read is
    /// returned. Results of earlier reads are dropped from now on.
    pub fn update_matches(&mut self, query: &str) -> (r: DirectoryRead)
        ensures
            final(self).generation == next_generation(old(self).generation),
            final(self).query@ == query@,
            r.generation == final(self).generation,
            r.directory@ == prefix_of(query@, old(self).path_style),
            *final(self) == (OpenPathDelegate {
                generation: final(self).generation,
                query: final(self).query,
                ..*old(self)
            }),
    {
        self.generation = if self.generation == u64::MAX {
            0
        } else {
            self.generation + 1
        };
        self.query = query.to_owned();
        let parsed = parse_query(query, self.path_style);
        DirectoryRead { generation: self.generation, directory: parsed.directory_prefix }
    }

    /// Takes the result of the directory read of `generation`. A result of an
    /// earlier generation is dropped (returns false). Otherwise the
    /// completions are rebuilt from it (a failed read counts as empty) and the
    /// cursor goes to the preselected child, once, or else to the first row.
    pub fn apply_listing(&mut self, generation: u64, listing: Option<Vec<CandidateInfo>>) -> (r: bool)
        ensures
            r == (generation == old(self).generation),
            !r ==> *final(self) == *old(self),
            r ==> {
                let children = match listing {
                    Some(l) => info_views(l@),
                    None => Seq::empty(),
                };
                &&& candidate_views(final(self).candidates@) == completions(
                    old(self).query@,
                    old(self).path_style,
                    old(self).creating_path,
                    children,
                )
                &&& preselection(
                    candidate_views(final(self).candidates@),
                    old(self).preselect,
                    final(self).selected_index as int,
                )
                &&& final(self).preselect is None
                &&& final(self).wf()
                &&& final(self).query == old(self).query
                &&& final(self).generation == old(self).generation
                &&& final(self).creating_path == old(self).creating_path
                &&& final(self).path_style == old(self).path_style
            },
    {
        if generation != self.generation {
            return false;
        }
        let children = match listing {
            Some(l) => l,
            None => {
                let empty: Vec<CandidateInfo> = Vec::new();
                assert(info_views(empty@) =~= Seq::<CandidateView>::empty());
                empty
            },
        };
        let built = build_completions(
            self.query.as_str(),
            self.path_style,
            self.creating_path,
            &children,
        );
        let hint = self.preselect.take();
        let sel: usize = match &hint {
            Some(name) => match position_of_child(&built, name) {
                Some(i) => i,
                None => 0,
            },
            None => 0,
        };
        self.candidates = built;
        self.selected_index = sel;
        true
    }

    /// How each completion is shown, in order.
    pub fn collect_match_candidates(&self) -> (r: Vec<String>)
        ensures
            r@.len() == self.candidates@.len(),
            forall|i: int|
                0 <= i < r@.len() ==> #[trigger] r@[i]@ == candidate_label(
                    self.candidates@[i]@,
                    self.path_style,
                ),
    {
        let mut r: Vec<String> = Vec::new();
        let mut i: usize = 0;
        while i < self.candidates.len()
            invariant
                i <= self.candidates.len(),
                r@.len() == i,
                forall|k: int|
                    0 <= k < i ==> #[trigger] r@[k]@ == candidate_label(
                        self.candidates@[k]@,
                        self.path_style,
                    ),
            decreases self.candidates.len() - i,
        {
            let label = match &self.candidates[i] {
                CompletionCandidate::CurrentDirectory => {
                    let mut s = ".".to_owned();
                    proof {
                        reveal_strlit(".");
                    }
                    s.append(self.path_style.separator());
                    s
                },
                CompletionCandidate::Existing(c) => c.name.clone(),
                CompletionCandidate::NewPath(n) => n.clone(),
            };
            r.push(label);
            i += 1;
        }
        r
    }

    /// The row under the cursor.
    pub fn selected_index(&self) -> (r: usize)
        ensures
            r == self.selected_index,
    {
        self.selected_index
    }

    /// Puts the cursor on row `ix`.
    pub fn set_selected_index(&mut self, ix: usize)
        requires
            ix < old(self).candidates@.len(),
        ensures
            *final(self) == (OpenPathDelegate { selected_index: ix, ..*old(self) }),
            final(self).wf(),
    {
        self.selected_index = ix;
    }

    /// The text that the completion under the cursor makes of `query`: its
    /// directory part as typed, the chosen name, and a separator for a
    /// directory. `None` with no row under the cursor, or on `./`.
    pub fn confirm_completion(&self, query: &str) -> (r: Option<String>)
        ensures
            ({
                let sel = self.selected_index as int;
                if sel < self.candidates@.len() {
                    match completed_text(query@, self.path_style, self.candidates@[sel]@) {
                        Some(t) => r is Some && r->0@ == t,
                        None => r is None,
                    }
                } else {
                    r is None
                }
            }),
    {
        if self.selected_index >= self.candidates.len() {
            return None;
        }
        let parsed = parse_query(query, self.path_style);
        match &self.candidates[self.selected_index] {
            CompletionCandidate::CurrentDirectory => None,
            CompletionCandidate::Existing(c) => {
                let mut text = parsed.directory_prefix;
                text.append(c.name.as_str());
                if c.is_dir {
                    text.append(self.path_style.separator());
                }
                Some(text)
            },
            CompletionCandidate::NewPath(n) => {
                let mut text = parsed.directory_prefix;
                text.append(n.as_str());
                Some(text)
            },
        }
    }
}

} // verus!
