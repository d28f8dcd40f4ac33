//! The way through the directories of a workspace.

use crate::workspace::filters;
use crate::workspace::filters::{gitignore_is_ignored, IgnoreRules, RulesView};
use crate::workspace::order;
use crate::workspace::order::{sort_items, text_comes_before, Modified};
use crate::workspace::paths;
use std::collections::VecDeque;
use vstd::prelude::*;

verus! {

/// What is known of a file or a directory.
#[derive(Debug)]
pub struct DirEntry {
    pub path: String,
    pub is_dir: bool,
    pub byte_len: u64,
    pub modified: Modified,
}

/// A directory that has not been looked into, and the rules that hold there, by their places.
#[derive(Debug)]
pub struct PendingDir {
    pub path: String,
    pub rules: Vec<usize>,
}

/// A directory that has not been looked into, as plain values.
pub struct PendingDirView {
    pub path: Seq<char>,
    pub rules: Seq<usize>,
}

impl View for PendingDir {
    type V = PendingDirView;

    open spec fn view(&self) -> PendingDirView {
        PendingDirView { path: self.path@, rules: self.rules@ }
    }
}

pub open spec fn pending_dir_views(dirs: Seq<PendingDir>) -> Seq<PendingDirView> {
    Seq::new(dirs.len(), |i: int| dirs[i]@)
}

/// The way through a workspace: where it starts, the rules that were found on it, and the
/// directories ahead.
#[derive(Debug)]
pub struct Walk {
    pub root: String,
    /// Whether files are looked at that rules leave out.
    pub include_ignored: bool,
    pub store: Vec<IgnoreRules>,
    pub pending: VecDeque<PendingDir>,
}

/// The way through a workspace, as plain values.
pub struct WalkView {
    pub root: Seq<char>,
    pub include_ignored: bool,
    pub store: Seq<RulesView>,
    pub pending: Seq<PendingDirView>,
}

impl View for Walk {
    type V = WalkView;

    open spec fn view(&self) -> WalkView {
        WalkView {
            root: self.root@,
            include_ignored: self.include_ignored,
            store: filters::rules_views(self.store@),
            pending: pending_dir_views(self.pending@),
        }
    }
}

/// Whether rules are all in a store.
pub open spec fn all_stored(rules: Seq<usize>, store_len: nat) -> bool {
    forall|i: int| 0 <= i < rules.len() ==> #[trigger] rules[i] < store_len
}

impl WalkView {
    /// The rules of each directory ahead are in the store.
    pub open spec fn well_formed(self) -> bool {
        forall|i: int|
            0 <= i < self.pending.len() ==> all_stored(
                (#[trigger] self.pending[i]).rules,
                self.store.len(),
            )
    }

    /// A path as it is shown in this workspace.
    pub open spec fn shown(self, path: Seq<char>) -> Seq<char> {
        paths::shown_path(self.root.len() == 0, path)
    }

    pub open spec fn leaves_out(self, rules: Seq<usize>, path: Seq<char>, is_dir: bool) -> bool {
        !self.include_ignored && filters::left_out(self.store, rules, path, is_dir)
    }

    /// Whether a file is looked at where some rules hold.
    pub open spec fn takes_file(self, rules: Seq<usize>, path: Seq<char>) -> bool {
        !paths::in_vcs_dir(path) && !self.leaves_out(rules, path, false)
    }

    /// Whether a directory is looked into where some rules hold.
    pub open spec fn takes_dir(self, rules: Seq<usize>, path: Seq<char>) -> bool {
        !paths::is_vcs_name(paths::file_name_of(path)) && !self.leaves_out(rules, path, true)
    }

    /// Whether the way can start at a path.
    pub open spec fn starts_at(self, rules: Seq<usize>, path: Seq<char>, is_dir: bool) -> bool {
        !paths::in_vcs_dir(path) && !self.leaves_out(rules, path, is_dir)
    }
}

/// The entries of a directory, in the order of their shown paths.
pub open spec fn entry_order(from_root: bool) -> spec_fn(DirEntry, DirEntry) -> bool {
    |left: DirEntry, right: DirEntry|
        order::text_before(
            paths::shown_path(from_root, left.path@),
            paths::shown_path(from_root, right.path@),
        )
}

pub open spec fn sorted_entries(entries: Seq<DirEntry>, from_root: bool) -> Seq<DirEntry> {
    order::ordered(entries, entry_order(from_root), entries.len() as int)
}

/// Whether the paths of entries are tidy.
pub open spec fn all_tidy(entries: Seq<DirEntry>) -> bool {
    forall|i: int| 0 <= i < entries.len() ==> paths::tidy((#[trigger] entries[i]).path@)
}

proof fn lemma_ordered_from(
    entries: Seq<DirEntry>,
    before: spec_fn(DirEntry, DirEntry) -> bool,
    count: int,
)
    requires
        0 <= count <= entries.len(),
    ensures
        forall|i: int|
            0 <= i < order::ordered(entries, before, count).len() ==> entries.contains(
                #[trigger] order::ordered(entries, before, count)[i],
            ),
    decreases count,
{
    if count > 0 {
        lemma_ordered_from(entries, before, count - 1);
        order::lemma_ordered_len(entries, before, count - 1);
        let earlier = order::ordered(entries, before, count - 1);
        let item = entries[count - 1];
        let at = order::place(earlier, item, before, earlier.len() as int);
        order::lemma_place_in_range(earlier, item, before, earlier.len() as int);
        let after = order::ordered(entries, before, count);
        assert forall|i: int| 0 <= i < after.len() implies entries.contains(
            #[trigger] after[i],
        ) by {
            if i < at {
                assert(after[i] == earlier[i]);
            } else if i > at {
                assert(after[i] == earlier[i - 1]);
            } else {
                assert(after[i] == item);
            }
        }
    }
}

impl Walk {
    pub fn new(root: String, include_ignored: bool) -> (walk: Walk)
        ensures
            walk@ == (WalkView {
                root: root@,
                include_ignored,
                store: Seq::empty(),
                pending: Seq::empty(),
            }),
    {
        let walk = Walk { root, include_ignored, store: Vec::new(), pending: VecDeque::new() };
        assert(walk@.store =~= Seq::<RulesView>::empty());
        assert(walk@.pending =~= Seq::<PendingDirView>::empty());
        walk
    }

    /// Keeps rules, and gives their place.
    pub fn add_rules(&mut self, rules: IgnoreRules) -> (place: usize)
        requires
            old(self)@.well_formed(),
        ensures
            place == old(self)@.store.len(),
            final(self)@ == (WalkView { store: old(self)@.store.push(rules@), ..old(self)@ }),
            final(self)@.well_formed(),
    {
        let ghost before = self@;
        let place: usize = self.store.len();
        self.store.push(rules);
        assert(self@.store =~= before.store.push(rules@));
        place
    }

    pub fn shown(&self, path: &str) -> (shown: String)
        ensures
            shown@ == self@.shown(path@),
    {
        paths::display_path(self.root.as_str().is_empty(), path)
    }

    fn leaves_out(&self, rules: &Vec<usize>, path: &str, is_dir: bool) -> (out: bool)
        requires
            paths::tidy(path@),
            all_stored(rules@, self.store@.len()),
        ensures
            out == self@.leaves_out(rules@, path@, is_dir),
    {
        !self.include_ignored && gitignore_is_ignored(&self.store, rules, path, is_dir)
    }

    pub fn takes_file(&self, rules: &Vec<usize>, path: &str) -> (takes: bool)
        requires
            paths::tidy(path@),
            all_stored(rules@, self.store@.len()),
        ensures
            takes == self@.takes_file(rules@, path@),
    {
        !paths::is_under_vcs_dir(path) && !self.leaves_out(rules, path, false)
    }

    pub fn takes_dir(&self, rules: &Vec<usize>, path: &str) -> (takes: bool)
        requires
            paths::tidy(path@),
            all_stored(rules@, self.store@.len()),
        ensures
            takes == self@.takes_dir(rules@, path@),
    {
        !paths::is_vcs_dir(path) && !self.leaves_out(rules, path, true)
    }

    pub fn starts_at(&self, rules: &Vec<usize>, path: &str, is_dir: bool) -> (starts: bool)
        requires
            paths::tidy(path@),
            all_stored(rules@, self.store@.len()),
        ensures
            starts == self@.starts_at(rules@, path@, is_dir),
    {
        !paths::is_under_vcs_dir(path) && !self.leaves_out(rules, path, is_dir)
    }

    /// Puts the entries of a directory in order.
    pub fn sort_entries(&self, entries: Vec<DirEntry>) -> (sorted: Vec<DirEntry>)
        requires
            all_tidy(entries@),
        ensures
            sorted@ == sorted_entries(entries@, self@.root.len() == 0),
            all_tidy(sorted@),
    {
        let from_root = self.root.as_str().is_empty();
        let ghost before = entry_order(from_root);
        let is_before = |left: &DirEntry, right: &DirEntry| -> (r: bool)
            ensures
                (r == entry_order(from_root)(*left, *right)),
            {
                text_comes_before(
                    paths::display_path(from_root, left.path.as_str()).as_str(),
                    paths::display_path(from_root, right.path.as_str()).as_str(),
                )
            };
        proof {
            lemma_ordered_from(entries@, before, entries@.len() as int);
        }
        let sorted = sort_items(entries, is_before, Ghost(before));
        assert(all_tidy(sorted@)) by {
            assert forall|i: int| 0 <= i < sorted@.len() implies paths::tidy(
                (#[trigger] sorted@[i]).path@,
            ) by {
                assert(entries@.contains(sorted@[i]));
            }
        }
        sorted
    }
}

pub(crate) fn copy_rules(rules: &Vec<usize>) -> (copy: Vec<usize>)
    ensures
        copy@ == rules@,
{
    let mut copy: Vec<usize> = Vec::new();
    let mut i: usize = 0;
    while i < rules.len()
        invariant
            i <= rules@.len(),
            copy@ == rules@.take(i as int),
        decreases rules@.len() - i,
    {
        copy.push(rules[i]);
        i = i + 1;
        assert(copy@ =~= rules@.take(i as int));
    }
    assert(copy@ =~= rules@);
    copy
}

/// What belongs to a version control system is never looked at. Everything else is, unless rules
/// that count leave it out; where files are looked at that rules leave out, no rules count.
pub proof fn law_walk_skips_what_rules_leave_out(
    walk: WalkView,
    rules: Seq<usize>,
    path: Seq<char>,
    is_dir: bool,
)
    ensures
        paths::in_vcs_dir(path) ==> !walk.takes_file(rules, path) && !walk.starts_at(
            rules,
            path,
            is_dir,
        ),
        paths::is_vcs_name(paths::file_name_of(path)) ==> !walk.takes_dir(rules, path),
        walk.include_ignored ==> {
            &&& walk.takes_file(rules, path) <==> !paths::in_vcs_dir(path)
            &&& walk.starts_at(rules, path, is_dir) <==> !paths::in_vcs_dir(path)
            &&& walk.takes_dir(rules, path) <==> !paths::is_vcs_name(paths::file_name_of(path))
        },
        !walk.include_ignored && !paths::in_vcs_dir(path) ==> {
            &&& walk.takes_file(rules, path) <==> !filters::left_out(
                walk.store,
                rules,
                path,
                false,
            )
            &&& walk.starts_at(rules, path, is_dir) <==> !filters::left_out(
                walk.store,
                rules,
                path,
                is_dir,
            )
            &&& walk.takes_dir(rules, path) <==> !filters::left_out(walk.store, rules, path, true)
        },
        rules.len() == 0 && !paths::in_vcs_dir(path) ==> {
            &&& walk.takes_file(rules, path)
            &&& walk.takes_dir(rules, path)
            &&& walk.starts_at(rules, path, is_dir)
        },
        walk.root.len() == 0 ==> walk.shown(path) == paths::shown_path(true, path),
        walk.root.len() > 0 ==> walk.shown(path) == paths::shown_path(false, path),
{
}

/// The entries of a directory are looked at in the order of the paths that are shown of them, none
/// twice and none left out.
pub proof fn law_entries_are_looked_at_in_order(entries: Seq<DirEntry>, from_root: bool)
    ensures
        sorted_entries(entries, from_root).to_multiset() == entries.to_multiset(),
        forall|i: int, j: int|
            0 <= i < j < sorted_entries(entries, from_root).len() ==> !order::text_before(
                paths::shown_path(
                    from_root,
                    (#[trigger] sorted_entries(entries, from_root)[j]).path@,
                ),
                paths::shown_path(
                    from_root,
                    (#[trigger] sorted_entries(entries, from_root)[i]).path@,
                ),
            ),
{
    let before = entry_order(from_root);
    let shown = |entry: DirEntry| paths::shown_path(from_root, entry.path@);
    assert forall|a: DirEntry, b: DirEntry, c: DirEntry|
        !#[trigger] before(a, b) && !#[trigger] before(b, c) implies !before(a, c) by {
        order::law_text_order_is_strict(shown(a), shown(b));
        order::law_text_order_is_strict(shown(b), shown(c));
        order::law_text_order_is_strict(shown(a), shown(c));
        if before(a, c) {
            if shown(a) != shown(b) {
                order::law_text_order_is_transitive(shown(b), shown(a), shown(c));
            }
        }
    }
    assert forall|a: DirEntry, b: DirEntry| #[trigger] before(a, b) implies !before(b, a) by {
        order::law_text_order_is_strict(shown(a), shown(b));
    }
    order::law_ordered_items_are_in_order(entries, before, entries.len() as int);
    order::law_order_keeps_items(entries, before, entries.len() as int);
    assert(entries.take(entries.len() as int) =~= entries);
    let sorted = sorted_entries(entries, from_root);
    assert forall|i: int, j: int| 0 <= i < j < sorted.len() implies !order::text_before(
        paths::shown_path(from_root, (#[trigger] sorted[j]).path@),
        paths::shown_path(from_root, (#[trigger] sorted[i]).path@),
    ) by {
        assert(!before(sorted[j], sorted[i]));
    }
}

} // verus!
