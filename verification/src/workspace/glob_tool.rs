//! The search for files by their paths.

use crate::chars;
use crate::harness::tools::ToolUpdatePayload;
use crate::workspace::filters;
use crate::workspace::filters::{FileFilter, FilterView};
use crate::workspace::grep_tool;
use crate::workspace::grep_tool::sort_note_for;
use crate::workspace::order;
use crate::workspace::order::{modified_desc_then_path, sort_items, Modified};
use crate::workspace::paths;
use crate::workspace::walk;
use crate::workspace::walk::{DirEntry, PendingDir, PendingDirView, Walk, WalkView};
use vstd::prelude::*;

verus! {

pub const GLOB_TOOL_NAME: &'static str = "glob";

pub const GLOB_TOOL_DESCRIPTION: &'static str =
    "Find files matching a glob pattern like **/*.js or src/**/*.ts. Matches file paths, not file contents — use grep for content search. Respects .gitignore rules and always skips VCS directories. Use bash with rg options for explicit ignored-file scans.";

pub const GLOB_CANCELLED: &'static str = "glob cancelled";

/// How far a search has come.
#[derive(Debug, PartialEq, Eq)]
pub struct GlobProgress {
    pub searched_directories: usize,
    pub searched_files: usize,
    pub matched_files: usize,
    pub current_path: Option<String>,
}

impl ToolUpdatePayload for GlobProgress {
    open spec fn spec_kind(&self) -> Seq<char> {
        "glob.progress"@
    }

    fn kind(&self) -> (kind: &'static str) {
        "glob.progress"
    }
}

/// What is searched for, and where.
#[derive(Debug, PartialEq, Eq)]
pub struct GlobInput {
    pub pattern: String,
    pub path: Option<String>,
    pub head_limit: Option<usize>,
    pub offset: Option<usize>,
}

/// A file that was found.
#[derive(Debug)]
pub struct GlobMatch {
    pub path: String,
    pub modified: Modified,
}

/// The files that were found, and what has been looked at.
#[derive(Debug)]
pub struct GlobSearch {
    pub offset: usize,
    pub limit: usize,
    pub matches: Vec<GlobMatch>,
    pub searched_directories: usize,
    pub searched_files: usize,
}

/// The files that were found, as plain values: each with its time and its path.
pub struct GlobView {
    pub offset: usize,
    pub limit: usize,
    pub matches: Seq<(Modified, Seq<char>)>,
    pub searched_directories: int,
    pub searched_files: int,
}

pub open spec fn match_views(matches: Seq<GlobMatch>) -> Seq<(Modified, Seq<char>)> {
    Seq::new(matches.len(), |i: int| (matches[i].modified, matches[i].path@))
}

impl View for GlobSearch {
    type V = GlobView;

    open spec fn view(&self) -> GlobView {
        GlobView {
            offset: self.offset,
            limit: self.limit,
            matches: match_views(self.matches@),
            searched_directories: self.searched_directories as int,
            searched_files: self.searched_files as int,
        }
    }
}

/// A search that can start.
pub struct GlobPlan {
    pub filter: FileFilter,
    /// Where the search starts; nothing stands for the workspace itself.
    pub path: String,
    pub search: GlobSearch,
}

/// The filter that an input asks for.
pub open spec fn wanted_filter(input: GlobInput) -> FilterView {
    FilterView { glob: Some(input.pattern@), file_type: None }
}

/// Why a search cannot start, if it cannot.
pub open spec fn start_failure(input: GlobInput, cancelled: bool) -> Option<Seq<char>> {
    if cancelled {
        Some("glob cancelled"@)
    } else {
        filters::filter_failure(wanted_filter(input))
    }
}

/// The start of a search.
pub open spec fn new_search(offset: usize, limit: usize) -> GlobView {
    GlobView {
        offset,
        limit,
        matches: Seq::empty(),
        searched_directories: 0,
        searched_files: 0,
    }
}

/// Prepares the search that an input asks for. A hundred files are told unless it says otherwise.
pub fn plan_search(input: GlobInput, cancelled: bool) -> (planned: Result<GlobPlan, String>)
    ensures
        match planned {
            Ok(plan) => {
                &&& start_failure(input, cancelled) is None
                &&& plan.filter@ == wanted_filter(input)
                &&& plan.path@ == (match input.path {
                    Some(path) => path@,
                    None => ""@,
                })
                &&& plan.search@ == new_search(
                    grep_tool::or_else(input.offset, 0),
                    grep_tool::or_else(input.head_limit, 100),
                )
                &&& plan.filter@.glob == Some(input.pattern@)
                &&& plan.filter@.file_type is None
                &&& input.offset matches Some(offset) ==> plan.search@.offset == offset
                &&& input.offset is None ==> plan.search@.offset == 0
                &&& input.head_limit matches Some(limit) ==> plan.search@.limit == limit
                &&& input.head_limit is None ==> plan.search@.limit == 100
                &&& plan.search@.matches.len() == 0
                &&& plan.search@.searched_directories == 0
                &&& plan.search@.searched_files == 0
            },
            Err(message) => start_failure(input, cancelled) == Some(message@),
        },
{
    if cancelled {
        return Err(GLOB_CANCELLED.to_owned());
    }
    let filter = match FileFilter::new(Some(input.pattern.as_str()), None) {
        Ok(filter) => filter,
        Err(message) => {
            return Err(message);
        },
    };
    let offset: usize = match input.offset {
        Some(offset) => offset,
        None => 0,
    };
    let limit: usize = match input.head_limit {
        Some(limit) => limit,
        None => 100,
    };
    let path = match input.path {
        Some(path) => path,
        None => "".to_owned(),
    };
    Ok(GlobPlan { filter, path, search: GlobSearch::new(offset, limit) })
}

impl GlobView {
    /// After one more file was looked at.
    pub open spec fn with_file(
        self,
        filter: FilterView,
        shown: Seq<char>,
        modified: Modified,
    ) -> GlobView {
        let counted = GlobView { searched_files: self.searched_files + 1, ..self };
        if filters::picked(filter, shown) {
            GlobView { matches: self.matches.push((modified, shown)), ..counted }
        } else {
            counted
        }
    }

    /// After one more directory was looked into.
    pub open spec fn with_directory(self) -> GlobView {
        GlobView { searched_directories: self.searched_directories + 1, ..self }
    }

    /// The files in the order in which they are told.
    pub open spec fn listed(self) -> Seq<(Modified, Seq<char>)> {
        order::ordered(self.matches, order::file_order(), self.matches.len() as int)
    }

    /// The first file that is told.
    pub open spec fn start(self) -> int {
        if self.offset <= self.matches.len() {
            self.offset as int
        } else {
            self.matches.len() as int
        }
    }

    /// The file after the last that is told.
    pub open spec fn end(self) -> int {
        if self.limit == 0 || self.offset + self.limit > self.matches.len() {
            self.matches.len() as int
        } else {
            self.offset + self.limit
        }
    }

    /// All that is told of the files.
    pub open spec fn text(self) -> Seq<char> {
        let total = chars::decimal(self.matches.len());
        let shown = chars::decimal((self.end() - self.start()) as nat);
        if self.matches.len() == 0 {
            "No matches"@
        } else if self.start() == self.end() {
            "No output: offset "@ + chars::decimal(self.offset as nat) + " is past end ("@ + total
                + " file(s))"@
        } else {
            let lines = chars::join(
                paths_of(self.listed().subrange(self.start(), self.end())),
                "\n"@,
            );
            let noted = match grep_tool::sort_note(times_of(self.listed())) {
                Some(note) => lines + "\n"@ + note,
                None => lines,
            };
            if self.end() < self.matches.len() {
                noted + "\n"@ + shown + " of "@ + total
                    + " files (truncated, continue with offset="@ + chars::decimal(
                    self.end() as nat,
                ) + ")"@
            } else if self.start() > 0 {
                noted + "\n"@ + shown + " of "@ + total + " files (offset="@ + chars::decimal(
                    self.start() as nat,
                ) + ")"@
            } else {
                noted + "\n"@ + total + " files"@
            }
        }
    }
}

pub open spec fn paths_of(files: Seq<(Modified, Seq<char>)>) -> Seq<Seq<char>> {
    Seq::new(files.len(), |i: int| files[i].1)
}

pub open spec fn times_of(files: Seq<(Modified, Seq<char>)>) -> Seq<Modified> {
    Seq::new(files.len(), |i: int| files[i].0)
}

/// The order of files that were found.
pub open spec fn match_order() -> spec_fn(GlobMatch, GlobMatch) -> bool {
    |left: GlobMatch, right: GlobMatch|
        order::listed_before(left.modified, left.path@, right.modified, right.path@)
}

proof fn lemma_place_of_views(earlier: Seq<GlobMatch>, item: GlobMatch, k: int)
    requires
        0 <= k <= earlier.len(),
    ensures
        order::place(earlier, item, match_order(), k) == order::place(
            match_views(earlier),
            (item.modified, item.path@),
            order::file_order(),
            k,
        ),
    decreases k,
{
    if k > 0 {
        lemma_place_of_views(earlier, item, k - 1);
    }
}

proof fn lemma_order_of_views(matches: Seq<GlobMatch>, count: int)
    requires
        0 <= count <= matches.len(),
    ensures
        match_views(order::ordered(matches, match_order(), count)) == order::ordered(
            match_views(matches),
            order::file_order(),
            count,
        ),
    decreases count,
{
    let views = match_views(matches);
    if count > 0 {
        lemma_order_of_views(matches, count - 1);
        let earlier = order::ordered(matches, match_order(), count - 1);
        let item = matches[count - 1];
        order::lemma_ordered_len(matches, match_order(), count - 1);
        lemma_place_of_views(earlier, item, earlier.len() as int);
        order::lemma_place_in_range(earlier, item, match_order(), earlier.len() as int);
        assert(match_views(order::ordered(matches, match_order(), count)) =~= order::ordered(
            views,
            order::file_order(),
            count,
        ));
    } else {
        assert(match_views(order::ordered(matches, match_order(), count)) =~= order::ordered(
            views,
            order::file_order(),
            count,
        ));
    }
}

/// The search and the directories ahead after the first `count` entries of a directory.
pub struct Visited {
    pub pending: Seq<PendingDirView>,
    pub search: GlobView,
}

/// What one more entry adds.
pub open spec fn with_entry(
    walk: WalkView,
    rules: Seq<usize>,
    filter: FilterView,
    visited: Visited,
    entry: DirEntry,
) -> Visited {
    if entry.is_dir {
        if walk.takes_dir(rules, entry.path@) {
            Visited {
                pending: visited.pending.push(PendingDirView { path: entry.path@, rules }),
                ..visited
            }
        } else {
            visited
        }
    } else if walk.takes_file(rules, entry.path@) {
        Visited {
            search: visited.search.with_file(filter, walk.shown(entry.path@), entry.modified),
            ..visited
        }
    } else {
        visited
    }
}

pub open spec fn with_entries(
    walk: WalkView,
    rules: Seq<usize>,
    filter: FilterView,
    visited: Visited,
    entries: Seq<DirEntry>,
    count: int,
) -> Visited
    decreases count,
{
    if count <= 0 {
        visited
    } else {
        with_entry(
            walk,
            rules,
            filter,
            with_entries(walk, rules, filter, visited, entries, count - 1),
            entries[count - 1],
        )
    }
}

impl GlobSearch {
    pub fn new(offset: usize, limit: usize) -> (search: GlobSearch)
        ensures
            search@ == new_search(offset, limit),
    {
        let search = GlobSearch {
            offset,
            limit,
            matches: Vec::new(),
            searched_directories: 0,
            searched_files: 0,
        };
        assert(search@.matches =~= Seq::<(Modified, Seq<char>)>::empty());
        search
    }

    /// What is told of the progress.
    pub fn progress(&self, current_path: Option<String>) -> (progress: GlobProgress)
        ensures
            progress == (GlobProgress {
                searched_directories: self.searched_directories,
                searched_files: self.searched_files,
                matched_files: self.matches.len(),
                current_path,
            }),
    {
        GlobProgress {
            searched_directories: self.searched_directories,
            searched_files: self.searched_files,
            matched_files: self.matches.len(),
            current_path,
        }
    }

    /// Looks at a file.
    pub fn take_file(&mut self, filter: &FileFilter, shown: String, modified: Modified)
        requires
            old(self)@.searched_files < usize::MAX,
        ensures
            final(self)@ == old(self)@.with_file(filter@, shown@, modified),
    {
        let ghost before = self@;
        self.searched_files = self.searched_files + 1;
        if filter.matches(shown.as_str()) {
            self.matches.push(GlobMatch { path: shown, modified });
            assert(self@.matches =~= before.matches.push((modified, shown@)));
        }
    }

    /// Takes in the entries of a directory where some rules hold.
    pub fn visit_directory(
        &mut self,
        walk: &mut Walk,
        rules: &Vec<usize>,
        entries: Vec<DirEntry>,
        filter: &FileFilter,
    )
        requires
            old(walk)@.well_formed(),
            walk::all_tidy(entries@),
            walk::all_stored(rules@, old(walk)@.store.len()),
            old(self)@.searched_directories < usize::MAX,
            old(self)@.searched_files + entries@.len() <= usize::MAX,
        ensures
            final(walk)@.well_formed(),
            ({
                let sorted = walk::sorted_entries(entries@, old(walk)@.root.len() == 0);
                let visited = with_entries(
                    old(walk)@,
                    rules@,
                    filter@,
                    Visited { pending: old(walk)@.pending, search: old(self)@.with_directory() },
                    sorted,
                    sorted.len() as int,
                );
                &&& final(walk)@ == (WalkView { pending: visited.pending, ..old(walk)@ })
                &&& final(self)@ == visited.search
            }),
    {
        let ghost before = walk@;
        let ghost start = Visited { pending: before.pending, search: self@.with_directory() };
        let ghost files = self@.searched_files;
        proof {
            order::lemma_ordered_len(
                entries@,
                walk::entry_order(before.root.len() == 0),
                entries@.len() as int,
            );
        }
        let sorted = walk.sort_entries(entries);
        self.searched_directories = self.searched_directories + 1;
        assert(self@ == start.search);
        let mut i: usize = 0;
        while i < sorted.len()
            invariant
                i <= sorted@.len(),
                files + sorted@.len() <= usize::MAX,
                self@.searched_files <= files + i,
                walk::all_tidy(sorted@),
                walk::all_stored(rules@, before.store.len()),
                walk@.well_formed(),
                walk@ == (WalkView { pending: walk@.pending, ..before }),
                with_entries(before, rules@, filter@, start, sorted@, i as int) == (Visited {
                    pending: walk@.pending,
                    search: self@,
                }),
            decreases sorted@.len() - i,
        {
            let entry = &sorted[i];
            let ghost pending_before = walk@.pending;
            if entry.is_dir {
                if walk.takes_dir(rules, entry.path.as_str()) {
                    let dir = PendingDir {
                        path: entry.path.clone(),
                        rules: walk::copy_rules(rules),
                    };
                    assert(dir@ == (PendingDirView { path: entry.path@, rules: rules@ }));
                    walk.pending.push_back(dir);
                    assert(walk@.pending =~= pending_before.push(dir@));
                }
            } else if walk.takes_file(rules, entry.path.as_str()) {
                let shown = walk.shown(entry.path.as_str());
                self.take_file(filter, shown, entry.modified);
            }
            i = i + 1;
        }
    }

    /// All that is told of the files.
    pub fn finish(self) -> (text: String)
        requires
            self@.matches.len() == 0 || self@.limit == 0 || self@.offset + self@.limit
                <= usize::MAX,
        ensures
            text@ == self@.text(),
    {
        if self.matches.len() == 0 {
            return "No matches".to_owned();
        }
        let ghost whole = self@;
        proof {
            lemma_order_of_views(self.matches@, self.matches@.len() as int);
            order::lemma_ordered_len(self.matches@, match_order(), self.matches@.len() as int);
        }
        let offset: usize = self.offset;
        let limit: usize = self.limit;
        let total: usize = self.matches.len();
        let is_before = |left: &GlobMatch, right: &GlobMatch| -> (r: bool)
            ensures
                (r == match_order()(*left, *right)),
            {
                modified_desc_then_path(
                    left.modified,
                    left.path.as_str(),
                    right.modified,
                    right.path.as_str(),
                )
            };
        let listed = sort_items(self.matches, is_before, Ghost(match_order()));
        assert(match_views(listed@) == whole.listed());
        let start: usize = if offset <= total {
            offset
        } else {
            total
        };
        let end: usize = if limit == 0 {
            total
        } else if offset + limit > total {
            total
        } else {
            offset + limit
        };
        if start == end {
            let mut text: String = "No output: offset ".to_owned();
            text.append(chars::format_decimal(offset as u64).as_str());
            text.append(" is past end (");
            text.append(chars::format_decimal(total as u64).as_str());
            text.append(" file(s))");
            return text;
        }
        let shown_paths = shown_between(&listed, start, end);
        let mut text = chars::join_texts(&shown_paths, "\n");
        let times = modified_times(&listed);
        assert(times@ =~= times_of(whole.listed()));
        if let Some(note) = sort_note_for(&times) {
            text.append("\n");
            text.append(note);
        }
        text.append("\n");
        if end < total {
            text.append(chars::format_decimal((end - start) as u64).as_str());
            text.append(" of ");
            text.append(chars::format_decimal(total as u64).as_str());
            text.append(" files (truncated, continue with offset=");
            text.append(chars::format_decimal(end as u64).as_str());
            text.append(")");
        } else if start > 0 {
            text.append(chars::format_decimal((end - start) as u64).as_str());
            text.append(" of ");
            text.append(chars::format_decimal(total as u64).as_str());
            text.append(" files (offset=");
            text.append(chars::format_decimal(start as u64).as_str());
            text.append(")");
        } else {
            text.append(chars::format_decimal(total as u64).as_str());
            text.append(" files");
        }
        text
    }
}

fn shown_between(files: &Vec<GlobMatch>, start: usize, end: usize) -> (shown: Vec<String>)
    requires
        start <= end <= files@.len(),
    ensures
        chars::texts(shown@) == paths_of(
            match_views(files@).subrange(start as int, end as int),
        ),
{
    let mut shown: Vec<String> = Vec::new();
    let mut i: usize = start;
    while i < end
        invariant
            start <= i <= end <= files@.len(),
            shown@.len() == i - start,
            forall|j: int| 0 <= j < i - start ==> #[trigger] shown@[j]@ == files@[start + j].path@,
        decreases end - i,
    {
        shown.push(files[i].path.clone());
        i = i + 1;
    }
    assert(chars::texts(shown@) =~= paths_of(
        match_views(files@).subrange(start as int, end as int),
    ));
    shown
}

fn modified_times(files: &Vec<GlobMatch>) -> (times: Vec<Modified>)
    ensures
        times@ == times_of(match_views(files@)),
{
    let mut times: Vec<Modified> = Vec::new();
    let mut i: usize = 0;
    while i < files.len()
        invariant
            i <= files@.len(),
            times@.len() == i,
            forall|j: int| 0 <= j < i ==> #[trigger] times@[j] == files@[j].modified,
        decreases files@.len() - i,
    {
        times.push(files[i].modified);
        i = i + 1;
    }
    assert(times@ =~= times_of(match_views(files@)));
    times
}

/// Where a search starts.
#[derive(Debug)]
pub enum GlobStart {
    /// Nowhere: the place is left out.
    Nothing,
    /// At a file, which is all there is to look at; what is told of it, and at the end.
    File { seen: GlobProgress, done: GlobProgress },
    /// At a directory, which lies ahead.
    Directory,
}

/// Whether what is told is how far a search has come, at a path if one is given.
pub open spec fn tells(progress: GlobProgress, search: GlobView, path: Option<Seq<char>>) -> bool {
    &&& progress.searched_directories == search.searched_directories
    &&& progress.searched_files == search.searched_files
    &&& progress.matched_files == search.matches.len()
    &&& match (progress.current_path, path) {
        (Some(told), Some(path)) => told@ == path,
        (None, None) => true,
        _ => false,
    }
}

/// Starts at a file, which is looked at, or at a directory, which lies ahead.
pub fn begin_search(
    walk: &mut Walk,
    start: DirEntry,
    rules: Vec<usize>,
    filter: &FileFilter,
    search: &mut GlobSearch,
) -> (begun: GlobStart)
    requires
        old(walk)@.well_formed(),
        paths::tidy(start.path@),
        walk::all_stored(rules@, old(walk)@.store.len()),
        old(search)@.searched_files < usize::MAX,
    ensures
        final(walk)@.well_formed(),
        ({
            let starts = old(walk)@.starts_at(rules@, start.path@, start.is_dir);
            let shown = old(walk)@.shown(start.path@);
            if !starts {
                &&& begun is Nothing
                &&& final(walk)@ == old(walk)@
                &&& final(search)@ == old(search)@
            } else if start.is_dir {
                &&& begun is Directory
                &&& final(walk)@ == (WalkView {
                    pending: old(walk)@.pending.push(
                        PendingDirView { path: start.path@, rules: rules@ },
                    ),
                    ..old(walk)@
                })
                &&& final(search)@ == old(search)@
            } else {
                &&& begun matches GlobStart::File { seen, done }
                &&& tells(seen, final(search)@, Some(shown))
                &&& tells(done, final(search)@, None)
                &&& final(walk)@ == old(walk)@
                &&& final(search)@ == old(search)@.with_file(filter@, shown, start.modified)
            }
        }),
{
    if !walk.starts_at(&rules, start.path.as_str(), start.is_dir) {
        return GlobStart::Nothing;
    }
    if start.is_dir {
        let ghost before = walk@;
        walk.pending.push_back(PendingDir { path: start.path, rules });
        assert(walk@.pending =~= before.pending.push(
            PendingDirView { path: start.path@, rules: rules@ },
        ));
        return GlobStart::Directory;
    }
    let shown = walk.shown(start.path.as_str());
    search.take_file(filter, shown.clone(), start.modified);
    GlobStart::File { seen: search.progress(Some(shown)), done: search.progress(None) }
}

/// The directory to look into next: the one that was found first. A search that was cancelled fails
/// where there is one.
pub fn next_directory(walk: &mut Walk, cancelled: bool) -> (next: Result<
    Option<PendingDir>,
    String,
>)
    requires
        old(walk)@.well_formed(),
    ensures
        final(walk)@.well_formed(),
        match next {
            Ok(Some(dir)) => {
                &&& !cancelled
                &&& old(walk)@.pending.len() > 0
                &&& dir@ == old(walk)@.pending[0]
                &&& final(walk)@ == (WalkView {
                    pending: old(walk)@.pending.subrange(1, old(walk)@.pending.len() as int),
                    ..old(walk)@
                })
                &&& walk::all_stored(dir.rules@, final(walk)@.store.len())
            },
            Ok(None) => old(walk)@.pending.len() == 0 && final(walk)@ == old(walk)@,
            Err(message) => {
                &&& cancelled
                &&& old(walk)@.pending.len() > 0
                &&& message@ == GLOB_CANCELLED@
                &&& final(walk)@ == old(walk)@
            },
        },
{
    let ghost before = walk@;
    if cancelled && walk.pending.len() > 0 {
        return Err(GLOB_CANCELLED.to_owned());
    }
    match walk.pending.pop_front() {
        Some(dir) => {
            assert(walk@.pending =~= before.pending.subrange(1, before.pending.len() as int));
            assert(dir@ == before.pending[0]);
            Ok(Some(dir))
        },
        None => {
            assert(walk@.pending =~= before.pending);
            Ok(None)
        },
    }
}

/// Going on where a page stopped misses no file and tells none twice: the next page starts with
/// the file after the last one told.
pub proof fn law_pages_follow(search: GlobView, next: GlobView)
    requires
        search.limit > 0,
        search.end() < search.matches.len(),
        next == (GlobView { offset: search.end() as usize, ..search }),
        search.end() <= usize::MAX,
    ensures
        next.listed() == search.listed(),
        next.start() == search.end(),
        next.end() > next.start(),
{
}

/// Each file that is told was found, and without limits all that were found are told.
pub proof fn law_all_files_are_told(search: GlobView)
    requires
        search.limit == 0,
        search.offset == 0,
    ensures
        search.listed().to_multiset() == search.matches.to_multiset(),
        search.start() == 0,
        search.end() == search.listed().len(),
{
    order::law_order_keeps_items(
        search.matches,
        order::file_order(),
        search.matches.len() as int,
    );
    order::lemma_ordered_len(search.matches, order::file_order(), search.matches.len() as int);
    assert(search.matches.take(search.matches.len() as int) =~= search.matches);
}

/// The files that are told are in an order that can be relied on: those that changed last come
/// first, and those that changed at the same time come by their paths.
pub proof fn law_told_files_are_in_order(search: GlobView)
    ensures
        order::is_ordered(search.listed(), order::file_order()),
{
    order::law_file_order_is_an_order();
    order::law_ordered_items_are_in_order(
        search.matches,
        order::file_order(),
        search.matches.len() as int,
    );
}

/// Of the entries of a directory just those files are found that lie in no directory of a version
/// control system, that no rules leave out, and that the pattern picks.
pub proof fn law_wanted_files_are_found(
    walk: WalkView,
    rules: Seq<usize>,
    filter: FilterView,
    visited: Visited,
    entries: Seq<DirEntry>,
    file: (Modified, Seq<char>),
)
    ensures
        with_entries(
            walk,
            rules,
            filter,
            visited,
            entries,
            entries.len() as int,
        ).search.matches.contains(file) <==> visited.search.matches.contains(file) || exists|
            i: int,
        |
            {
                &&& 0 <= i < entries.len()
                &&& grep_tool::is_searched(walk, rules, filter, #[trigger] entries[i])
                &&& file == (entries[i].modified, walk.shown(entries[i].path@))
            },
{
    lemma_found(walk, rules, filter, visited, entries, file, entries.len() as int);
}

proof fn lemma_found(
    walk: WalkView,
    rules: Seq<usize>,
    filter: FilterView,
    visited: Visited,
    entries: Seq<DirEntry>,
    file: (Modified, Seq<char>),
    count: int,
)
    requires
        0 <= count <= entries.len(),
    ensures
        with_entries(walk, rules, filter, visited, entries, count).search.matches.contains(file)
            <==> visited.search.matches.contains(file) || exists|i: int|
            {
                &&& 0 <= i < count
                &&& grep_tool::is_searched(walk, rules, filter, #[trigger] entries[i])
                &&& file == (entries[i].modified, walk.shown(entries[i].path@))
            },
    decreases count,
{
    if count > 0 {
        lemma_found(walk, rules, filter, visited, entries, file, count - 1);
        let before = with_entries(walk, rules, filter, visited, entries, count - 1);
        let entry = entries[count - 1];
        grep_tool::lemma_pushed_contains(
            before.search.matches,
            (entry.modified, walk.shown(entry.path@)),
            file,
        );
        assert(grep_tool::is_searched(walk, rules, filter, entry) == (!entry.is_dir
            && walk.takes_file(rules, entry.path@) && filters::picked(
            filter,
            walk.shown(entry.path@),
        )));
    }
}

/// A file that is looked at is counted, and found just if the pattern picks the path that is shown of
/// it; what was found before stays.
pub proof fn law_files_are_counted_and_picked(
    search: GlobView,
    pattern: Seq<char>,
    shown: Seq<char>,
    modified: Modified,
)
    ensures
        ({
            let after = search.with_file(
                FilterView { glob: Some(pattern), file_type: None },
                shown,
                modified,
            );
            &&& after.searched_files == search.searched_files + 1
            &&& after.searched_directories == search.searched_directories
            &&& after.offset == search.offset
            &&& after.limit == search.limit
            &&& filters::glob_picks(pattern, shown) ==> {
                &&& after.matches.len() == search.matches.len() + 1
                &&& after.matches.drop_last() == search.matches
                &&& after.matches.last() == (modified, shown)
            }
            &&& !filters::glob_picks(pattern, shown) ==> after.matches == search.matches
        }),
        search.with_directory().searched_directories == search.searched_directories + 1,
        search.with_directory().searched_files == search.searched_files,
        search.with_directory().matches == search.matches,
        search.with_directory().offset == search.offset,
        search.with_directory().limit == search.limit,
{
    let after = search.with_file(
        FilterView { glob: Some(pattern), file_type: None },
        shown,
        modified,
    );
    if filters::glob_picks(pattern, shown) {
        assert(after.matches.drop_last() =~= search.matches);
    }
}

/// A page of files: as many as the offset says are skipped, and then as many are told as the limit
/// says, or all where the limit is nought.
pub proof fn law_page_starts_at_the_offset(search: GlobView)
    ensures
        search.offset <= search.matches.len() ==> search.start() == search.offset,
        search.offset > search.matches.len() ==> search.start() == search.matches.len(),
        search.limit == 0 ==> search.end() == search.matches.len(),
        search.limit > 0 && search.offset + search.limit <= search.matches.len() ==> search.end()
            - search.start() == search.limit,
        search.limit > 0 && search.offset + search.limit > search.matches.len() ==> search.end()
            == search.matches.len(),
{
}

/// What is told of the files: that there are none, that none is left behind those that were skipped,
/// or the paths of the page, in the order of the list and each in a line of its own, before a note on
/// the order, if one is due, and a line that says how many were told, of how many, and where to go on
/// if more are left.
pub proof fn law_page_of_files_is_told(search: GlobView)
    ensures
        search.matches.len() == 0 ==> search.text() == "No matches"@,
        search.matches.len() > 0 && search.offset >= search.matches.len() ==> search.text()
            == "No output: offset "@ + chars::decimal(search.offset as nat) + " is past end ("@
            + chars::decimal(search.matches.len()) + " file(s))"@,
        search.offset < search.matches.len() ==> {
            let total = search.matches.len();
            let first = search.offset as int;
            let next = if search.limit == 0 || first + search.limit > total {
                total as int
            } else {
                first + search.limit
            };
            let shown = Seq::new((next - first) as nat, |i: int| search.listed()[first + i].1);
            let note = match grep_tool::sort_note(
                Seq::new(search.listed().len(), |i: int| search.listed()[i].0),
            ) {
                Some(note) => "\n"@ + note,
                None => Seq::empty(),
            };
            let count = if next < total {
                "\n"@ + chars::decimal((next - first) as nat) + " of "@ + chars::decimal(total)
                    + " files (truncated, continue with offset="@ + chars::decimal(next as nat)
                    + ")"@
            } else if first > 0 {
                "\n"@ + chars::decimal((next - first) as nat) + " of "@ + chars::decimal(total)
                    + " files (offset="@ + chars::decimal(first as nat) + ")"@
            } else {
                "\n"@ + chars::decimal(total) + " files"@
            };
            search.text() == chars::join(shown, "\n"@) + note + count
        },
{
    if search.offset < search.matches.len() {
        let total = search.matches.len();
        let first = search.offset as int;
        let next = if search.limit == 0 || first + search.limit > total {
            total as int
        } else {
            first + search.limit
        };
        assert(search.start() == first && search.end() == next);
        order::lemma_ordered_len(search.matches, order::file_order(), total as int);
        let shown = Seq::new((next - first) as nat, |i: int| search.listed()[first + i].1);
        assert(paths_of(search.listed().subrange(first, next)) =~= shown);
        let times = Seq::new(search.listed().len(), |i: int| search.listed()[i].0);
        assert(times_of(search.listed()) =~= times);
        let note = match grep_tool::sort_note(times) {
            Some(note) => "\n"@ + note,
            None => Seq::empty(),
        };
        let count = if next < total {
            "\n"@ + chars::decimal((next - first) as nat) + " of "@ + chars::decimal(total)
                + " files (truncated, continue with offset="@ + chars::decimal(next as nat) + ")"@
        } else if first > 0 {
            "\n"@ + chars::decimal((next - first) as nat) + " of "@ + chars::decimal(total)
                + " files (offset="@ + chars::decimal(first as nat) + ")"@
        } else {
            "\n"@ + chars::decimal(total) + " files"@
        };
        let lines = chars::join(shown, "\n"@);
        if next < total {
            assert(search.text() =~= lines + note + count);
        } else if first > 0 {
            assert(search.text() =~= lines + note + count);
        } else {
            assert(search.text() =~= lines + note + count);
        }
    }
}

/// In the list no file stands before one that changed later; of files that changed at the same time,
/// or at a time that is not known, the one whose path comes first stands first.
pub proof fn law_newest_files_are_listed_first(search: GlobView)
    ensures
        search.listed().to_multiset() == search.matches.to_multiset(),
        forall|i: int, j: int|
            0 <= i < j < search.listed().len() ==> !order::listed_before(
                (#[trigger] search.listed()[j]).0,
                search.listed()[j].1,
                (#[trigger] search.listed()[i]).0,
                search.listed()[i].1,
            ),
{
    law_told_files_are_in_order(search);
    order::law_order_keeps_items(
        search.matches,
        order::file_order(),
        search.matches.len() as int,
    );
    assert(search.matches.take(search.matches.len() as int) =~= search.matches);
    let listed = search.listed();
    assert forall|i: int, j: int| 0 <= i < j < listed.len() implies !order::listed_before(
        (#[trigger] listed[j]).0,
        listed[j].1,
        (#[trigger] listed[i]).0,
        listed[i].1,
    ) by {
        assert(!order::file_order()(listed[j], listed[i]));
    }
}

/// Of the entries of a directory just those directories lie ahead that belong to no version control
/// system and that no rules leave out; the rules that hold in them are the ones that hold here.
pub proof fn law_wanted_directories_lie_ahead(
    walk: WalkView,
    rules: Seq<usize>,
    filter: FilterView,
    visited: Visited,
    entries: Seq<DirEntry>,
    dir: PendingDirView,
    count: int,
)
    requires
        0 <= count <= entries.len(),
    ensures
        with_entries(walk, rules, filter, visited, entries, count).pending.contains(dir)
            <==> visited.pending.contains(dir) || exists|i: int|
            {
                &&& 0 <= i < count
                &&& (#[trigger] entries[i]).is_dir
                &&& !paths::is_vcs_name(paths::file_name_of(entries[i].path@))
                &&& walk.include_ignored || !filters::left_out(
                    walk.store,
                    rules,
                    entries[i].path@,
                    true,
                )
                &&& dir.path == entries[i].path@
                &&& dir.rules == rules
            },
    decreases count,
{
    if count > 0 {
        law_wanted_directories_lie_ahead(walk, rules, filter, visited, entries, dir, count - 1);
        let before = with_entries(walk, rules, filter, visited, entries, count - 1);
        let entry = entries[count - 1];
        let ahead = PendingDirView { path: entry.path@, rules };
        grep_tool::lemma_pushed_contains(before.pending, ahead, dir);
        assert(dir == ahead <==> dir.path == entry.path@ && dir.rules == rules);
    }
}

/// A search does not start that was cancelled or whose pattern is none.
pub proof fn law_searches_are_refused_for_a_reason(input: GlobInput, cancelled: bool)
    ensures
        cancelled ==> start_failure(input, cancelled) == Some("glob cancelled"@),
        !cancelled ==> (start_failure(input, cancelled) is Some <==> filters::glob_failure(
            input.pattern@,
        ) is Some),
        !cancelled && filters::glob_failure(input.pattern@) is Some ==> start_failure(
            input,
            cancelled,
        ) == Some(
            "invalid glob `"@ + input.pattern@ + "`: "@ + filters::glob_failure(input.pattern@)->0,
        ),
{
}

/// What is told of the progress are the counts of the search as they are, and the path that was given.
pub proof fn law_progress_tells_the_counts(
    progress: GlobProgress,
    search: GlobView,
    path: Option<Seq<char>>,
)
    requires
        tells(progress, search, path),
    ensures
        progress.searched_directories == search.searched_directories,
        progress.searched_files == search.searched_files,
        progress.matched_files == search.matches.len(),
        path is Some ==> progress.current_path is Some && progress.current_path->Some_0@
            == path->Some_0,
        path is None ==> progress.current_path is None,
{
}

} // verus!
