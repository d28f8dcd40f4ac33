//! The search in the files of a workspace.

use crate::chars;
use crate::harness::tools::ToolUpdatePayload;
use crate::state;
use crate::workspace::bytes;
use crate::workspace::bytes::lossy_text;
use crate::workspace::filters;
use crate::workspace::filters::{FileFilter, FilterView};
use crate::workspace::order;
use crate::workspace::order::{modified_desc_then_path, sort_items, Modified};
use crate::workspace::paths;
use crate::workspace::walk;
use crate::workspace::walk::{DirEntry, PendingDir, PendingDirView, Walk, WalkView};
use grep::regex::{RegexMatcher, RegexMatcherBuilder};
use grep::searcher::{BinaryDetection, Searcher, SearcherBuilder, Sink, SinkContext, SinkMatch};
use vstd::prelude::*;

verus! {

pub const GREP_TOOL_NAME: &'static str = "grep";

pub const GREP_TOOL_DESCRIPTION: &'static str =
    "Search workspace files with ripgrep regex. Supports glob/type filters, content/files_with_matches/count output modes, context lines, and multiline matching. Respects .gitignore rules and always skips VCS directories. Use bash with rg options for explicit ignored-file scans.";

#[derive(Debug, PartialEq, Eq)]
pub struct GrepToolConfig {
    pub default_head_limit: usize,
}

impl Default for GrepToolConfig {
    fn default() -> (config: GrepToolConfig)
        ensures
            config.default_head_limit == 250,
    {
        GrepToolConfig { default_head_limit: 250 }
    }
}

/// A match that was found.
#[derive(Debug, PartialEq, Eq)]
pub struct GrepMatchFound {
    pub path: String,
    pub line_number: Option<u64>,
    pub byte_offset: u64,
    pub line_count: usize,
}

impl ToolUpdatePayload for GrepMatchFound {
    open spec fn spec_kind(&self) -> Seq<char> {
        "grep.match_found"@
    }

    fn kind(&self) -> (kind: &'static str) {
        "grep.match_found"
    }
}

/// How far a search has come.
#[derive(Debug, PartialEq, Eq)]
pub struct GrepProgress {
    pub searched_files: usize,
    pub matched_files: usize,
    pub current_path: Option<String>,
}

impl ToolUpdatePayload for GrepProgress {
    open spec fn spec_kind(&self) -> Seq<char> {
        "grep.progress"@
    }

    fn kind(&self) -> (kind: &'static str) {
        "grep.progress"
    }
}

/// What is told of matches: the lines, the files, or how many there are in each file.
#[derive(Debug, Clone, Copy, PartialEq, Eq, Structural)]
pub enum GrepOutputMode {
    Content,
    FilesWithMatches,
    Count,
}

impl Default for GrepOutputMode {
    fn default() -> (mode: GrepOutputMode)
        ensures
            mode == GrepOutputMode::FilesWithMatches,
    {
        GrepOutputMode::FilesWithMatches
    }
}

/// What is searched for, where, and how it is told.
#[derive(Debug, PartialEq, Eq)]
pub struct GrepInput {
    pub pattern: String,
    pub path: Option<String>,
    pub glob: Option<String>,
    pub output_mode: GrepOutputMode,
    pub before: Option<usize>,
    pub after: Option<usize>,
    pub context_flag: Option<usize>,
    pub context: Option<usize>,
    pub line_numbers: Option<bool>,
    pub case_insensitive: bool,
    pub file_type: Option<String>,
    pub head_limit: Option<usize>,
    pub offset: Option<usize>,
    pub multiline: bool,
    pub include_ignored: bool,
}

impl GrepInput {
    /// A search for a pattern with everything else left as it is by default.
    pub fn new(pattern: String) -> (input: GrepInput)
        ensures
            input == (GrepInput {
                pattern,
                path: None,
                glob: None,
                output_mode: GrepOutputMode::FilesWithMatches,
                before: None,
                after: None,
                context_flag: None,
                context: None,
                line_numbers: None,
                case_insensitive: false,
                file_type: None,
                head_limit: None,
                offset: None,
                multiline: false,
                include_ignored: false,
            }),
    {
        GrepInput {
            pattern,
            path: None,
            glob: None,
            output_mode: GrepOutputMode::FilesWithMatches,
            before: None,
            after: None,
            context_flag: None,
            context: None,
            line_numbers: None,
            case_insensitive: false,
            file_type: None,
            head_limit: None,
            offset: None,
            multiline: false,
            include_ignored: false,
        }
    }

    /// The filter for the files that are searched, or why there is none.
    pub fn filter(&self) -> (filter: Result<FileFilter, String>)
        ensures
            match filter {
                Ok(filter) => {
                    &&& filters::filter_failure(wanted_filter(*self)) is None
                    &&& filter@ == wanted_filter(*self)
                },
                Err(message) => filters::filter_failure(wanted_filter(*self)) == Some(message@),
            },
    {
        let glob = match &self.glob {
            Some(glob) => Some(glob.as_str()),
            None => None,
        };
        let file_type = match &self.file_type {
            Some(file_type) => Some(file_type.as_str()),
            None => None,
        };
        FileFilter::new(glob, file_type)
    }
}

/// How lines are searched and shown.
#[derive(Debug, Clone, Copy, PartialEq, Eq, Structural)]
pub struct SearchOptions {
    pub before_context: usize,
    pub after_context: usize,
    pub line_numbers: bool,
    pub multiline: bool,
}

pub open spec fn or_else(value: Option<usize>, other: usize) -> usize {
    match value {
        Some(value) => value,
        None => other,
    }
}

/// The options that an input asks for: lines before and after a match by their own numbers, or by
/// the one for both.
pub open spec fn options_of(input: GrepInput) -> SearchOptions {
    let context = or_else(input.context_flag, or_else(input.context, 0));
    SearchOptions {
        before_context: or_else(input.before, context),
        after_context: or_else(input.after, context),
        line_numbers: match input.line_numbers {
            Some(line_numbers) => line_numbers,
            None => true,
        },
        multiline: input.multiline,
    }
}

impl SearchOptions {
    pub fn from_input(input: &GrepInput) -> (options: SearchOptions)
        ensures
            options == options_of(*input),
            input.before matches Some(lines) ==> options.before_context == lines,
            input.after matches Some(lines) ==> options.after_context == lines,
            input.context_flag matches Some(lines) ==> {
                &&& input.before is None ==> options.before_context == lines
                &&& input.after is None ==> options.after_context == lines
            },
            input.context_flag is None && input.context is Some ==> {
                &&& input.before is None ==> options.before_context == input.context->0
                &&& input.after is None ==> options.after_context == input.context->0
            },
            input.context_flag is None && input.context is None ==> {
                &&& input.before is None ==> options.before_context == 0
                &&& input.after is None ==> options.after_context == 0
            },
            input.line_numbers matches Some(shown) ==> options.line_numbers == shown,
            input.line_numbers is None ==> options.line_numbers,
            options.multiline == input.multiline,
    {
        let context: usize = match input.context_flag {
            Some(context) => context,
            None => match input.context {
                Some(context) => context,
                None => 0,
            },
        };
        SearchOptions {
            before_context: match input.before {
                Some(before) => before,
                None => context,
            },
            after_context: match input.after {
                Some(after) => after,
                None => context,
            },
            line_numbers: match input.line_numbers {
                Some(line_numbers) => line_numbers,
                None => true,
            },
            multiline: input.multiline,
        }
    }
}

/// `grep::regex::RegexMatcher`: a pattern that can be searched for.
#[verifier::external_type_specification]
#[verifier::external_body]
pub struct ExRegexMatcher(grep::regex::RegexMatcher);

/// `grep::searcher::Searcher`: the options of a search.
#[verifier::external_type_specification]
#[verifier::external_body]
pub struct ExSearcher(grep::searcher::Searcher);

/// The pattern that a matcher was made from.
pub uninterp spec fn matcher_pattern(matcher: RegexMatcher) -> Seq<char>;

/// Whether a matcher takes capitals and small letters for the same, and whether its dot matches
/// line breaks.
pub uninterp spec fn matcher_flags(matcher: RegexMatcher) -> Seq<bool>;

/// Why a pattern cannot be searched for, if it cannot.
pub uninterp spec fn pattern_failure(
    pattern: Seq<char>,
    case_insensitive: bool,
    multiline: bool,
) -> Option<Seq<char>>;

/// How many lines a searcher gives before and after a match.
pub uninterp spec fn searcher_context(searcher: Searcher) -> Seq<usize>;

/// Whether a searcher numbers lines, and whether it searches across them.
pub uninterp spec fn searcher_flags(searcher: Searcher) -> Seq<bool>;

/// The byte at which a searcher stops.
pub uninterp spec fn searcher_stop(searcher: Searcher) -> u8;

/// A file that holds this byte is no text: it is searched no further.
pub const BINARY_BYTE: u8 = 0;

/// `RegexMatcherBuilder::build`, with `case_insensitive` and `dot_matches_new_line` set: a matcher
/// for a pattern, or what is wrong with it. The options that a search is not asked for are off by
/// default.
#[verifier::external_body]
fn compile_pattern(pattern: &str, case_insensitive: bool, multiline: bool) -> (compiled: Result<
    RegexMatcher,
    String,
>)
    ensures
        match compiled {
            Ok(matcher) => {
                &&& pattern_failure(pattern@, case_insensitive, multiline) is None
                &&& matcher_pattern(matcher) == pattern@
                &&& matcher_flags(matcher) == seq![case_insensitive, multiline]
            },
            Err(message) => pattern_failure(pattern@, case_insensitive, multiline) == Some(
                message@,
            ),
        },
{
    let mut builder = RegexMatcherBuilder::new();
    builder.case_insensitive(case_insensitive);
    builder.dot_matches_new_line(multiline);
    match builder.build(pattern) {
        Ok(matcher) => Ok(matcher),
        Err(error) => Err(error.to_string()),
    }
}

/// A matcher for the pattern of an input, or why there is none.
pub fn build_matcher(input: &GrepInput) -> (built: Result<RegexMatcher, String>)
    ensures
        match built {
            Ok(matcher) => {
                &&& pattern_failure(
                    input.pattern@,
                    input.case_insensitive,
                    input.multiline,
                ) is None
                &&& matcher_pattern(matcher) == input.pattern@
                &&& matcher_flags(matcher) == seq![input.case_insensitive, input.multiline]
            },
            Err(message) => pattern_failure(
                input.pattern@,
                input.case_insensitive,
                input.multiline,
            ) matches Some(failure) && message@ == "invalid regex pattern: "@ + failure,
        },
{
    match compile_pattern(input.pattern.as_str(), input.case_insensitive, input.multiline) {
        Ok(matcher) => Ok(matcher),
        Err(error) => {
            let mut message: String = "invalid regex pattern: ".to_owned();
            message.append(error.as_str());
            Err(message)
        },
    }
}

/// `SearcherBuilder::build`: a searcher that numbers lines, gives lines before and after a match and
/// searches across lines as it is told, and stops where it finds a byte.
#[verifier::external_body]
fn make_searcher(
    before: usize,
    after: usize,
    line_numbers: bool,
    multiline: bool,
    stop: u8,
) -> (searcher: Searcher)
    ensures
        searcher_context(searcher) == seq![before, after],
        searcher_flags(searcher) == seq![line_numbers, multiline],
        searcher_stop(searcher) == stop,
{
    SearcherBuilder::new()
        .line_number(line_numbers)
        .before_context(before)
        .after_context(after)
        .multi_line(multiline)
        .binary_detection(BinaryDetection::quit(stop))
        .build()
}

/// The searcher that options ask for.
pub fn build_searcher(options: &SearchOptions) -> (searcher: Searcher)
    ensures
        searcher_context(searcher) == seq![options.before_context, options.after_context],
        searcher_flags(searcher) == seq![options.line_numbers, options.multiline],
        searcher_stop(searcher) == BINARY_BYTE,
{
    make_searcher(
        options.before_context,
        options.after_context,
        options.line_numbers,
        options.multiline,
        BINARY_BYTE,
    )
}

/// The lines of output, of which some are skipped and no more than some are kept.
#[derive(Debug)]
pub struct OutputCollector {
    offset: usize,
    limit: usize,
    seen: usize,
    lines: Vec<String>,
    truncated: bool,
    matched_files: Vec<Modified>,
}

/// The lines of output, as plain values.
pub struct CollectorView {
    pub offset: usize,
    pub limit: usize,
    pub seen: int,
    pub lines: Seq<Seq<char>>,
    pub truncated: bool,
    pub matched_files: Seq<Modified>,
}

impl View for OutputCollector {
    type V = CollectorView;

    closed spec fn view(&self) -> CollectorView {
        CollectorView {
            offset: self.offset,
            limit: self.limit,
            seen: self.seen as int,
            lines: chars::texts(self.lines@),
            truncated: self.truncated,
            matched_files: self.matched_files@,
        }
    }
}

/// What files are ordered by, where that is worth a note.
pub open spec fn sort_note(files: Seq<Modified>) -> Option<Seq<char>> {
    if files.len() <= 1 || !files.contains(Modified::Unknown) {
        None
    } else if forall|i: int| 0 <= i < files.len() ==> #[trigger] files[i] == Modified::Unknown {
        Some("[sort: path order; modification time unavailable from VFS for matched files]"@)
    } else {
        Some(
            "[sort: modification time descending; matched files without modification time sorted by path]"@,
        )
    }
}

pub fn sort_note_for(files: &Vec<Modified>) -> (note: Option<&'static str>)
    ensures
        match note {
            Some(note) => sort_note(files@) == Some(note@),
            None => sort_note(files@) is None,
        },
{
    if files.len() <= 1 {
        return None;
    }
    let mut any_unknown = false;
    let mut any_known = false;
    let mut i: usize = 0;
    while i < files.len()
        invariant
            i <= files@.len(),
            any_unknown == exists|j: int|
                0 <= j < i && #[trigger] files@[j] == Modified::Unknown,
            any_known == exists|j: int| 0 <= j < i && #[trigger] files@[j] != Modified::Unknown,
        decreases files@.len() - i,
    {
        let ghost was_unknown = any_unknown;
        let ghost was_known = any_known;
        if files[i] == Modified::Unknown {
            any_unknown = true;
            assert(files@[i as int] == Modified::Unknown);
        } else {
            any_known = true;
            assert(files@[i as int] != Modified::Unknown);
        }
        i = i + 1;
    }
    if !any_unknown {
        assert(!files@.contains(Modified::Unknown));
        return None;
    }
    assert(files@.contains(Modified::Unknown));
    if !any_known {
        Some("[sort: path order; modification time unavailable from VFS for matched files]")
    } else {
        Some(
            "[sort: modification time descending; matched files without modification time sorted by path]",
        )
    }
}

impl CollectorView {
    /// The output after one more line, and whether more can be taken.
    pub open spec fn pushed(self, line: Seq<char>) -> (CollectorView, bool) {
        let counted = CollectorView { seen: self.seen + 1, ..self };
        if self.seen < self.offset {
            (counted, true)
        } else if self.limit == 0 || self.lines.len() < self.limit {
            (CollectorView { lines: self.lines.push(line), ..counted }, true)
        } else {
            (CollectorView { truncated: true, ..counted }, false)
        }
    }

    /// All of the output as text.
    pub open spec fn text(self) -> Seq<char> {
        if self.seen == 0 {
            "No matches"@
        } else if self.lines.len() == 0 {
            "No output: offset "@ + chars::decimal(self.offset as nat) + " is past end ("@
                + chars::decimal(self.seen as nat) + " line(s))"@
        } else {
            let lines = chars::join(self.lines, "\n"@);
            let cut = if self.truncated {
                lines + "\n[truncated: reached head_limit; continue with offset="@
                    + chars::decimal((self.offset + self.lines.len()) as nat) + "]"@
            } else {
                lines
            };
            match sort_note(self.matched_files) {
                Some(note) => cut + "\n"@ + note,
                None => cut,
            }
        }
    }
}

impl OutputCollector {
    #[verifier::type_invariant]
    closed spec fn inv(&self) -> bool {
        self.lines@.len() > 0 ==> self.offset + self.lines@.len() <= self.seen
    }

    pub fn new(offset: usize, limit: usize) -> (output: OutputCollector)
        ensures
            output@ == (CollectorView {
                offset,
                limit,
                seen: 0,
                lines: Seq::empty(),
                truncated: false,
                matched_files: Seq::empty(),
            }),
    {
        let output = OutputCollector {
            offset,
            limit,
            seen: 0,
            lines: Vec::new(),
            truncated: false,
            matched_files: Vec::new(),
        };
        assert(output@.lines =~= Seq::<Seq<char>>::empty());
        output
    }

    /// Takes one more line, and tells whether more can be taken.
    pub fn push(&mut self, line: String) -> (more: bool)
        requires
            old(self)@.seen < usize::MAX,
        ensures
            (final(self)@, more) == old(self)@.pushed(line@),
    {
        proof {
            use_type_invariant(&*self);
        }
        let ghost before = self@;
        let index: usize = self.seen;
        self.seen = self.seen + 1;
        if index < self.offset {
            return true;
        }
        if self.limit == 0 || self.lines.len() < self.limit {
            let mut lines: Vec<String> = Vec::new();
            std::mem::swap(&mut lines, &mut self.lines);
            proof {
                chars::lemma_texts_push(lines@, line);
            }
            lines.push(line);
            self.lines = lines;
            assert(self@.lines =~= before.lines.push(line@));
            true
        } else {
            self.truncated = true;
            false
        }
    }

    pub fn record_matched_file(&mut self, modified: Modified)
        ensures
            final(self)@ == (CollectorView {
                matched_files: old(self)@.matched_files.push(modified),
                ..old(self)@
            }),
    {
        proof {
            use_type_invariant(&*self);
        }
        let mut files: Vec<Modified> = Vec::new();
        std::mem::swap(&mut files, &mut self.matched_files);
        files.push(modified);
        self.matched_files = files;
    }

    fn seen(&self) -> (seen: usize)
        ensures
            seen == self@.seen,
    {
        self.seen
    }

    pub fn should_stop(&self) -> (stop: bool)
        ensures
            stop == self@.truncated,
    {
        self.truncated
    }

    pub fn finish(self) -> (text: String)
        ensures
            text@ == self@.text(),
    {
        proof {
            use_type_invariant(&self);
        }
        if self.seen == 0 {
            return "No matches".to_owned();
        }
        if self.lines.len() == 0 {
            let mut text: String = "No output: offset ".to_owned();
            text.append(chars::format_decimal(self.offset as u64).as_str());
            text.append(" is past end (");
            text.append(chars::format_decimal(self.seen as u64).as_str());
            text.append(" line(s))");
            return text;
        }
        let mut text = chars::join_texts(&self.lines, "\n");
        if self.truncated {
            text.append("\n[truncated: reached head_limit; continue with offset=");
            let next: usize = self.offset + self.lines.len();
            text.append(chars::format_decimal(next as u64).as_str());
            text.append("]");
        }
        if let Some(note) = sort_note_for(&self.matched_files) {
            text.append("\n");
            text.append(note);
        }
        text
    }
}

/// No more lines are kept than the limit allows, and the first ones are skipped.
pub proof fn law_output_stays_in_limits(output: CollectorView, line: Seq<char>)
    requires
        output.limit > 0,
        output.lines.len() <= output.limit,
    ensures
        output.pushed(line).0.lines.len() <= output.limit,
        output.seen < output.offset ==> output.pushed(line).0.lines == output.lines,
        !output.pushed(line).1 ==> output.lines.len() == output.limit
            && output.pushed(line).0.truncated,
{
}

/// What is pushed while there is room stands in the output in its order.
pub proof fn law_output_keeps_order(output: CollectorView, line: Seq<char>)
    requires
        output.seen >= output.offset,
        output.limit == 0 || output.lines.len() < output.limit,
    ensures
        output.pushed(line).0.lines == output.lines.push(line),
        output.pushed(line).1,
{
}

pub const GREP_CANCELLED: &'static str = "grep cancelled";

/// A search that can start.
pub struct GrepPlan {
    pub matcher: RegexMatcher,
    pub filter: FileFilter,
    pub options: SearchOptions,
    pub mode: GrepOutputMode,
    /// Where the search starts; nothing stands for the workspace itself.
    pub path: String,
    pub include_ignored: bool,
    pub output: OutputCollector,
}

/// The filter that an input asks for.
pub open spec fn wanted_filter(input: GrepInput) -> FilterView {
    FilterView {
        glob: state::optional_text(input.glob),
        file_type: state::optional_text(input.file_type),
    }
}

/// Why a search cannot start, if it cannot: it was cancelled, its pattern is none, or its filter is
/// none, in that order.
pub open spec fn start_failure(input: GrepInput, cancelled: bool) -> Option<Seq<char>> {
    if cancelled {
        Some("grep cancelled"@)
    } else {
        match pattern_failure(input.pattern@, input.case_insensitive, input.multiline) {
            Some(failure) => Some("invalid regex pattern: "@ + failure),
            None => filters::filter_failure(wanted_filter(input)),
        }
    }
}

/// Prepares the search that an input asks for.
pub fn plan_search(input: GrepInput, config: &GrepToolConfig, cancelled: bool) -> (planned: Result<
    GrepPlan,
    String,
>)
    ensures
        match planned {
            Ok(plan) => {
                &&& start_failure(input, cancelled) is None
                &&& matcher_pattern(plan.matcher) == input.pattern@
                &&& matcher_flags(plan.matcher) == seq![input.case_insensitive, input.multiline]
                &&& plan.filter@ == wanted_filter(input)
                &&& plan.options == options_of(input)
                &&& plan.mode == input.output_mode
                &&& plan.path@ == (match input.path {
                    Some(path) => path@,
                    None => ""@,
                })
                &&& plan.include_ignored == input.include_ignored
                &&& plan.output@ == (CollectorView {
                    offset: or_else(input.offset, 0),
                    limit: or_else(input.head_limit, config.default_head_limit),
                    seen: 0,
                    lines: Seq::empty(),
                    truncated: false,
                    matched_files: Seq::empty(),
                })
                &&& input.before matches Some(lines) ==> plan.options.before_context == lines
                &&& input.after matches Some(lines) ==> plan.options.after_context == lines
                &&& input.context_flag matches Some(lines) ==> {
                    &&& input.before is None ==> plan.options.before_context == lines
                    &&& input.after is None ==> plan.options.after_context == lines
                }
                &&& input.context_flag is None && input.context is Some ==> {
                    &&& input.before is None ==> plan.options.before_context == input.context->0
                    &&& input.after is None ==> plan.options.after_context == input.context->0
                }
                &&& input.line_numbers matches Some(shown) ==> plan.options.line_numbers == shown
                &&& input.line_numbers is None ==> plan.options.line_numbers
                &&& plan.options.multiline == input.multiline
                &&& input.glob matches Some(glob) ==> plan.filter@.glob == Some(glob@)
                &&& input.glob is None ==> plan.filter@.glob is None
                &&& input.file_type matches Some(name) ==> plan.filter@.file_type == Some(name@)
                &&& input.file_type is None ==> plan.filter@.file_type is None
                &&& input.offset matches Some(offset) ==> plan.output@.offset == offset
                &&& input.offset is None ==> plan.output@.offset == 0
                &&& input.head_limit matches Some(limit) ==> plan.output@.limit == limit
                &&& input.head_limit is None ==> plan.output@.limit == config.default_head_limit
            },
            Err(message) => start_failure(input, cancelled) == Some(message@),
        },
{
    if cancelled {
        return Err(GREP_CANCELLED.to_owned());
    }
    let matcher = match build_matcher(&input) {
        Ok(matcher) => matcher,
        Err(message) => {
            return Err(message);
        },
    };
    let filter = match input.filter() {
        Ok(filter) => filter,
        Err(message) => {
            return Err(message);
        },
    };
    let options = SearchOptions::from_input(&input);
    let offset: usize = match input.offset {
        Some(offset) => offset,
        None => 0,
    };
    let limit: usize = match input.head_limit {
        Some(limit) => limit,
        None => config.default_head_limit,
    };
    let path = match input.path {
        Some(path) => path,
        None => "".to_owned(),
    };
    Ok(
        GrepPlan {
            matcher,
            filter,
            options,
            mode: input.output_mode,
            path,
            include_ignored: input.include_ignored,
            output: OutputCollector::new(offset, limit),
        },
    )
}

/// A file that is to be searched.
#[derive(Debug)]
pub struct CandidateFile {
    pub path: String,
    pub display_path: String,
    pub byte_len: u64,
    pub modified: Modified,
}

/// A file that is to be searched, as plain values.
pub struct CandidateView {
    pub path: Seq<char>,
    pub display_path: Seq<char>,
    pub byte_len: u64,
    pub modified: Modified,
}

impl View for CandidateFile {
    type V = CandidateView;

    open spec fn view(&self) -> CandidateView {
        CandidateView {
            path: self.path@,
            display_path: self.display_path@,
            byte_len: self.byte_len,
            modified: self.modified,
        }
    }
}

pub open spec fn candidate_views(files: Seq<CandidateFile>) -> Seq<CandidateView> {
    Seq::new(files.len(), |i: int| files[i]@)
}

/// What has been found on the way: the directories ahead, and the files to search.
pub struct Found {
    pub pending: Seq<PendingDirView>,
    pub candidates: Seq<CandidateView>,
}

/// The file that an entry is, as it is searched.
pub open spec fn candidate_of(walk: WalkView, entry: DirEntry) -> CandidateView {
    CandidateView {
        path: entry.path@,
        display_path: walk.shown(entry.path@),
        byte_len: entry.byte_len,
        modified: entry.modified,
    }
}

/// What one more entry adds to what was found.
pub open spec fn with_entry(
    walk: WalkView,
    rules: Seq<usize>,
    filter: FilterView,
    found: Found,
    entry: DirEntry,
) -> Found {
    if entry.is_dir {
        if walk.takes_dir(rules, entry.path@) {
            Found {
                pending: found.pending.push(PendingDirView { path: entry.path@, rules }),
                ..found
            }
        } else {
            found
        }
    } else if walk.takes_file(rules, entry.path@) && filters::picked(
        filter,
        walk.shown(entry.path@),
    ) {
        Found { candidates: found.candidates.push(candidate_of(walk, entry)), ..found }
    } else {
        found
    }
}

/// What the last `count` entries of a directory, from the end, add to what was found.
pub open spec fn with_entries(
    walk: WalkView,
    rules: Seq<usize>,
    filter: FilterView,
    found: Found,
    entries: Seq<DirEntry>,
    count: int,
) -> Found
    decreases count,
{
    if count <= 0 {
        found
    } else {
        with_entry(
            walk,
            rules,
            filter,
            with_entries(walk, rules, filter, found, entries, count - 1),
            entries[entries.len() - count],
        )
    }
}

/// Starts at a file, which is searched if the filter picks it, or at a directory, which lies ahead.
pub fn begin_search(
    walk: &mut Walk,
    start: DirEntry,
    rules: Vec<usize>,
    filter: &FileFilter,
    candidates: &mut Vec<CandidateFile>,
)
    requires
        old(walk)@.well_formed(),
        paths::tidy(start.path@),
        walk::all_stored(rules@, old(walk)@.store.len()),
    ensures
        final(walk)@.well_formed(),
        ({
            let starts = old(walk)@.starts_at(rules@, start.path@, start.is_dir);
            &&& final(walk)@ == (if starts && start.is_dir {
                WalkView {
                    pending: old(walk)@.pending.push(
                        PendingDirView { path: start.path@, rules: rules@ },
                    ),
                    ..old(walk)@
                }
            } else {
                old(walk)@
            })
            &&& candidate_views(final(candidates)@) == (if starts && !start.is_dir
                && filters::picked(filter@, old(walk)@.shown(start.path@)) {
                candidate_views(old(candidates)@).push(candidate_of(old(walk)@, start))
            } else {
                candidate_views(old(candidates)@)
            })
        }),
{
    if !walk.starts_at(&rules, start.path.as_str(), start.is_dir) {
        return;
    }
    if start.is_dir {
        let ghost before = walk@;
        walk.pending.push_back(PendingDir { path: start.path, rules });
        assert(walk@.pending =~= before.pending.push(
            PendingDirView { path: start.path@, rules: rules@ },
        ));
        return;
    }
    let shown = walk.shown(start.path.as_str());
    if filter.matches(shown.as_str()) {
        let ghost before = candidate_views(candidates@);
        candidates.push(
            CandidateFile {
                path: start.path,
                display_path: shown,
                byte_len: start.byte_len,
                modified: start.modified,
            },
        );
        assert(candidate_views(candidates@) =~= before.push(candidate_of(walk@, start)));
    }
}

/// The directory to look into next: the one that was found last. A search that was cancelled fails
/// where there is one.
pub fn next_directory(walk: &mut Walk, cancelled: bool) -> (next: Result<
    Option<PendingDir>,
    String,
>)
    requires
        old(walk)@.well_formed(),
    ensures
        final(walk)@.well_formed(),
        match next {
            Ok(Some(dir)) => {
                &&& !cancelled
                &&& old(walk)@.pending.len() > 0
                &&& dir@ == old(walk)@.pending.last()
                &&& final(walk)@ == (WalkView {
                    pending: old(walk)@.pending.drop_last(),
                    ..old(walk)@
                })
                &&& walk::all_stored(dir.rules@, final(walk)@.store.len())
            },
            Ok(None) => old(walk)@.pending.len() == 0 && final(walk)@ == old(walk)@,
            Err(message) => {
                &&& cancelled
                &&& old(walk)@.pending.len() > 0
                &&& message@ == GREP_CANCELLED@
                &&& final(walk)@ == old(walk)@
            },
        },
{
    let ghost before = walk@;
    if cancelled && walk.pending.len() > 0 {
        return Err(GREP_CANCELLED.to_owned());
    }
    match walk.pending.pop_back() {
        Some(dir) => {
            assert(walk@.pending =~= before.pending.drop_last());
            assert(dir@ == before.pending.last());
            Ok(Some(dir))
        },
        None => {
            assert(walk@.pending =~= before.pending);
            Ok(None)
        },
    }
}

/// Takes in the entries of a directory where some rules hold.
pub fn collect_entries(
    walk: &mut Walk,
    rules: &Vec<usize>,
    entries: Vec<DirEntry>,
    filter: &FileFilter,
    candidates: &mut Vec<CandidateFile>,
)
    requires
        old(walk)@.well_formed(),
        walk::all_tidy(entries@),
        walk::all_stored(rules@, old(walk)@.store.len()),
    ensures
        final(walk)@.well_formed(),
        ({
            let sorted = walk::sorted_entries(entries@, old(walk)@.root.len() == 0);
            let found = with_entries(
                old(walk)@,
                rules@,
                filter@,
                Found {
                    pending: old(walk)@.pending,
                    candidates: candidate_views(old(candidates)@),
                },
                sorted,
                sorted.len() as int,
            );
            &&& final(walk)@ == (WalkView { pending: found.pending, ..old(walk)@ })
            &&& candidate_views(final(candidates)@) == found.candidates
        }),
{
    let ghost before = walk@;
    let ghost found = Found {
        pending: before.pending,
        candidates: candidate_views(candidates@),
    };
    let sorted = walk.sort_entries(entries);
    let total: usize = sorted.len();
    let mut left: usize = total;
    while left > 0
        invariant
            left <= total,
            total == sorted@.len(),
            walk::all_tidy(sorted@),
            walk::all_stored(rules@, before.store.len()),
            before.well_formed(),
            walk@.well_formed(),
            walk@ == (WalkView { pending: walk@.pending, ..before }),
            walk@.pending == with_entries(
                before,
                rules@,
                filter@,
                found,
                sorted@,
                total - left,
            ).pending,
            candidate_views(candidates@) == with_entries(
                before,
                rules@,
                filter@,
                found,
                sorted@,
                total - left,
            ).candidates,
        decreases left,
    {
        let ghost so_far = with_entries(before, rules@, filter@, found, sorted@, total - left);
        let entry = &sorted[left - 1];
        assert(sorted@[sorted@.len() - (total - left + 1)] == *entry);
        let ghost pending_before = walk@.pending;
        let ghost candidates_before = candidate_views(candidates@);
        if entry.is_dir {
            if walk.takes_dir(rules, entry.path.as_str()) {
                let dir = PendingDir {
                    path: entry.path.clone(),
                    rules: walk::copy_rules(rules),
                };
                assert(dir@ == (PendingDirView { path: entry.path@, rules: rules@ }));
                walk.pending.push_back(dir);
                assert(walk@.pending =~= pending_before.push(dir@));
            }
        } else if walk.takes_file(rules, entry.path.as_str()) {
            let shown = walk.shown(entry.path.as_str());
            if filter.matches(shown.as_str()) {
                candidates.push(
                    CandidateFile {
                        path: entry.path.clone(),
                        display_path: shown,
                        byte_len: entry.byte_len,
                        modified: entry.modified,
                    },
                );
                assert(candidate_views(candidates@) =~= candidates_before.push(
                    candidate_of(before, *entry),
                ));
            }
        }
        left = left - 1;
    }
}

/// The order in which files are searched.
pub open spec fn candidate_order() -> spec_fn(CandidateFile, CandidateFile) -> bool {
    |left: CandidateFile, right: CandidateFile|
        order::listed_before(
            left.modified,
            left.display_path@,
            right.modified,
            right.display_path@,
        )
}

/// Puts files in the order in which they are searched: the ones changed last come first.
pub fn sort_candidates(files: Vec<CandidateFile>) -> (sorted: Vec<CandidateFile>)
    ensures
        sorted@ == order::ordered(files@, candidate_order(), files@.len() as int),
{
    let is_before = |left: &CandidateFile, right: &CandidateFile| -> (r: bool)
        ensures
            (r == candidate_order()(*left, *right)),
        {
            modified_desc_then_path(
                left.modified,
                left.display_path.as_str(),
                right.modified,
                right.display_path.as_str(),
            )
        };
    sort_items(files, is_before, Ghost(candidate_order()))
}

/// The search through files that are in order.
#[derive(Debug)]
pub struct SearchRun {
    pub files: Vec<CandidateFile>,
    pub searched: usize,
    pub matched: usize,
    pub output: OutputCollector,
}

/// What comes next in a search.
#[derive(Debug)]
pub enum SearchStep {
    /// The next file is searched.
    Search(GrepProgress),
    Cancelled,
    Done(GrepProgress),
}

/// What is told of the progress.
pub open spec fn tells_progress(
    progress: GrepProgress,
    searched: int,
    matched: usize,
    current: Option<Seq<char>>,
) -> bool {
    &&& progress.searched_files == searched
    &&& progress.matched_files == matched
    &&& state::optional_text(progress.current_path) == current
}

impl SearchRun {
    pub fn new(files: Vec<CandidateFile>, output: OutputCollector) -> (run: SearchRun)
        ensures
            run == (SearchRun { files, searched: 0, matched: 0, output }),
    {
        SearchRun { files, searched: 0, matched: 0, output }
    }

    /// What comes next: the next file, unless all have been searched, the search was cancelled, or
    /// no more output can be taken.
    pub fn next(&mut self, cancelled: bool) -> (step: SearchStep)
        ensures
            final(self).files == old(self).files,
            final(self).matched == old(self).matched,
            final(self).output == old(self).output,
            ({
                let more = old(self).searched < old(self).files@.len();
                match step {
                    SearchStep::Search(progress) => {
                        &&& more && !cancelled && !old(self).output@.truncated
                        &&& final(self).searched == old(self).searched + 1
                        &&& tells_progress(
                            progress,
                            old(self).searched + 1,
                            old(self).matched,
                            Some(old(self).files@[old(self).searched as int].display_path@),
                        )
                    },
                    SearchStep::Cancelled => {
                        &&& more && cancelled
                        &&& final(self).searched == old(self).searched
                    },
                    SearchStep::Done(progress) => {
                        &&& !more || (!cancelled && old(self).output@.truncated)
                        &&& final(self).searched == old(self).searched
                        &&& tells_progress(
                            progress,
                            old(self).searched as int,
                            old(self).matched,
                            None,
                        )
                    },
                }
            }),
    {
        if self.searched < self.files.len() {
            if cancelled {
                return SearchStep::Cancelled;
            }
            if !self.output.should_stop() {
                let current = self.files[self.searched].display_path.clone();
                self.searched = self.searched + 1;
                return SearchStep::Search(
                    GrepProgress {
                        searched_files: self.searched,
                        matched_files: self.matched,
                        current_path: Some(current),
                    },
                );
            }
        }
        SearchStep::Done(
            GrepProgress {
                searched_files: self.searched,
                matched_files: self.matched,
                current_path: None,
            },
        )
    }

    /// The file at hand has been searched.
    pub fn finish_file(&mut self, has_match: bool)
        requires
            0 < old(self).searched <= old(self).files@.len(),
            old(self).matched < old(self).searched,
        ensures
            final(self).files == old(self).files,
            final(self).searched == old(self).searched,
            final(self).matched == (if has_match {
                old(self).matched + 1
            } else {
                old(self).matched as int
            }),
            final(self).output@ == (if has_match {
                CollectorView {
                    matched_files: old(self).output@.matched_files.push(
                        old(self).files@[old(self).searched - 1].modified,
                    ),
                    ..old(self).output@
                }
            } else {
                old(self).output@
            }),
    {
        if has_match {
            self.matched = self.matched + 1;
            let modified = self.files[self.searched - 1].modified;
            self.output.record_matched_file(modified);
        }
    }
}

#[derive(Debug, Clone, Copy, PartialEq, Eq, Structural)]
pub enum GrepLineKind {
    Match,
    Context,
}

/// A line of output: the path, the number of the line where that is shown, and its text.
pub open spec fn line_text(
    path: Seq<char>,
    kind: GrepLineKind,
    line_number: Option<u64>,
    text: Seq<char>,
    show_line_numbers: bool,
) -> Seq<char> {
    let separator = match kind {
        GrepLineKind::Match => ":"@,
        GrepLineKind::Context => "-"@,
    };
    match line_number {
        Some(number) if show_line_numbers => path + separator + chars::decimal(number as nat)
            + separator + text,
        _ => path + separator + text,
    }
}

pub fn render_grep_line(
    path: &str,
    kind: GrepLineKind,
    line_number: Option<u64>,
    text: &str,
    show_line_numbers: bool,
) -> (line: String)
    ensures
        line@ == line_text(path@, kind, line_number, text@, show_line_numbers),
{
    let separator: &'static str = match kind {
        GrepLineKind::Match => ":",
        GrepLineKind::Context => "-",
    };
    let mut line: String = path.to_owned();
    line.append(separator);
    if show_line_numbers {
        if let Some(number) = line_number {
            line.append(chars::format_decimal(number).as_str());
            line.append(separator);
        }
    }
    line.append(text);
    line
}

/// A text without the line break characters at its end.
pub open spec fn without_line_end(text: Seq<char>) -> Seq<char> {
    text.take(text.len() - chars::trailing(text, |c: char| c == '\n' || c == '\r'))
}

/// A line of a file as text.
pub fn bytes_to_line(line: &Vec<u8>) -> (text: String)
    ensures
        text@ == without_line_end(bytes::lossy(line@)),
{
    let whole = lossy_text(line);
    let characters = chars::chars_of(whole.as_str());
    let ghost is_end = |c: char| c == '\n' || c == '\r';
    let mut end: usize = characters.len();
    assert(whole@.take(end as int) =~= whole@);
    while end > 0 && (characters[end - 1] == '\n' || characters[end - 1] == '\r')
        invariant
            end <= characters@.len(),
            characters@ == whole@,
            is_end == (|c: char| c == '\n' || c == '\r'),
            chars::trailing(whole@, is_end) == (whole@.len() - end) + chars::trailing(
                whole@.take(end as int),
                is_end,
            ),
        decreases end,
    {
        assert(whole@.take(end as int).drop_last() =~= whole@.take(end - 1));
        end = end - 1;
    }
    assert(chars::trailing(whole@.take(end as int), is_end) == 0);
    let text = chars::text_of(characters.as_slice(), 0, end);
    assert(text@ =~= without_line_end(whole@));
    text
}

/// The lines of a match, as plain values.
pub open spec fn byte_lines(lines: Seq<Vec<u8>>) -> Seq<Seq<u8>> {
    Seq::new(lines.len(), |i: int| lines[i]@)
}

/// What a search comes upon in a file.
#[derive(Debug)]
pub enum Hit {
    Match { line_number: Option<u64>, byte_offset: u64, lines: Vec<Vec<u8>> },
    /// A line next to a match.
    Context { line_number: Option<u64>, line: Vec<u8> },
    /// A gap between lines.
    Break,
}

/// What a search comes upon, as plain values.
pub enum HitView {
    Match { line_number: Option<u64>, byte_offset: u64, lines: Seq<Seq<u8>> },
    Context { line_number: Option<u64>, line: Seq<u8> },
    Break,
}

impl View for Hit {
    type V = HitView;

    open spec fn view(&self) -> HitView {
        match *self {
            Hit::Match { line_number, byte_offset, lines } => HitView::Match {
                line_number,
                byte_offset,
                lines: byte_lines(lines@),
            },
            Hit::Context { line_number, line } => HitView::Context { line_number, line: line@ },
            Hit::Break => HitView::Break,
        }
    }
}

pub open spec fn hit_views(hits: Seq<Hit>) -> Seq<HitView> {
    Seq::new(hits.len(), |i: int| hits[i]@)
}

/// `std::io::Error`: what goes wrong in a search.
#[verifier::external_type_specification]
#[verifier::external_body]
pub struct ExIoError(std::io::Error);

/// `grep::searcher::SinkMatch`: a match, as the searcher hands it out.
#[verifier::external_type_specification]
#[verifier::external_body]
pub struct ExSinkMatch<'b>(grep::searcher::SinkMatch<'b>);

/// `grep::searcher::SinkContext`: a line next to a match, as the searcher hands it out.
#[verifier::external_type_specification]
#[verifier::external_body]
pub struct ExSinkContext<'b>(grep::searcher::SinkContext<'b>);

/// Takes in what a searcher hands out.
#[derive(Debug)]
struct Hits {
    hits: Vec<Hit>,
}

impl Sink for Hits {
    type Error = std::io::Error;

    /// A `SinkMatch` as a hit. The search goes on.
    #[verifier::external_body]
    fn matched(&mut self, _searcher: &Searcher, mat: &SinkMatch<'_>) -> Result<
        bool,
        std::io::Error,
    > {
        self.hits.push(
            Hit::Match {
                line_number: mat.line_number(),
                byte_offset: mat.absolute_byte_offset(),
                lines: mat.lines().map(|line| line.to_vec()).collect(),
            },
        );
        Ok(true)
    }

    /// A `SinkContext` as a hit. The search goes on.
    #[verifier::external_body]
    fn context(&mut self, _searcher: &Searcher, context: &SinkContext<'_>) -> Result<
        bool,
        std::io::Error,
    > {
        self.hits.push(
            Hit::Context {
                line_number: context.line_number(),
                line: context.bytes().to_vec(),
            },
        );
        Ok(true)
    }

    /// A gap as a hit. The search goes on.
    #[verifier::external_body]
    fn context_break(&mut self, _searcher: &Searcher) -> Result<bool, std::io::Error> {
        self.hits.push(Hit::Break);
        Ok(true)
    }
}

/// What a search comes upon in bytes, by the pattern and the flags of the matcher and by the
/// context, the flags and the stopping byte of the searcher.
pub uninterp spec fn hits_in(
    pattern: Seq<char>,
    matcher_flags: Seq<bool>,
    context: Seq<usize>,
    searcher_flags: Seq<bool>,
    stop: u8,
    bytes: Seq<u8>,
) -> Result<Seq<HitView>, Seq<char>>;

/// `Searcher::search_slice`: what it hands out of some bytes, from first to last.
#[verifier::external_body]
fn search_bytes(matcher: &RegexMatcher, searcher: &mut Searcher, bytes: &Vec<u8>) -> (found: Result<
    Vec<Hit>,
    String,
>)
    ensures
        searcher_context(*final(searcher)) == searcher_context(*old(searcher)),
        searcher_flags(*final(searcher)) == searcher_flags(*old(searcher)),
        searcher_stop(*final(searcher)) == searcher_stop(*old(searcher)),
        match hits_in(
            matcher_pattern(*matcher),
            matcher_flags(*matcher),
            searcher_context(*old(searcher)),
            searcher_flags(*old(searcher)),
            searcher_stop(*old(searcher)),
            bytes@,
        ) {
            Ok(hits) => found matches Ok(found) && hit_views(found@) == hits,
            Err(failure) => found matches Err(message) && message@ == failure,
        },
{
    let mut sink = Hits { hits: Vec::new() };
    match searcher.search_slice(matcher, bytes.as_slice(), &mut sink) {
        Ok(()) => Ok(sink.hits),
        Err(error) => Err(error.to_string()),
    }
}

/// The output after the first `count` lines of a match, as long as it takes more.
pub open spec fn with_match_lines(
    output: CollectorView,
    path: Seq<char>,
    line_number: Option<u64>,
    lines: Seq<Seq<u8>>,
    show_line_numbers: bool,
    count: int,
) -> (CollectorView, bool)
    decreases count,
{
    if count <= 0 {
        (output, true)
    } else {
        let before = with_match_lines(
            output,
            path,
            line_number,
            lines,
            show_line_numbers,
            count - 1,
        );
        if before.1 {
            before.0.pushed(
                line_text(
                    path,
                    GrepLineKind::Match,
                    match line_number {
                        Some(number) => Some((number + count - 1) as u64),
                        None => None,
                    },
                    without_line_end(bytes::lossy(lines[count - 1])),
                    show_line_numbers,
                ),
            )
        } else {
            before
        }
    }
}

proof fn lemma_match_lines_seen(
    output: CollectorView,
    path: Seq<char>,
    line_number: Option<u64>,
    lines: Seq<Seq<u8>>,
    show_line_numbers: bool,
    count: int,
)
    requires
        0 <= count,
    ensures
        with_match_lines(output, path, line_number, lines, show_line_numbers, count).0.seen
            <= output.seen + count,
    decreases count,
{
    if count > 0 {
        lemma_match_lines_seen(output, path, line_number, lines, show_line_numbers, count - 1);
    }
}

proof fn lemma_match_lines_stop(
    output: CollectorView,
    path: Seq<char>,
    line_number: Option<u64>,
    lines: Seq<Seq<u8>>,
    show_line_numbers: bool,
    count: int,
    total: int,
)
    requires
        0 <= count <= total,
        !with_match_lines(output, path, line_number, lines, show_line_numbers, count).1,
    ensures
        with_match_lines(output, path, line_number, lines, show_line_numbers, total)
            == with_match_lines(output, path, line_number, lines, show_line_numbers, count),
    decreases total,
{
    if count < total {
        lemma_match_lines_stop(
            output,
            path,
            line_number,
            lines,
            show_line_numbers,
            count,
            total - 1,
        );
    }
}

/// How many lines a match counts for: at least one.
pub open spec fn match_weight(lines: nat) -> int {
    if lines == 0 {
        1
    } else {
        lines as int
    }
}

/// What is told of a match, as plain values.
pub struct FoundView {
    pub path: Seq<char>,
    pub line_number: Option<u64>,
    pub byte_offset: u64,
    pub line_count: int,
}

impl View for GrepMatchFound {
    type V = FoundView;

    open spec fn view(&self) -> FoundView {
        FoundView {
            path: self.path@,
            line_number: self.line_number,
            byte_offset: self.byte_offset,
            line_count: self.line_count as int,
        }
    }
}

pub open spec fn found_views(matches: Seq<GrepMatchFound>) -> Seq<FoundView> {
    Seq::new(matches.len(), |i: int| matches[i]@)
}

/// What has been found in one file.
#[derive(Debug)]
pub struct FileSearch {
    pub path: String,
    pub mode: GrepOutputMode,
    pub show_line_numbers: bool,
    pub has_match: bool,
    pub match_count: usize,
    pub matches: Vec<GrepMatchFound>,
}

/// What has been found in one file, as plain values.
pub struct FileSearchView {
    pub path: Seq<char>,
    pub mode: GrepOutputMode,
    pub show_line_numbers: bool,
    pub has_match: bool,
    pub match_count: int,
    pub matches: Seq<FoundView>,
}

impl View for FileSearch {
    type V = FileSearchView;

    open spec fn view(&self) -> FileSearchView {
        FileSearchView {
            path: self.path@,
            mode: self.mode,
            show_line_numbers: self.show_line_numbers,
            has_match: self.has_match,
            match_count: self.match_count as int,
            matches: found_views(self.matches@),
        }
    }
}

/// The start of a search in a file.
pub open spec fn new_search(
    path: Seq<char>,
    mode: GrepOutputMode,
    show_line_numbers: bool,
) -> FileSearchView {
    FileSearchView {
        path,
        mode,
        show_line_numbers,
        has_match: false,
        match_count: 0,
        matches: Seq::empty(),
    }
}

/// A search in a file and its output, and whether the search goes on.
pub struct Searched {
    pub search: FileSearchView,
    pub output: CollectorView,
    pub more: bool,
}

impl FileSearchView {
    /// After a match. Where only files are told the first match is enough.
    pub open spec fn matched(
        self,
        output: CollectorView,
        line_number: Option<u64>,
        byte_offset: u64,
        lines: Seq<Seq<u8>>,
    ) -> Searched {
        let weight = match_weight(lines.len());
        let told = FileSearchView {
            has_match: true,
            match_count: if self.mode == GrepOutputMode::Count {
                self.match_count + weight
            } else {
                self.match_count
            },
            matches: self.matches.push(
                FoundView { path: self.path, line_number, byte_offset, line_count: weight },
            ),
            ..self
        };
        match self.mode {
            GrepOutputMode::FilesWithMatches => Searched { search: told, output, more: false },
            GrepOutputMode::Count => Searched { search: told, output, more: true },
            GrepOutputMode::Content => {
                let pushed = with_match_lines(
                    output,
                    self.path,
                    line_number,
                    lines,
                    self.show_line_numbers,
                    lines.len() as int,
                );
                Searched { search: told, output: pushed.0, more: pushed.1 }
            },
        }
    }

    /// After one more line of output, which is told only where lines are told.
    pub open spec fn with_line(self, output: CollectorView, line: Seq<char>) -> Searched {
        if self.mode == GrepOutputMode::Content {
            let pushed = output.pushed(line);
            Searched { search: self, output: pushed.0, more: pushed.1 }
        } else {
            Searched { search: self, output, more: true }
        }
    }

    pub open spec fn after_hit(self, output: CollectorView, hit: HitView) -> Searched {
        match hit {
            HitView::Match { line_number, byte_offset, lines } => self.matched(
                output,
                line_number,
                byte_offset,
                lines,
            ),
            HitView::Context { line_number, line } => self.with_line(
                output,
                line_text(
                    self.path,
                    GrepLineKind::Context,
                    line_number,
                    without_line_end(bytes::lossy(line)),
                    self.show_line_numbers,
                ),
            ),
            HitView::Break => self.with_line(output, "--"@),
        }
    }

    /// After the first `count` hits, as long as the search goes on.
    pub open spec fn after_hits(
        self,
        output: CollectorView,
        hits: Seq<HitView>,
        count: int,
    ) -> Searched
        decreases count,
    {
        if count <= 0 {
            Searched { search: self, output, more: true }
        } else {
            let before = self.after_hits(output, hits, count - 1);
            if before.more {
                before.search.after_hit(before.output, hits[count - 1])
            } else {
                before
            }
        }
    }

    /// Whether something was found, by how matches are told.
    pub open spec fn found(self) -> bool {
        if self.mode == GrepOutputMode::Count {
            self.match_count > 0
        } else {
            self.has_match
        }
    }

    /// The output once the file has been searched.
    pub open spec fn told(self, output: CollectorView) -> CollectorView {
        if !self.found() {
            output
        } else {
            match self.mode {
                GrepOutputMode::Content => output,
                GrepOutputMode::Count => output.pushed(
                    self.path + ":"@ + chars::decimal(self.match_count as nat),
                ).0,
                GrepOutputMode::FilesWithMatches => output.pushed(self.path).0,
            }
        }
    }
}

/// How many lines a hit can add to the output.
pub open spec fn hit_weight(hit: HitView) -> int {
    match hit {
        HitView::Match { lines, .. } => match_weight(lines.len()),
        _ => 1,
    }
}

/// How many lines the first `count` hits can add to the output.
pub open spec fn hits_weight(hits: Seq<HitView>, count: int) -> int
    decreases count,
{
    if count <= 0 {
        0
    } else {
        hits_weight(hits, count - 1) + hit_weight(hits[count - 1])
    }
}

proof fn lemma_weight_increases(hits: Seq<HitView>, i: int, j: int)
    requires
        0 <= i <= j,
    ensures
        0 <= hits_weight(hits, i) <= hits_weight(hits, j),
    decreases j,
{
    if i < j {
        lemma_weight_increases(hits, i, j - 1);
    } else if i > 0 {
        lemma_weight_increases(hits, i - 1, i - 1);
    }
}

/// Whether the numbers of the lines of a hit can be told.
pub open spec fn numbers_fit(hit: HitView) -> bool {
    hit matches HitView::Match { line_number: Some(number), lines, .. } ==> number + lines.len()
        <= u64::MAX
}

/// Whether all that hits add can be counted after some lines were seen.
pub open spec fn hits_fit(hits: Seq<HitView>, seen: int) -> bool {
    &&& seen + hits_weight(hits, hits.len() as int) < usize::MAX
    &&& forall|i: int| 0 <= i < hits.len() ==> numbers_fit(#[trigger] hits[i])
}

proof fn lemma_hits_counted(
    search: FileSearchView,
    output: CollectorView,
    hits: Seq<HitView>,
    count: int,
)
    requires
        0 <= count,
    ensures
        ({
            let after = search.after_hits(output, hits, count);
            &&& after.output.seen <= output.seen + hits_weight(hits, count)
            &&& after.search.match_count <= search.match_count + hits_weight(hits, count)
            &&& after.search.path == search.path
            &&& after.search.mode == search.mode
            &&& after.search.show_line_numbers == search.show_line_numbers
        }),
    decreases count,
{
    if count > 0 {
        lemma_hits_counted(search, output, hits, count - 1);
        let before = search.after_hits(output, hits, count - 1);
        if before.more {
            if let HitView::Match { line_number, lines, .. } = hits[count - 1] {
                lemma_match_lines_seen(
                    before.output,
                    before.search.path,
                    line_number,
                    lines,
                    before.search.show_line_numbers,
                    lines.len() as int,
                );
            }
        }
    }
}

proof fn lemma_hits_stop(
    search: FileSearchView,
    output: CollectorView,
    hits: Seq<HitView>,
    count: int,
    total: int,
)
    requires
        0 <= count <= total,
        !search.after_hits(output, hits, count).more,
    ensures
        search.after_hits(output, hits, total) == search.after_hits(output, hits, count),
    decreases total,
{
    if count < total {
        lemma_hits_stop(search, output, hits, count, total - 1);
    }
}

impl FileSearch {
    pub fn new(path: String, mode: GrepOutputMode, show_line_numbers: bool) -> (search: FileSearch)
        ensures
            search@ == new_search(path@, mode, show_line_numbers),
    {
        let search = FileSearch {
            path,
            mode,
            show_line_numbers,
            has_match: false,
            match_count: 0,
            matches: Vec::new(),
        };
        assert(search@.matches =~= Seq::<FoundView>::empty());
        search
    }

    /// Takes in a match, and tells whether the search goes on.
    pub fn on_match(
        &mut self,
        output: &mut OutputCollector,
        line_number: Option<u64>,
        byte_offset: u64,
        lines: &Vec<Vec<u8>>,
    ) -> (more: bool)
        requires
            old(output)@.seen + lines@.len() <= usize::MAX,
            old(self)@.match_count + match_weight(lines@.len()) <= usize::MAX,
            line_number matches Some(number) ==> number + lines@.len() <= u64::MAX,
        ensures
            (Searched { search: final(self)@, output: final(output)@, more }) == old(self)@.matched(
                old(output)@,
                line_number,
                byte_offset,
                byte_lines(lines@),
            ),
    {
        let weight: usize = if lines.len() == 0 {
            1
        } else {
            lines.len()
        };
        let ghost earlier = self@.matches;
        self.matches.push(
            GrepMatchFound {
                path: self.path.clone(),
                line_number,
                byte_offset,
                line_count: weight,
            },
        );
        assert(self@.matches =~= earlier.push(
            FoundView {
                path: self@.path,
                line_number,
                byte_offset,
                line_count: weight as int,
            },
        ));
        self.has_match = true;
        match self.mode {
            GrepOutputMode::FilesWithMatches => false,
            GrepOutputMode::Count => {
                self.match_count = self.match_count + weight;
                true
            },
            GrepOutputMode::Content => self.push_match_lines(output, line_number, lines),
        }
    }

    fn push_match_lines(
        &self,
        output: &mut OutputCollector,
        line_number: Option<u64>,
        lines: &Vec<Vec<u8>>,
    ) -> (more: bool)
        requires
            old(output)@.seen + lines@.len() <= usize::MAX,
            line_number matches Some(number) ==> number + lines@.len() <= u64::MAX,
        ensures
            (final(output)@, more) == with_match_lines(
                old(output)@,
                self.path@,
                line_number,
                byte_lines(lines@),
                self.show_line_numbers,
                lines@.len() as int,
            ),
    {
        let ghost start = output@;
        let ghost all = byte_lines(lines@);
        let mut i: usize = 0;
        while i < lines.len()
            invariant
                i <= lines@.len(),
                all == byte_lines(lines@),
                start.seen + lines@.len() <= usize::MAX,
                line_number matches Some(number) ==> number + lines@.len() <= u64::MAX,
                start == old(output)@,
                (output@, true) == with_match_lines(
                    start,
                    self.path@,
                    line_number,
                    all,
                    self.show_line_numbers,
                    i as int,
                ),
            decreases lines@.len() - i,
        {
            proof {
                lemma_match_lines_seen(
                    start,
                    self.path@,
                    line_number,
                    all,
                    self.show_line_numbers,
                    i as int,
                );
            }
            let number: Option<u64> = match line_number {
                Some(number) => Some(number + i as u64),
                None => None,
            };
            let line = render_grep_line(
                self.path.as_str(),
                GrepLineKind::Match,
                number,
                bytes_to_line(&lines[i]).as_str(),
                self.show_line_numbers,
            );
            i = i + 1;
            if !output.push(line) {
                proof {
                    lemma_match_lines_stop(
                        start,
                        self.path@,
                        line_number,
                        all,
                        self.show_line_numbers,
                        i as int,
                        lines@.len() as int,
                    );
                }
                return false;
            }
        }
        true
    }

    /// Takes in a line next to a match, and tells whether the search goes on.
    pub fn on_context(
        &self,
        output: &mut OutputCollector,
        line_number: Option<u64>,
        line: &Vec<u8>,
    ) -> (more: bool)
        requires
            old(output)@.seen < usize::MAX,
        ensures
            (Searched { search: self@, output: final(output)@, more }) == self@.after_hit(
                old(output)@,
                HitView::Context { line_number, line: line@ },
            ),
    {
        if self.mode != GrepOutputMode::Content {
            return true;
        }
        output.push(
            render_grep_line(
                self.path.as_str(),
                GrepLineKind::Context,
                line_number,
                bytes_to_line(line).as_str(),
                self.show_line_numbers,
            ),
        )
    }

    /// Takes in a gap between lines, and tells whether the search goes on.
    pub fn on_break(&self, output: &mut OutputCollector) -> (more: bool)
        requires
            old(output)@.seen < usize::MAX,
        ensures
            (Searched { search: self@, output: final(output)@, more }) == self@.after_hit(
                old(output)@,
                HitView::Break,
            ),
    {
        if self.mode != GrepOutputMode::Content {
            return true;
        }
        output.push("--".to_owned())
    }

    /// Takes in hits as long as the search goes on.
    pub fn take_hits(&mut self, output: &mut OutputCollector, hits: &Vec<Hit>)
        requires
            hits_fit(hit_views(hits@), old(output)@.seen),
            old(self)@.match_count + hits_weight(hit_views(hits@), hits@.len() as int)
                <= usize::MAX,
        ensures
            ({
                let after = old(self)@.after_hits(
                    old(output)@,
                    hit_views(hits@),
                    hits@.len() as int,
                );
                final(self)@ == after.search && final(output)@ == after.output
            }),
    {
        let ghost search = self@;
        let ghost start = output@;
        let ghost views = hit_views(hits@);
        let mut i: usize = 0;
        while i < hits.len()
            invariant
                i <= hits@.len(),
                views == hit_views(hits@),
                hits_fit(views, start.seen),
                search.match_count + hits_weight(views, hits@.len() as int) <= usize::MAX,
                search == old(self)@,
                start == old(output)@,
                search.after_hits(start, views, i as int) == (Searched {
                    search: self@,
                    output: output@,
                    more: true,
                }),
            decreases hits@.len() - i,
        {
            proof {
                lemma_hits_counted(search, start, views, i as int);
                lemma_weight_increases(views, i + 1, hits@.len() as int);
                assert(numbers_fit(views[i as int]));
                assert(views[i as int] == hits@[i as int]@);
            }
            let more = match &hits[i] {
                Hit::Match { line_number, byte_offset, lines } => self.on_match(
                    output,
                    *line_number,
                    *byte_offset,
                    lines,
                ),
                Hit::Context { line_number, line } => self.on_context(output, *line_number, line),
                Hit::Break => self.on_break(output),
            };
            i = i + 1;
            if !more {
                proof {
                    lemma_hits_stop(search, start, views, i as int, hits@.len() as int);
                }
                return;
            }
        }
    }

    /// Tells of the file what is told once it has been searched, and whether something was found.
    pub fn finish(&self, output: &mut OutputCollector) -> (found: bool)
        requires
            old(output)@.seen < usize::MAX,
        ensures
            found == self@.found(),
            final(output)@ == self@.told(old(output)@),
    {
        match self.mode {
            GrepOutputMode::FilesWithMatches => {
                if self.has_match {
                    output.push(self.path.clone());
                }
                self.has_match
            },
            GrepOutputMode::Count => {
                if self.match_count > 0 {
                    let mut line: String = self.path.clone();
                    line.append(":");
                    line.append(chars::format_decimal(self.match_count as u64).as_str());
                    output.push(line);
                }
                self.match_count > 0
            },
            GrepOutputMode::Content => self.has_match,
        }
    }
}

/// Whether all that hits add can be counted.
fn fits(hits: &Vec<Hit>, seen: usize) -> (fit: bool)
    ensures
        fit == hits_fit(hit_views(hits@), seen as int),
{
    let ghost views = hit_views(hits@);
    let mut count: usize = seen;
    let mut i: usize = 0;
    while i < hits.len()
        invariant
            i <= hits@.len(),
            views == hit_views(hits@),
            count == seen + hits_weight(views, i as int),
            forall|j: int| 0 <= j < i ==> numbers_fit(#[trigger] views[j]),
        decreases hits@.len() - i,
    {
        assert(views[i as int] == hits@[i as int]@);
        let weight: usize = match &hits[i] {
            Hit::Match { lines, .. } => if lines.len() == 0 {
                1
            } else {
                lines.len()
            },
            _ => 1,
        };
        if let Hit::Match { line_number: Some(number), lines, .. } = &hits[i] {
            if *number > u64::MAX - lines.len() as u64 {
                assert(!numbers_fit(views[i as int]));
                return false;
            }
        }
        proof {
            lemma_weight_increases(views, i + 1, hits@.len() as int);
        }
        match count.checked_add(weight) {
            Some(sum) => {
                count = sum;
            },
            None => {
                return false;
            },
        }
        i = i + 1;
    }
    count < usize::MAX
}

/// What was found in a file.
#[derive(Debug)]
pub struct FileReport {
    pub found: bool,
    pub matches: Vec<GrepMatchFound>,
}

/// Searches the bytes of a file and puts what is told of it into the output. Nothing is put there,
/// and nothing is reported, where what was come upon cannot be counted.
pub fn search_one_file(
    path: &str,
    bytes: &Vec<u8>,
    matcher: &RegexMatcher,
    options: &SearchOptions,
    mode: GrepOutputMode,
    output: &mut OutputCollector,
) -> (report: Result<Option<FileReport>, String>)
    ensures
        match hits_in(
            matcher_pattern(*matcher),
            matcher_flags(*matcher),
            seq![options.before_context, options.after_context],
            seq![options.line_numbers, options.multiline],
            BINARY_BYTE,
            bytes@,
        ) {
            Err(failure) => {
                &&& report matches Err(message)
                &&& message@ == failure
                &&& final(output)@ == old(output)@
            },
            Ok(hits) => if hits_fit(hits, old(output)@.seen) {
                let after = new_search(path@, mode, options.line_numbers).after_hits(
                    old(output)@,
                    hits,
                    hits.len() as int,
                );
                &&& report matches Ok(Some(report))
                &&& report.found == after.search.found()
                &&& found_views(report.matches@) == after.search.matches
                &&& final(output)@ == after.search.told(after.output)
            } else {
                report matches Ok(None) && final(output)@ == old(output)@
            },
        },
{
    let mut searcher = build_searcher(options);
    let hits = match search_bytes(matcher, &mut searcher, bytes) {
        Ok(hits) => hits,
        Err(message) => {
            return Err(message);
        },
    };
    if !fits(&hits, output.seen()) {
        return Ok(None);
    }
    let mut search = FileSearch::new(path.to_owned(), mode, options.line_numbers);
    proof {
        lemma_hits_counted(search@, output@, hit_views(hits@), hits@.len() as int);
        lemma_weight_increases(hit_views(hits@), 0, hits@.len() as int);
    }
    search.take_hits(output, &hits);
    let found = search.finish(output);
    Ok(Some(FileReport { found, matches: search.matches }))
}

/// Where only files are told, a search ends with the first match, and the file is told if there is
/// one.
pub proof fn law_first_match_is_enough(
    search: FileSearchView,
    output: CollectorView,
    hits: Seq<HitView>,
    first: int,
)
    requires
        search.mode == GrepOutputMode::FilesWithMatches,
        0 <= first < hits.len(),
        hits[first] is Match,
        forall|i: int| 0 <= i < first ==> !(#[trigger] hits[i] is Match),
    ensures
        ({
            let after = search.after_hits(output, hits, hits.len() as int);
            &&& after.search.found()
            &&& after.search.matches.len() == search.matches.len() + 1
            &&& after.search.told(after.output) == output.pushed(search.path).0
        }),
{
    lemma_no_match_before(search, output, hits, first);
    lemma_hits_stop(search, output, hits, first + 1, hits.len() as int);
}

proof fn lemma_no_match_before(
    search: FileSearchView,
    output: CollectorView,
    hits: Seq<HitView>,
    count: int,
)
    requires
        search.mode == GrepOutputMode::FilesWithMatches,
        0 <= count <= hits.len(),
        forall|i: int| 0 <= i < count ==> !(#[trigger] hits[i] is Match),
    ensures
        search.after_hits(output, hits, count) == (Searched { search, output, more: true }),
    decreases count,
{
    if count > 0 {
        lemma_no_match_before(search, output, hits, count - 1);
        assert(!(hits[count - 1] is Match));
    }
}

/// Whether an entry is a file that is searched where some rules hold: it lies in no directory of a
/// version control system, the rules do not leave it out, and the filter picks it.
pub open spec fn is_searched(
    walk: WalkView,
    rules: Seq<usize>,
    filter: FilterView,
    entry: DirEntry,
) -> bool {
    &&& !entry.is_dir
    &&& !paths::in_vcs_dir(entry.path@)
    &&& !walk.leaves_out(rules, entry.path@, false)
    &&& filters::picked(filter, walk.shown(entry.path@))
}

/// Of the entries of a directory just those files are searched that lie in no directory of a
/// version control system, that no rules leave out, and that the filter picks.
pub proof fn law_wanted_files_are_searched(
    walk: WalkView,
    rules: Seq<usize>,
    filter: FilterView,
    found: Found,
    entries: Seq<DirEntry>,
    candidate: CandidateView,
)
    ensures
        with_entries(walk, rules, filter, found, entries, entries.len() as int).candidates.contains(
            candidate,
        ) <==> found.candidates.contains(candidate) || exists|i: int|
            {
                &&& 0 <= i < entries.len()
                &&& is_searched(walk, rules, filter, #[trigger] entries[i])
                &&& candidate == candidate_of(walk, entries[i])
            },
{
    lemma_searched(walk, rules, filter, found, entries, candidate, entries.len() as int);
}

pub proof fn lemma_pushed_contains<T>(items: Seq<T>, item: T, wanted: T)
    ensures
        items.push(item).contains(wanted) <==> items.contains(wanted) || wanted == item,
{
    let longer = items.push(item);
    if items.contains(wanted) {
        let i = choose|i: int| 0 <= i < items.len() && items[i] == wanted;
        assert(longer[i] == wanted);
    }
    if wanted == item {
        assert(longer[items.len() as int] == wanted);
    }
    if longer.contains(wanted) && wanted != item {
        let i = choose|i: int| 0 <= i < longer.len() && longer[i] == wanted;
        assert(items[i] == wanted);
    }
}

proof fn lemma_searched(
    walk: WalkView,
    rules: Seq<usize>,
    filter: FilterView,
    found: Found,
    entries: Seq<DirEntry>,
    candidate: CandidateView,
    count: int,
)
    requires
        0 <= count <= entries.len(),
    ensures
        with_entries(walk, rules, filter, found, entries, count).candidates.contains(candidate)
            <==> found.candidates.contains(candidate) || exists|i: int|
            {
                &&& entries.len() - count <= i < entries.len()
                &&& is_searched(walk, rules, filter, #[trigger] entries[i])
                &&& candidate == candidate_of(walk, entries[i])
            },
    decreases count,
{
    if count > 0 {
        lemma_searched(walk, rules, filter, found, entries, candidate, count - 1);
        let before = with_entries(walk, rules, filter, found, entries, count - 1);
        let at = entries.len() - count;
        let entry = entries[at];
        lemma_pushed_contains(before.candidates, candidate_of(walk, entry), candidate);
        assert(is_searched(walk, rules, filter, entry) == (!entry.is_dir && walk.takes_file(
            rules,
            entry.path@,
        ) && filters::picked(filter, walk.shown(entry.path@))));
    }
}

/// Files are searched in an order that can be relied on: those that changed last come first, and
/// those that changed at the same time come by their paths.
pub proof fn law_searched_files_are_in_order(files: Seq<CandidateFile>)
    ensures
        order::is_ordered(
            order::ordered(files, candidate_order(), files.len() as int),
            candidate_order(),
        ),
{
    order::law_file_order_is_an_order();
    let before = candidate_order();
    let pairs = order::file_order();
    assert forall|a: CandidateFile, b: CandidateFile, c: CandidateFile|
        !#[trigger] before(a, b) && !#[trigger] before(b, c) implies !before(a, c) by {
        let x = (a.modified, a.display_path@);
        let y = (b.modified, b.display_path@);
        let z = (c.modified, c.display_path@);
        assert(!pairs(x, y) && !pairs(y, z));
        assert(!pairs(x, z));
    }
    assert forall|a: CandidateFile, b: CandidateFile| #[trigger] before(a, b) implies !before(
        b,
        a,
    ) by {
        let x = (a.modified, a.display_path@);
        let y = (b.modified, b.display_path@);
        assert(pairs(x, y));
    }
    order::law_ordered_items_are_in_order(files, before, files.len() as int);
}

/// The lines before and after a match are as many as their own numbers say; a side without one goes
/// by the number for both sides, of which the flag counts first, and without any number there are
/// none. Lines are numbered unless it is said otherwise.
pub proof fn law_context_goes_by_its_own_numbers(input: GrepInput)
    ensures
        input.before matches Some(lines) ==> options_of(input).before_context == lines,
        input.after matches Some(lines) ==> options_of(input).after_context == lines,
        input.before is None ==> options_of(input).before_context == match (
            input.context_flag,
            input.context,
        ) {
            (Some(lines), _) => lines,
            (None, Some(lines)) => lines,
            (None, None) => 0,
        },
        input.after is None ==> options_of(input).after_context == match (
            input.context_flag,
            input.context,
        ) {
            (Some(lines), _) => lines,
            (None, Some(lines)) => lines,
            (None, None) => 0,
        },
        options_of(input).line_numbers == (input.line_numbers != Some(false)),
        options_of(input).multiline == input.multiline,
{
}

/// A search does not start that was cancelled, whose pattern is none or whose filter is none; the
/// first of these reasons is told.
pub proof fn law_searches_are_refused_for_a_reason(input: GrepInput, cancelled: bool)
    ensures
        ({
            let failure = pattern_failure(input.pattern@, input.case_insensitive, input.multiline);
            let filter = FilterView {
                glob: match input.glob {
                    Some(glob) => Some(glob@),
                    None => None,
                },
                file_type: match input.file_type {
                    Some(name) => Some(name@),
                    None => None,
                },
            };
            &&& cancelled ==> start_failure(input, cancelled) == Some("grep cancelled"@)
            &&& !cancelled && failure is Some ==> start_failure(input, cancelled) == Some(
                "invalid regex pattern: "@ + failure->0,
            )
            &&& !cancelled && failure is None ==> start_failure(input, cancelled)
                == filters::filter_failure(filter)
        }),
{
}

/// The output after the first `count` of some lines, as long as it takes more.
pub open spec fn pushed_lines(output: CollectorView, lines: Seq<Seq<char>>, count: int) -> (
    CollectorView,
    bool,
)
    decreases count,
{
    if count <= 0 {
        (output, true)
    } else {
        let before = pushed_lines(output, lines, count - 1);
        if before.1 {
            before.0.pushed(lines[count - 1])
        } else {
            before
        }
    }
}

/// Which of `count` lines are kept by an output that skips `offset` lines and keeps at most `limit`
/// of the others, or all of them where the limit is nought.
pub open spec fn kept_of(lines: Seq<Seq<char>>, count: int, offset: int, limit: int) -> Seq<
    Seq<char>,
> {
    if count <= offset {
        Seq::empty()
    } else if limit == 0 || count <= offset + limit {
        lines.subrange(offset, count)
    } else {
        lines.subrange(offset, offset + limit)
    }
}

/// Lines of output come by pages: of the lines that a search gives, as many as the offset says are
/// skipped, the next ones are kept in their order up to the limit, and the output stops with the
/// first line beyond it, which is noted.
pub proof fn law_output_is_a_page_of_the_lines(
    offset: usize,
    limit: usize,
    files: Seq<Modified>,
    lines: Seq<Seq<char>>,
    count: int,
)
    requires
        0 <= count <= lines.len(),
    ensures
        ({
            let start = CollectorView {
                offset,
                limit,
                seen: 0,
                lines: Seq::empty(),
                truncated: false,
                matched_files: files,
            };
            let (output, more) = pushed_lines(start, lines, count);
            let all = limit == 0 || count <= offset + limit;
            &&& output.lines == kept_of(lines, count, offset as int, limit as int)
            &&& more == all
            &&& output.truncated == !all
            &&& output.seen == if all {
                count
            } else {
                offset + limit + 1
            }
            &&& output.offset == offset
            &&& output.limit == limit
            &&& output.matched_files == files
        }),
    decreases count,
{
    let start = CollectorView {
        offset,
        limit,
        seen: 0,
        lines: Seq::empty(),
        truncated: false,
        matched_files: files,
    };
    if count > 0 {
        law_output_is_a_page_of_the_lines(offset, limit, files, lines, count - 1);
        let (output, more) = pushed_lines(start, lines, count);
        assert(output.lines =~= kept_of(lines, count, offset as int, limit as int));
    }
}

/// What is told of a search: that nothing was found, that nothing is left behind the lines that were
/// skipped, or the lines that were kept, each in a line of its own and before everything else. That
/// lines were left out is told just where some were, with where to go on.
pub proof fn law_output_tells_its_lines(output: CollectorView)
    ensures
        output.seen == 0 ==> output.text() == "No matches"@,
        output.seen > 0 && output.lines.len() == 0 ==> output.text() == "No output: offset "@
            + chars::decimal(output.offset as nat) + " is past end ("@ + chars::decimal(
            output.seen as nat,
        ) + " line(s))"@,
        output.seen > 0 && output.lines.len() > 0 ==> {
            let shown = chars::join(output.lines, "\n"@);
            let cut = if output.truncated {
                "\n[truncated: reached head_limit; continue with offset="@ + chars::decimal(
                    (output.offset + output.lines.len()) as nat,
                ) + "]"@
            } else {
                Seq::empty()
            };
            let note = match sort_note(output.matched_files) {
                Some(note) => "\n"@ + note,
                None => Seq::empty(),
            };
            output.text() == shown + cut + note
        },
{
    if output.seen > 0 && output.lines.len() > 0 {
        let shown = chars::join(output.lines, "\n"@);
        let cut = if output.truncated {
            "\n[truncated: reached head_limit; continue with offset="@ + chars::decimal(
                (output.offset + output.lines.len()) as nat,
            ) + "]"@
        } else {
            Seq::empty()
        };
        let note = match sort_note(output.matched_files) {
            Some(note) => "\n"@ + note,
            None => Seq::empty(),
        };
        assert(output.text() =~= shown + cut + note);
    }
}

/// How files are ordered is noted only where there are several and the time of some is not known:
/// then by paths alone, or by time with the others by their paths.
pub proof fn law_order_is_noted_where_times_are_missing(files: Seq<Modified>)
    ensures
        sort_note(files) is None <==> files.len() <= 1 || (forall|i: int|
            0 <= i < files.len() ==> #[trigger] files[i] != Modified::Unknown),
        sort_note(files) == Some(
            "[sort: path order; modification time unavailable from VFS for matched files]"@,
        ) ==> (forall|i: int|
            0 <= i < files.len() ==> #[trigger] files[i] == Modified::Unknown),
        files.len() > 1 && (exists|i: int|
            0 <= i < files.len() && #[trigger] files[i] == Modified::Unknown) && (exists|i: int|
            0 <= i < files.len() && #[trigger] files[i] != Modified::Unknown) ==> sort_note(files)
            == Some(
            "[sort: modification time descending; matched files without modification time sorted by path]"@,
        ),
        files.len() > 1 && (forall|i: int|
            0 <= i < files.len() ==> #[trigger] files[i] == Modified::Unknown) ==> sort_note(files)
            == Some(
            "[sort: path order; modification time unavailable from VFS for matched files]"@,
        ),
{
    reveal_strlit("[sort: path order; modification time unavailable from VFS for matched files]");
    reveal_strlit(
        "[sort: modification time descending; matched files without modification time sorted by path]",
    );
    assert("[sort: path order; modification time unavailable from VFS for matched files]"@[7] == 'p');
    assert("[sort: modification time descending; matched files without modification time sorted by path]"@[7]
        == 'm');
    if files.len() > 1 {
        if forall|i: int| 0 <= i < files.len() ==> #[trigger] files[i] == Modified::Unknown {
            assert(files[0] == Modified::Unknown);
        }
        if exists|i: int| 0 <= i < files.len() && #[trigger] files[i] == Modified::Unknown {
            let i = choose|i: int| 0 <= i < files.len() && #[trigger] files[i] == Modified::Unknown;
            assert(files.contains(files[i]));
        }
        if files.contains(Modified::Unknown) {
            let i = choose|i: int| 0 <= i < files.len() && files[i] == Modified::Unknown;
            assert(files[i] == Modified::Unknown);
        }
    }
}

/// A line of output starts with the path and ends with the text of the line, unchanged. Between them
/// stands a colon for a match and a hyphen for a line next to one, and the number of the line with
/// one more of these where numbers are shown.
pub proof fn law_lines_are_told_with_path_and_number(
    path: Seq<char>,
    number: u64,
    text: Seq<char>,
)
    ensures
        line_text(path, GrepLineKind::Match, Some(number), text, true) == path + ":"@
            + chars::decimal(number as nat) + ":"@ + text,
        line_text(path, GrepLineKind::Context, Some(number), text, true) == path + "-"@
            + chars::decimal(number as nat) + "-"@ + text,
        line_text(path, GrepLineKind::Match, Some(number), text, false) == path + ":"@ + text,
        line_text(path, GrepLineKind::Context, Some(number), text, false) == path + "-"@ + text,
        line_text(path, GrepLineKind::Match, None, text, true) == path + ":"@ + text,
        line_text(path, GrepLineKind::Context, None, text, true) == path + "-"@ + text,
{
}

/// A line of a file is told without the line breaks at its end, and otherwise unchanged.
pub proof fn law_only_line_breaks_are_cut_off(text: Seq<char>)
    ensures
        ({
            let kept = without_line_end(text);
            &&& kept.is_prefix_of(text)
            &&& forall|i: int|
                kept.len() <= i < text.len() ==> #[trigger] text[i] == '\n' || text[i] == '\r'
            &&& kept.len() > 0 ==> kept.last() != '\n' && kept.last() != '\r'
        }),
{
    let ends = |c: char| c == '\n' || c == '\r';
    lemma_line_end(text, ends);
    let kept = without_line_end(text);
    assert(kept =~= text.subrange(0, kept.len() as int));
}

proof fn lemma_line_end(text: Seq<char>, ends: spec_fn(char) -> bool)
    requires
        ends == (|c: char| c == '\n' || c == '\r'),
    ensures
        chars::trailing(text, ends) <= text.len(),
        forall|i: int|
            text.len() - chars::trailing(text, ends) <= i < text.len() ==> #[trigger] text[i]
                == '\n' || text[i] == '\r',
        chars::trailing(text, ends) < text.len() ==> text[text.len() - chars::trailing(text, ends)
            - 1] != '\n' && text[text.len() - chars::trailing(text, ends) - 1] != '\r',
    decreases text.len(),
{
    if text.len() > 0 && ends(text.last()) {
        lemma_line_end(text.drop_last(), ends);
        assert forall|i: int|
            text.len() - chars::trailing(text, ends) <= i < text.len() implies #[trigger] text[i]
            == '\n' || text[i] == '\r' by {
            if i < text.len() - 1 {
                assert(text.drop_last()[i] == text[i]);
            }
        }
    }
}

/// The lines that a match gives: each of its lines is told as one of the match, and they are
/// numbered on from the first.
pub open spec fn match_lines(
    path: Seq<char>,
    line_number: Option<u64>,
    lines: Seq<Seq<u8>>,
    numbered: bool,
) -> Seq<Seq<char>> {
    Seq::new(
        lines.len(),
        |i: int|
            line_text(
                path,
                GrepLineKind::Match,
                match line_number {
                    Some(number) => Some((number + i) as u64),
                    None => None,
                },
                without_line_end(bytes::lossy(lines[i])),
                numbered,
            ),
    )
}

/// The lines that are told of a hit where lines are told.
pub open spec fn hit_lines(path: Seq<char>, hit: HitView, numbered: bool) -> Seq<Seq<char>> {
    match hit {
        HitView::Match { line_number, lines, .. } => match_lines(
            path,
            line_number,
            lines,
            numbered,
        ),
        HitView::Context { line_number, line } => seq![
            line_text(
                path,
                GrepLineKind::Context,
                line_number,
                without_line_end(bytes::lossy(line)),
                numbered,
            ),
        ],
        HitView::Break => seq!["--"@],
    }
}

/// The lines that are told of the first `count` hits.
pub open spec fn all_hit_lines(
    path: Seq<char>,
    hits: Seq<HitView>,
    numbered: bool,
    count: int,
) -> Seq<Seq<char>>
    decreases count,
{
    if count <= 0 {
        Seq::empty()
    } else {
        all_hit_lines(path, hits, numbered, count - 1) + hit_lines(path, hits[count - 1], numbered)
    }
}

proof fn lemma_pushed_prefix(
    output: CollectorView,
    a: Seq<Seq<char>>,
    b: Seq<Seq<char>>,
    count: int,
)
    requires
        0 <= count <= a.len(),
        count <= b.len(),
        forall|i: int| 0 <= i < count ==> #[trigger] a[i] == b[i],
    ensures
        pushed_lines(output, a, count) == pushed_lines(output, b, count),
    decreases count,
{
    if count > 0 {
        lemma_pushed_prefix(output, a, b, count - 1);
        assert(a[count - 1] == b[count - 1]);
    }
}

proof fn lemma_pushed_add(
    output: CollectorView,
    a: Seq<Seq<char>>,
    b: Seq<Seq<char>>,
    count: int,
)
    requires
        0 <= count <= b.len(),
    ensures
        ({
            let first = pushed_lines(output, a, a.len() as int);
            pushed_lines(output, a + b, a.len() + count) == if first.1 {
                pushed_lines(first.0, b, count)
            } else {
                first
            }
        }),
    decreases count,
{
    if count > 0 {
        lemma_pushed_add(output, a, b, count - 1);
        assert((a + b)[a.len() + count - 1] == b[count - 1]);
    } else {
        lemma_pushed_prefix(output, a + b, a, a.len() as int);
    }
}

proof fn lemma_match_lines(
    output: CollectorView,
    path: Seq<char>,
    line_number: Option<u64>,
    lines: Seq<Seq<u8>>,
    numbered: bool,
    count: int,
)
    requires
        0 <= count <= lines.len(),
    ensures
        with_match_lines(output, path, line_number, lines, numbered, count) == pushed_lines(
            output,
            match_lines(path, line_number, lines, numbered),
            count,
        ),
    decreases count,
{
    if count > 0 {
        lemma_match_lines(output, path, line_number, lines, numbered, count - 1);
    }
}

proof fn lemma_content_hits(
    search: FileSearchView,
    output: CollectorView,
    hits: Seq<HitView>,
    count: int,
)
    requires
        search.mode == GrepOutputMode::Content,
        0 <= count <= hits.len(),
    ensures
        ({
            let after = search.after_hits(output, hits, count);
            let lines = all_hit_lines(search.path, hits, search.show_line_numbers, count);
            (after.output, after.more) == pushed_lines(output, lines, lines.len() as int)
        }),
    decreases count,
{
    if count > 0 {
        lemma_content_hits(search, output, hits, count - 1);
        lemma_hits_counted(search, output, hits, count - 1);
        let before = search.after_hits(output, hits, count - 1);
        let lines = all_hit_lines(search.path, hits, search.show_line_numbers, count - 1);
        let more = hit_lines(search.path, hits[count - 1], search.show_line_numbers);
        lemma_pushed_add(output, lines, more, more.len() as int);
        if before.more {
            match hits[count - 1] {
                HitView::Match { line_number, lines, .. } => {
                    lemma_match_lines(
                        before.output,
                        search.path,
                        line_number,
                        lines,
                        search.show_line_numbers,
                        lines.len() as int,
                    );
                },
                _ => {
                    reveal_with_fuel(pushed_lines, 2);
                    assert(more.len() == 1);
                },
            }
        }
    }
}

/// Where lines are told, a file adds to the output the lines of every match, the lines next to it
/// and the marks of gaps, in the order in which they were come upon, and nothing else.
pub proof fn law_every_hit_is_told_as_lines(
    path: Seq<char>,
    numbered: bool,
    output: CollectorView,
    hits: Seq<HitView>,
)
    ensures
        ({
            let after = new_search(path, GrepOutputMode::Content, numbered).after_hits(
                output,
                hits,
                hits.len() as int,
            );
            let lines = all_hit_lines(path, hits, numbered, hits.len() as int);
            after.search.told(after.output) == pushed_lines(output, lines, lines.len() as int).0
        }),
{
    let search = new_search(path, GrepOutputMode::Content, numbered);
    lemma_content_hits(search, output, hits, hits.len() as int);
    lemma_hits_counted(search, output, hits, hits.len() as int);
}

/// How many lines match among the first `count` hits: a match of no line counts for one.
pub open spec fn matching_lines(hits: Seq<HitView>, count: int) -> nat
    decreases count,
{
    if count <= 0 {
        0
    } else {
        matching_lines(hits, count - 1) + match hits[count - 1] {
            HitView::Match { lines, .. } => if lines.len() > 0 {
                lines.len()
            } else {
                1
            },
            _ => 0,
        }
    }
}

proof fn lemma_count_hits(
    search: FileSearchView,
    output: CollectorView,
    hits: Seq<HitView>,
    count: int,
)
    requires
        search.mode == GrepOutputMode::Count,
        0 <= count <= hits.len(),
    ensures
        ({
            let after = search.after_hits(output, hits, count);
            &&& after.more
            &&& after.output == output
            &&& after.search.match_count == search.match_count + matching_lines(hits, count)
        }),
    decreases count,
{
    if count > 0 {
        lemma_count_hits(search, output, hits, count - 1);
        lemma_hits_counted(search, output, hits, count - 1);
    }
}

/// Where matches are counted, a file with matches is told by its path and how many lines match in
/// it, all of them; a file without any is not told.
pub proof fn law_matching_lines_are_counted(
    path: Seq<char>,
    numbered: bool,
    output: CollectorView,
    hits: Seq<HitView>,
)
    ensures
        ({
            let after = new_search(path, GrepOutputMode::Count, numbered).after_hits(
                output,
                hits,
                hits.len() as int,
            );
            let count = matching_lines(hits, hits.len() as int);
            &&& after.search.found() <==> count > 0
            &&& count > 0 ==> after.search.told(after.output) == output.pushed(
                path + ":"@ + chars::decimal(count),
            ).0
            &&& count == 0 ==> after.search.told(after.output) == output
        }),
{
    let search = new_search(path, GrepOutputMode::Count, numbered);
    lemma_count_hits(search, output, hits, hits.len() as int);
    lemma_hits_counted(search, output, hits, hits.len() as int);
}

/// A file in which nothing matches is not told, however matches are told, but for lines that it was
/// asked for next to matches.
pub proof fn law_files_without_matches_are_not_found(
    path: Seq<char>,
    mode: GrepOutputMode,
    numbered: bool,
    output: CollectorView,
    hits: Seq<HitView>,
    count: int,
)
    requires
        0 <= count <= hits.len(),
        forall|i: int| 0 <= i < hits.len() ==> !(#[trigger] hits[i] is Match),
    ensures
        ({
            let after = new_search(path, mode, numbered).after_hits(output, hits, count);
            &&& !after.search.found()
            &&& after.search.matches.len() == 0
            &&& after.search.mode == mode
            &&& mode != GrepOutputMode::Content ==> after.search.told(after.output) == output
                && after.output == output
        }),
    decreases count,
{
    if count > 0 {
        law_files_without_matches_are_not_found(path, mode, numbered, output, hits, count - 1);
        assert(!(hits[count - 1] is Match));
    }
}

/// A match that is taken in is reported with its place and how many lines it has, and the file is
/// found from then on.
pub proof fn law_matches_are_reported(
    search: FileSearchView,
    output: CollectorView,
    line_number: Option<u64>,
    byte_offset: u64,
    lines: Seq<Seq<u8>>,
)
    requires
        search.match_count >= 0,
    ensures
        ({
            let after = search.after_hit(
                output,
                HitView::Match { line_number, byte_offset, lines },
            );
            let told = after.search.matches;
            &&& after.search.found()
            &&& told.len() == search.matches.len() + 1
            &&& told.drop_last() == search.matches
            &&& told.last().path == search.path
            &&& told.last().line_number == line_number
            &&& told.last().byte_offset == byte_offset
            &&& told.last().line_count == if lines.len() > 0 {
                lines.len()
            } else {
                1
            }
            &&& after.search.path == search.path
            &&& after.search.mode == search.mode
            &&& after.search.show_line_numbers == search.show_line_numbers
            &&& search.mode == GrepOutputMode::FilesWithMatches ==> !after.more
            &&& search.mode == GrepOutputMode::Count ==> after.more
        }),
{
    let after = search.after_hit(output, HitView::Match { line_number, byte_offset, lines });
    assert(after.search.matches.drop_last() =~= search.matches);
}

/// Of the entries of a directory just those directories lie ahead that belong to no version control
/// system and that no rules leave out; the rules that hold in them are the ones that hold here.
pub proof fn law_wanted_directories_lie_ahead(
    walk: WalkView,
    rules: Seq<usize>,
    filter: FilterView,
    found: Found,
    entries: Seq<DirEntry>,
    dir: PendingDirView,
    count: int,
)
    requires
        0 <= count <= entries.len(),
    ensures
        with_entries(walk, rules, filter, found, entries, count).pending.contains(dir)
            <==> found.pending.contains(dir) || exists|i: int|
            {
                &&& entries.len() - count <= i < entries.len()
                &&& (#[trigger] entries[i]).is_dir
                &&& !paths::is_vcs_name(paths::file_name_of(entries[i].path@))
                &&& walk.include_ignored || !filters::left_out(
                    walk.store,
                    rules,
                    entries[i].path@,
                    true,
                )
                &&& dir.path == entries[i].path@
                &&& dir.rules == rules
            },
    decreases count,
{
    if count > 0 {
        law_wanted_directories_lie_ahead(walk, rules, filter, found, entries, dir, count - 1);
        let before = with_entries(walk, rules, filter, found, entries, count - 1);
        let entry = entries[entries.len() - count];
        let ahead = PendingDirView { path: entry.path@, rules };
        lemma_pushed_contains(before.pending, ahead, dir);
        assert(dir == ahead <==> dir.path == entry.path@ && dir.rules == rules);
    }
}

/// A file is searched with its own path, size and time, and told by the path that is shown of it.
pub proof fn law_candidates_keep_what_is_known_of_the_file(walk: WalkView, entry: DirEntry)
    ensures
        candidate_of(walk, entry).path == entry.path@,
        candidate_of(walk, entry).byte_len == entry.byte_len,
        candidate_of(walk, entry).modified == entry.modified,
        walk.root.len() == 0 ==> candidate_of(walk, entry).display_path == paths::shown_path(
            true,
            entry.path@,
        ),
        walk.root.len() > 0 ==> candidate_of(walk, entry).display_path == paths::shown_path(
            false,
            entry.path@,
        ),
{
}

/// No file is searched twice, left out or changed on the way, and no file is searched before one that
/// changed later; of files that changed at the same time, or at a time that is not known, the one
/// whose shown path comes first is searched first.
pub proof fn law_newest_files_are_searched_first(files: Seq<CandidateFile>)
    ensures
        ({
            let sorted = order::ordered(files, candidate_order(), files.len() as int);
            &&& sorted.to_multiset() == files.to_multiset()
            &&& forall|i: int, j: int|
                0 <= i < j < sorted.len() ==> !order::listed_before(
                    (#[trigger] sorted[j]).modified,
                    sorted[j].display_path@,
                    (#[trigger] sorted[i]).modified,
                    sorted[i].display_path@,
                )
        }),
{
    law_searched_files_are_in_order(files);
    order::law_order_keeps_items(files, candidate_order(), files.len() as int);
    assert(files.take(files.len() as int) =~= files);
    let sorted = order::ordered(files, candidate_order(), files.len() as int);
    assert forall|i: int, j: int| 0 <= i < j < sorted.len() implies !order::listed_before(
        (#[trigger] sorted[j]).modified,
        sorted[j].display_path@,
        (#[trigger] sorted[i]).modified,
        sorted[i].display_path@,
    ) by {
        assert(!candidate_order()(sorted[j], sorted[i]));
    }
}

/// What is told of the progress is how many files were searched, in how many of them something was
/// found, and the path that was given.
pub proof fn law_progress_tells_the_counts(
    progress: GrepProgress,
    searched: int,
    matched: usize,
    current: Option<Seq<char>>,
)
    requires
        tells_progress(progress, searched, matched, current),
    ensures
        progress.searched_files == searched,
        progress.matched_files == matched,
        current is Some ==> progress.current_path is Some && progress.current_path->Some_0@
            == current->Some_0,
        current is None ==> progress.current_path is None,
{
}

} // verus!
