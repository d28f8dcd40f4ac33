//! Which files a search looks at: rules that leave files out, and globs and types that pick them.

use crate::chars;
use crate::workspace::bytes;
use crate::workspace::bytes::lossy_text;
use crate::workspace::paths;
use ignore::gitignore::{Gitignore, GitignoreBuilder};
use ignore::overrides::{Override, OverrideBuilder};
use ignore::types::{Types, TypesBuilder};
use vstd::prelude::*;

verus! {

/// `ignore::gitignore::GitignoreBuilder`: rules that are being collected.
#[verifier::external_type_specification]
#[verifier::external_body]
pub struct ExGitignoreBuilder(ignore::gitignore::GitignoreBuilder);

/// `ignore::gitignore::Gitignore`: rules that can be asked about paths.
#[verifier::external_type_specification]
#[verifier::external_body]
pub struct ExGitignore(ignore::gitignore::Gitignore);

/// The lines that have been added to a builder.
pub uninterp spec fn lines_added(builder: GitignoreBuilder) -> Seq<Seq<char>>;

/// The directory that a builder was made for.
pub uninterp spec fn builder_root(builder: GitignoreBuilder) -> Seq<char>;

/// The lines that rules were made from.
pub uninterp spec fn lines_in(rules: Gitignore) -> Seq<Seq<char>>;

/// The directory that rules were made for.
pub uninterp spec fn rules_root(rules: Gitignore) -> Seq<char>;

/// Why a line is no rule, if it is none.
pub uninterp spec fn line_failure(line: Seq<char>) -> Option<Seq<char>>;

/// Why lines make no rules together, if they do not.
pub uninterp spec fn lines_failure(lines: Seq<Seq<char>>) -> Option<Seq<char>>;

/// Whether lines hold no rule, but comments and blank lines alone.
pub uninterp spec fn hold_no_rule(lines: Seq<Seq<char>>) -> bool;

/// What the rules of a directory say of a path in it: that it is left out, that it is not, or
/// nothing.
pub uninterp spec fn verdict_of(
    root: Seq<char>,
    lines: Seq<Seq<char>>,
    path: Seq<char>,
    is_dir: bool,
) -> Option<bool>;

/// `GitignoreBuilder::new`: a builder for the rules of a directory, without lines.
#[verifier::external_body]
fn new_rules(root: &str) -> (builder: GitignoreBuilder)
    ensures
        lines_added(builder) == Seq::<Seq<char>>::empty(),
        builder_root(builder) == root@,
{
    GitignoreBuilder::new(root)
}

/// `GitignoreBuilder::add_line`: one more line. Whether it is a rule depends on the line alone; one
/// that is none is not added. The source is only remembered for messages.
#[verifier::external_body]
fn add_rule(builder: &mut GitignoreBuilder, source: &str, line: &str) -> (added: Result<(), String>)
    ensures
        builder_root(*final(builder)) == builder_root(*old(builder)),
        match added {
            Ok(_) => {
                &&& line_failure(line@) is None
                &&& lines_added(*final(builder)) == lines_added(*old(builder)).push(line@)
            },
            Err(message) => {
                &&& line_failure(line@) == Some(message@)
                &&& lines_added(*final(builder)) == lines_added(*old(builder))
            },
        },
{
    match builder.add_line(Some(std::path::PathBuf::from(source)), line) {
        Ok(_) => Ok(()),
        Err(error) => Err(error.to_string()),
    }
}

/// `GitignoreBuilder::build`: the rules that the lines added so far make.
#[verifier::external_body]
fn build_rules(builder: &GitignoreBuilder) -> (built: Result<Gitignore, String>)
    ensures
        match built {
            Ok(rules) => {
                &&& lines_failure(lines_added(*builder)) is None
                &&& lines_in(rules) == lines_added(*builder)
                &&& rules_root(rules) == builder_root(*builder)
            },
            Err(message) => lines_failure(lines_added(*builder)) == Some(message@),
        },
{
    match builder.build() {
        Ok(rules) => Ok(rules),
        Err(error) => Err(error.to_string()),
    }
}

/// `Gitignore::is_empty`: whether there is no rule at all, so that nothing is said of any path.
#[verifier::external_body]
fn rules_are_empty(rules: &Gitignore) -> (empty: bool)
    ensures
        empty == hold_no_rule(lines_in(*rules)),
        empty ==> forall|path: Seq<char>, is_dir: bool|
            #[trigger] verdict_of(rules_root(*rules), lines_in(*rules), path, is_dir) is None,
{
    rules.is_empty()
}

/// `Gitignore::matched_path_or_any_parents`: what the rules say of a path, or of the nearest
/// directory above it of which they say anything. The path has to be a relative one.
#[verifier::external_body]
fn ask_rules(rules: &Gitignore, path: &str, is_dir: bool) -> (verdict: Option<bool>)
    requires
        paths::relative(path@),
    ensures
        verdict == verdict_of(rules_root(*rules), lines_in(*rules), path@, is_dir),
{
    match rules.matched_path_or_any_parents(path, is_dir) {
        ignore::Match::None => None,
        ignore::Match::Ignore(_) => Some(true),
        ignore::Match::Whitelist(_) => Some(false),
    }
}

/// The rules of one directory.
#[derive(Debug)]
pub struct IgnoreRules {
    root: String,
    rules: Gitignore,
}

/// The rules of one directory, as plain values.
pub struct RulesView {
    pub root: Seq<char>,
    pub lines: Seq<Seq<char>>,
}

impl View for IgnoreRules {
    type V = RulesView;

    closed spec fn view(&self) -> RulesView {
        RulesView { root: self.root@, lines: lines_in(self.rules) }
    }
}

impl IgnoreRules {
    #[verifier::type_invariant]
    closed spec fn inv(&self) -> bool {
        rules_root(self.rules) == self.root@
    }
}

pub open spec fn rules_views(rules: Seq<IgnoreRules>) -> Seq<RulesView> {
    Seq::new(rules.len(), |i: int| rules[i]@)
}

/// The lines of a file of rules: the mark that a file may start with is no part of the first.
pub open spec fn rule_lines(text: Seq<char>) -> Seq<Seq<char>> {
    let lines = chars::lines(text);
    Seq::new(
        lines.len(),
        |i: int|
            if i == 0 {
                lines[0].skip(chars::leading(lines[0], |c: char| c == '\u{feff}') as int)
            } else {
                lines[i]
            },
    )
}

/// The first of the lines from `from` on that is no rule.
pub open spec fn first_bad_line(lines: Seq<Seq<char>>, from: int) -> Option<int>
    decreases lines.len() - from,
{
    if from < 0 || from >= lines.len() {
        None
    } else if line_failure(lines[from]) is Some {
        Some(from)
    } else {
        first_bad_line(lines, from + 1)
    }
}

/// Why a file of rules cannot be used, if it cannot.
pub open spec fn file_failure(source: Seq<char>, text: Seq<char>) -> Option<Seq<char>> {
    let lines = rule_lines(text);
    match first_bad_line(lines, 0) {
        Some(i) => Some(
            "invalid .gitignore rule in "@ + source + ":"@ + chars::decimal((i + 1) as nat)
                + ": "@ + line_failure(lines[i])->0,
        ),
        None => match lines_failure(lines) {
            Some(message) => Some("invalid .gitignore "@ + source + ": "@ + message),
            None => None,
        },
    }
}

/// Whether rules say nothing of any path.
pub open spec fn says_nothing(rules: RulesView) -> bool {
    forall|path: Seq<char>, is_dir: bool|
        #[trigger] verdict_of(rules.root, rules.lines, path, is_dir) is None
}

/// A text without the marks at its start.
fn strip_marks(line: &str) -> (kept: String)
    ensures
        kept@ == line@.skip(chars::leading(line@, |c: char| c == '\u{feff}') as int),
{
    let characters = chars::chars_of(line);
    let ghost mark = |c: char| c == '\u{feff}';
    let mut i: usize = 0;
    assert(line@.skip(0) =~= line@);
    while i < characters.len() && characters[i] == '\u{feff}'
        invariant
            i <= characters@.len(),
            characters@ == line@,
            mark == (|c: char| c == '\u{feff}'),
            chars::leading(line@, mark) == i + chars::leading(line@.skip(i as int), mark),
        decreases characters@.len() - i,
    {
        assert(line@.skip(i as int)[0] == line@[i as int]);
        assert(line@.skip(i as int).drop_first() =~= line@.skip(i + 1));
        i = i + 1;
    }
    assert(chars::leading(line@.skip(i as int), mark) == 0) by {
        if i < line@.len() {
            assert(line@.skip(i as int)[0] == line@[i as int]);
        }
    }
    let kept = chars::text_of(characters.as_slice(), i, characters.len());
    assert(kept@ =~= line@.skip(i as int));
    kept
}

/// The rules of a file, `source`, that lies in a directory, `root`. Rules that say nothing are left
/// away.
pub fn load_rules(root: &str, source: &str, text: &str) -> (loaded: Result<
    Option<IgnoreRules>,
    String,
>)
    ensures
        match loaded {
            Ok(rules) => {
                &&& file_failure(source@, text@) is None
                &&& match rules {
                    Some(rules) => {
                        &&& !hold_no_rule(rule_lines(text@))
                        &&& rules@ == (RulesView { root: root@, lines: rule_lines(text@) })
                    },
                    None => {
                        &&& hold_no_rule(rule_lines(text@))
                        &&& says_nothing(RulesView { root: root@, lines: rule_lines(text@) })
                    },
                }
            },
            Err(message) => file_failure(source@, text@) == Some(message@),
        },
{
    let lines = chars::split_lines(text);
    let ghost wanted = rule_lines(text@);
    let mut builder = new_rules(root);
    let mut i: usize = 0;
    assert(lines_added(builder) =~= wanted.take(0));
    while i < lines.len()
        invariant
            i <= lines@.len(),
            chars::texts(lines@) == chars::lines(text@),
            wanted == rule_lines(text@),
            builder_root(builder) == root@,
            lines_added(builder) == wanted.take(i as int),
            first_bad_line(wanted, 0) == first_bad_line(wanted, i as int),
        decreases lines@.len() - i,
    {
        assert(chars::texts(lines@)[i as int] == lines@[i as int]@);
        let line: String = if i == 0 {
            strip_marks(lines[i].as_str())
        } else {
            lines[i].clone()
        };
        assert(line@ == wanted[i as int]);
        match add_rule(&mut builder, source, line.as_str()) {
            Ok(_) => {},
            Err(error) => {
                let number: u64 = i as u64 + 1;
                let mut message: String = "invalid .gitignore rule in ".to_owned();
                message.append(source);
                message.append(":");
                message.append(chars::format_decimal(number).as_str());
                message.append(": ");
                message.append(error.as_str());
                return Err(message);
            },
        }
        i = i + 1;
        assert(lines_added(builder) =~= wanted.take(i as int));
    }
    assert(wanted.take(i as int) =~= wanted);
    match build_rules(&builder) {
        Ok(rules) => {
            if rules_are_empty(&rules) {
                Ok(None)
            } else {
                Ok(Some(IgnoreRules { root: root.to_owned(), rules }))
            }
        },
        Err(error) => {
            let mut message: String = "invalid .gitignore ".to_owned();
            message.append(source);
            message.append(": ");
            message.append(error.as_str());
            Err(message)
        },
    }
}

/// Whether the first `count` of rules leave a path out: the last that say anything of it count, of
/// those whose directory it is in.
pub open spec fn ignored(rules: Seq<RulesView>, path: Seq<char>, is_dir: bool, count: int) -> bool
    decreases count,
{
    if count <= 0 {
        false
    } else {
        let last = rules[count - 1];
        let verdict = if paths::under_shown(path, last.root) {
            verdict_of(last.root, last.lines, path, is_dir)
        } else {
            None
        };
        match verdict {
            Some(verdict) => verdict,
            None => ignored(rules, path, is_dir, count - 1),
        }
    }
}

/// Whether some of the rules in a store, given by their places in it, leave a path out.
pub open spec fn left_out(
    store: Seq<RulesView>,
    chosen: Seq<usize>,
    path: Seq<char>,
    is_dir: bool,
) -> bool {
    let rules = Seq::new(chosen.len(), |i: int| store[chosen[i] as int]);
    ignored(rules, paths::shown_path(true, path), is_dir, rules.len() as int)
}

/// Whether some of the rules in a store, given by their places in it, leave a path out.
pub fn gitignore_is_ignored(
    store: &Vec<IgnoreRules>,
    chosen: &Vec<usize>,
    path: &str,
    is_dir: bool,
) -> (out: bool)
    requires
        paths::tidy(path@),
        forall|i: int| 0 <= i < chosen@.len() ==> #[trigger] chosen@[i] < store@.len(),
    ensures
        out == left_out(rules_views(store@), chosen@, path@, is_dir),
{
    let shown = paths::display_path(true, path);
    proof {
        paths::lemma_shown_relative(path@);
    }
    let ghost views = rules_views(store@);
    let ghost rules = Seq::new(chosen@.len(), |i: int| views[chosen@[i] as int]);
    let mut out = false;
    let mut i: usize = 0;
    while i < chosen.len()
        invariant
            i <= chosen@.len(),
            forall|i: int| 0 <= i < chosen@.len() ==> #[trigger] chosen@[i] < store@.len(),
            views == rules_views(store@),
            rules == Seq::new(chosen@.len(), |i: int| views[chosen@[i] as int]),
            paths::relative(shown@),
            out == ignored(rules, shown@, is_dir, i as int),
        decreases chosen@.len() - i,
    {
        let entry = &store[chosen[i]];
        proof {
            use_type_invariant(entry);
        }
        assert(rules[i as int] == entry@);
        if paths::path_is_under(shown.as_str(), entry.root.as_str()) {
            if let Some(verdict) = ask_rules(&entry.rules, shown.as_str(), is_dir) {
                out = verdict;
            }
        }
        i = i + 1;
    }
    out
}

/// Rules that say nothing can be left away.
pub proof fn law_silent_rules_change_nothing(
    rules: Seq<RulesView>,
    silent: RulesView,
    path: Seq<char>,
    is_dir: bool,
)
    requires
        says_nothing(silent),
    ensures
        ignored(rules.push(silent), path, is_dir, (rules.len() + 1) as int) == ignored(
            rules,
            path,
            is_dir,
            rules.len() as int,
        ),
{
    lemma_ignored_prefix(rules, rules.push(silent), path, is_dir, rules.len() as int);
}

proof fn lemma_ignored_prefix(
    rules: Seq<RulesView>,
    longer: Seq<RulesView>,
    path: Seq<char>,
    is_dir: bool,
    count: int,
)
    requires
        0 <= count <= rules.len() <= longer.len(),
        forall|i: int| 0 <= i < rules.len() ==> rules[i] == longer[i],
    ensures
        ignored(rules, path, is_dir, count) == ignored(longer, path, is_dir, count),
    decreases count,
{
    if count > 0 {
        lemma_ignored_prefix(rules, longer, path, is_dir, count - 1);
    }
}

/// The rules of a directory deeper down count before those above it.
pub proof fn law_deeper_rules_win(
    rules: Seq<RulesView>,
    deeper: RulesView,
    path: Seq<char>,
    is_dir: bool,
)
    requires
        paths::under_shown(path, deeper.root),
        verdict_of(deeper.root, deeper.lines, path, is_dir) is Some,
    ensures
        ignored(rules.push(deeper), path, is_dir, (rules.len() + 1) as int) == verdict_of(
            deeper.root,
            deeper.lines,
            path,
            is_dir,
        )->0,
{
}

/// Loads the rules that the bytes of a file hold, as text.
pub fn load_rules_of(root: &str, source: &str, bytes: &Vec<u8>) -> (loaded: Result<
    Option<IgnoreRules>,
    String,
>)
    ensures
        ({
            let text = bytes::lossy(bytes@);
            match loaded {
                Ok(rules) => {
                    &&& file_failure(source@, text) is None
                    &&& match rules {
                        Some(rules) => {
                            &&& !hold_no_rule(rule_lines(text))
                            &&& rules@ == (RulesView { root: root@, lines: rule_lines(text) })
                        },
                        None => {
                            &&& hold_no_rule(rule_lines(text))
                            &&& says_nothing(RulesView { root: root@, lines: rule_lines(text) })
                        },
                    }
                },
                Err(message) => file_failure(source@, text) == Some(message@),
            }
        }),
{
    load_rules(root, source, lossy_text(bytes).as_str())
}

/// `ignore::overrides::Override`: a glob that picks files.
#[verifier::external_type_specification]
#[verifier::external_body]
pub struct ExOverride(ignore::overrides::Override);

/// `ignore::types::Types`: a type that picks files.
#[verifier::external_type_specification]
#[verifier::external_body]
pub struct ExTypes(ignore::types::Types);

/// The pattern that a glob was made from.
pub uninterp spec fn glob_pattern(glob: Override) -> Seq<char>;

/// Why a pattern is no glob, if it is none.
pub uninterp spec fn glob_failure(pattern: Seq<char>) -> Option<Seq<char>>;

/// Whether a glob picks a file.
pub uninterp spec fn glob_picks(pattern: Seq<char>, path: Seq<char>) -> bool;

/// The name that a type was selected by.
pub uninterp spec fn type_selected(types: Types) -> Seq<char>;

/// Why there is no type with a name, if there is none.
pub uninterp spec fn type_failure(name: Seq<char>) -> Option<Seq<char>>;

/// Whether a type picks a file.
pub uninterp spec fn type_picks(name: Seq<char>, path: Seq<char>) -> bool;

/// `OverrideBuilder::add` on a new builder for the directory at hand, and `OverrideBuilder::build`:
/// a matcher for one glob, or what is wrong with the glob.
#[verifier::external_body]
fn compile_glob(pattern: &str) -> (compiled: Result<Override, String>)
    ensures
        match compiled {
            Ok(glob) => glob_failure(pattern@) is None && glob_pattern(glob) == pattern@,
            Err(message) => glob_failure(pattern@) == Some(message@),
        },
{
    let mut builder = OverrideBuilder::new("");
    match builder.add(pattern) {
        Ok(_) => match builder.build() {
            Ok(glob) => Ok(glob),
            Err(error) => Err(error.to_string()),
        },
        Err(error) => Err(error.to_string()),
    }
}

/// `Override::matched` on a file: whether the glob picks it.
#[verifier::external_body]
fn glob_matches(glob: &Override, path: &str) -> (picks: bool)
    ensures
        picks == glob_picks(glob_pattern(*glob), path@),
{
    glob.matched(path, false).is_whitelist()
}

/// `TypesBuilder::select` on a builder with the default types, and `TypesBuilder::build`: a matcher
/// for one type, or what is wrong with its name.
#[verifier::external_body]
fn select_type(name: &str) -> (selected: Result<Types, String>)
    ensures
        match selected {
            Ok(types) => type_failure(name@) is None && type_selected(types) == name@,
            Err(message) => type_failure(name@) == Some(message@),
        },
{
    let mut builder = TypesBuilder::new();
    builder.add_defaults();
    builder.select(name);
    match builder.build() {
        Ok(types) => Ok(types),
        Err(error) => Err(error.to_string()),
    }
}

/// `Types::matched` on a file: whether the type picks it.
#[verifier::external_body]
fn type_matches(types: &Types, path: &str) -> (picks: bool)
    ensures
        picks == type_picks(type_selected(*types), path@),
{
    types.matched(path, false).is_whitelist()
}

/// What files have to be to be looked at.
#[derive(Debug)]
pub struct FileFilter {
    pub glob: Option<Override>,
    pub file_type: Option<Types>,
}

/// What files have to be, as plain values.
pub struct FilterView {
    pub glob: Option<Seq<char>>,
    pub file_type: Option<Seq<char>>,
}

impl View for FileFilter {
    type V = FilterView;

    open spec fn view(&self) -> FilterView {
        FilterView {
            glob: match self.glob {
                Some(glob) => Some(glob_pattern(glob)),
                None => None,
            },
            file_type: match self.file_type {
                Some(types) => Some(type_selected(types)),
                None => None,
            },
        }
    }
}

/// Why a filter cannot be used, if it cannot.
pub open spec fn filter_failure(filter: FilterView) -> Option<Seq<char>> {
    match filter.glob {
        Some(pattern) => match glob_failure(pattern) {
            Some(message) => Some("invalid glob `"@ + pattern + "`: "@ + message),
            None => file_type_failure(filter.file_type),
        },
        None => file_type_failure(filter.file_type),
    }
}

pub open spec fn file_type_failure(file_type: Option<Seq<char>>) -> Option<Seq<char>> {
    match file_type {
        Some(name) => match type_failure(name) {
            Some(message) => Some("invalid file type `"@ + name + "`: "@ + message),
            None => None,
        },
        None => None,
    }
}

/// Whether a filter picks a file.
pub open spec fn picked(filter: FilterView, path: Seq<char>) -> bool {
    &&& filter.glob matches Some(pattern) ==> glob_picks(pattern, path)
    &&& filter.file_type matches Some(name) ==> type_picks(name, path)
}

fn labelled(label: &str, value: &str, error: &str) -> (message: String)
    ensures
        message@ == label@ + value@ + "`: "@ + error@,
{
    let mut message: String = label.to_owned();
    message.append(value);
    message.append("`: ");
    message.append(error);
    message
}

impl FileFilter {
    pub fn new(glob: Option<&str>, file_type: Option<&str>) -> (filter: Result<FileFilter, String>)
        ensures
            ({
                let wanted = FilterView {
                    glob: match glob {
                        Some(glob) => Some(glob@),
                        None => None,
                    },
                    file_type: match file_type {
                        Some(name) => Some(name@),
                        None => None,
                    },
                };
                match filter {
                    Ok(filter) => filter_failure(wanted) is None && filter@ == wanted,
                    Err(message) => filter_failure(wanted) == Some(message@),
                }
            }),
    {
        let compiled = match glob {
            Some(pattern) => match compile_glob(pattern) {
                Ok(glob) => Some(glob),
                Err(error) => {
                    return Err(labelled("invalid glob `", pattern, error.as_str()));
                },
            },
            None => None,
        };
        let selected = match file_type {
            Some(name) => match select_type(name) {
                Ok(types) => Some(types),
                Err(error) => {
                    return Err(labelled("invalid file type `", name, error.as_str()));
                },
            },
            None => None,
        };
        Ok(FileFilter { glob: compiled, file_type: selected })
    }

    /// Whether a file, by the path that is shown of it, is looked at.
    pub fn matches(&self, path: &str) -> (matches: bool)
        ensures
            matches == picked(self@, path@),
    {
        if let Some(glob) = &self.glob {
            if !glob_matches(glob, path) {
                return false;
            }
        }
        if let Some(types) = &self.file_type {
            if !type_matches(types, path) {
                return false;
            }
        }
        true
    }
}

/// Rules hold only in the directory that they were made for, and where no rules hold nothing is left
/// out.
pub proof fn law_rules_hold_in_their_directory(
    rules: Seq<RulesView>,
    other: RulesView,
    path: Seq<char>,
    is_dir: bool,
)
    requires
        other.root != "."@,
        other.root.len() > 0,
        !paths::lies_under(path, other.root),
    ensures
        ignored(rules.push(other), path, is_dir, (rules.len() + 1) as int) == ignored(
            rules,
            path,
            is_dir,
            rules.len() as int,
        ),
        !ignored(Seq::empty(), path, is_dir, 0),
{
    let longer = rules.push(other);
    assert(longer.drop_last() =~= rules);
    lemma_ignored_prefix(rules, longer, path, is_dir, rules.len() as int);
}

/// Of the rules that are chosen from a store the last ones that say something of a path decide: they
/// leave it out or they do not. The path is asked for as it is seen from the root.
pub proof fn law_last_chosen_rules_decide(
    store: Seq<RulesView>,
    chosen: Seq<usize>,
    last: usize,
    path: Seq<char>,
    is_dir: bool,
)
    requires
        last < store.len(),
    ensures
        ({
            let rules = store[last as int];
            let shown = paths::shown_path(true, path);
            let verdict = verdict_of(rules.root, rules.lines, shown, is_dir);
            let holds = rules.root == "."@ || rules.root.len() == 0 || paths::lies_under(
                shown,
                rules.root,
            );
            &&& holds && verdict == Some(true) ==> left_out(
                store,
                chosen.push(last),
                path,
                is_dir,
            )
            &&& holds && verdict == Some(false) ==> !left_out(
                store,
                chosen.push(last),
                path,
                is_dir,
            )
            &&& !holds || verdict is None ==> left_out(store, chosen.push(last), path, is_dir)
                == left_out(store, chosen, path, is_dir)
            &&& !left_out(store, Seq::empty(), path, is_dir)
        }),
{
    let before = Seq::new(chosen.len(), |i: int| store[chosen[i] as int]);
    let longer = chosen.push(last);
    let after = Seq::new(longer.len(), |i: int| store[longer[i] as int]);
    lemma_ignored_prefix(
        before,
        after,
        paths::shown_path(true, path),
        is_dir,
        chosen.len() as int,
    );
    assert(after[chosen.len() as int] == store[last as int]);
}

/// A filter without a glob and a type picks everything; else what is picked is what all its parts
/// pick.
pub proof fn law_all_parts_of_a_filter_pick(
    glob: Seq<char>,
    file_type: Seq<char>,
    path: Seq<char>,
)
    ensures
        picked(FilterView { glob: None, file_type: None }, path),
        picked(FilterView { glob: Some(glob), file_type: None }, path) == glob_picks(glob, path),
        picked(FilterView { glob: None, file_type: Some(file_type) }, path) == type_picks(
            file_type,
            path,
        ),
        picked(FilterView { glob: Some(glob), file_type: Some(file_type) }, path) == (glob_picks(
            glob,
            path,
        ) && type_picks(file_type, path)),
{
}

/// A filter is refused just where its glob or its type is none, and the message names what is wrong.
pub proof fn law_bad_filters_are_refused(filter: FilterView)
    ensures
        filter_failure(filter) is Some <==> (filter.glob is Some && glob_failure(
            filter.glob->0,
        ) is Some) || (filter.file_type is Some && type_failure(filter.file_type->0) is Some),
        filter.glob is Some && glob_failure(filter.glob->0) is Some ==> filter_failure(filter)
            == Some(
            "invalid glob `"@ + filter.glob->0 + "`: "@ + glob_failure(filter.glob->0)->0,
        ),
        filter_failure(filter) is Some && (filter.glob is None || glob_failure(
            filter.glob->0,
        ) is None) ==> filter_failure(filter) == Some(
            "invalid file type `"@ + filter.file_type->0 + "`: "@ + type_failure(
                filter.file_type->0,
            )->0,
        ),
{
}

proof fn lemma_first_bad(lines: Seq<Seq<char>>, from: int, bad: int)
    requires
        0 <= from <= bad < lines.len(),
        line_failure(lines[bad]) is Some,
        forall|i: int| from <= i < bad ==> line_failure(#[trigger] lines[i]) is None,
    ensures
        first_bad_line(lines, from) == Some(bad),
    decreases bad - from,
{
    if from < bad {
        assert(line_failure(lines[from]) is None);
        lemma_first_bad(lines, from + 1, bad);
    }
}

proof fn lemma_no_bad(lines: Seq<Seq<char>>, from: int)
    requires
        0 <= from <= lines.len(),
        forall|i: int| from <= i < lines.len() ==> line_failure(#[trigger] lines[i]) is None,
    ensures
        first_bad_line(lines, from) is None,
    decreases lines.len() - from,
{
    if from < lines.len() {
        assert(line_failure(lines[from]) is None);
        lemma_no_bad(lines, from + 1);
    }
}

/// A file of rules is refused for the first of its lines that is no rule, whose number, counted from
/// one, is told with the name of the file. Where all lines are rules only the rules together can be
/// refused.
pub proof fn law_first_bad_rule_is_told(source: Seq<char>, text: Seq<char>, bad: int)
    ensures
        ({
            let lines = rule_lines(text);
            &&& 0 <= bad < lines.len() && line_failure(lines[bad]) is Some && (forall|i: int|
                0 <= i < bad ==> line_failure(#[trigger] lines[i]) is None) ==> file_failure(
                source,
                text,
            ) == Some(
                "invalid .gitignore rule in "@ + source + ":"@ + chars::decimal((bad + 1) as nat)
                    + ": "@ + line_failure(lines[bad])->0,
            )
            &&& (forall|i: int|
                0 <= i < lines.len() ==> line_failure(#[trigger] lines[i]) is None) ==> {
                &&& file_failure(source, text) is None <==> lines_failure(lines) is None
                &&& lines_failure(lines) is Some ==> file_failure(source, text) == Some(
                    "invalid .gitignore "@ + source + ": "@ + lines_failure(lines)->0,
                )
            }
        }),
{
    let lines = rule_lines(text);
    if 0 <= bad < lines.len() && line_failure(lines[bad]) is Some && (forall|i: int|
        0 <= i < bad ==> line_failure(#[trigger] lines[i]) is None) {
        lemma_first_bad(lines, 0, bad);
    }
    if forall|i: int| 0 <= i < lines.len() ==> line_failure(#[trigger] lines[i]) is None {
        lemma_no_bad(lines, 0);
    }
}

/// The rules of a file are its lines, unchanged but for the mark that a file may start with.
pub proof fn law_rules_are_the_lines_of_the_file(text: Seq<char>, i: int)
    requires
        0 <= i < chars::lines(text).len(),
    ensures
        rule_lines(text).len() == chars::lines(text).len(),
        i > 0 ==> rule_lines(text)[i] == chars::lines(text)[i],
        i == 0 && (chars::lines(text)[0].len() == 0 || chars::lines(text)[0][0] != '\u{feff}')
            ==> rule_lines(text)[i] == chars::lines(text)[i],
        i == 0 ==> rule_lines(text)[0].is_suffix_of(chars::lines(text)[0]) && (rule_lines(
            text,
        )[0].len() > 0 ==> rule_lines(text)[0][0] != '\u{feff}'),
{
    let mark = |c: char| c == '\u{feff}';
    let first = chars::lines(text)[0];
    chars::lemma_leading_bound(first, mark);
    chars::lemma_leading_stops(first, mark);
    assert(first.skip(0) =~= first);
    let n = chars::leading(first, mark) as int;
    assert(first.skip(n) =~= first.subrange(first.len() - first.skip(n).len(), first.len() as int));
}

} // verus!
