use coox::harness::tools::{ToolExecutionPolicy, ToolUpdatePayload};
use coox::message::{ImageContent, InputContent, ToolResult, ToolResultStatus};
use coox::workspace::bash_tool::{
    check_command, exit_status_label, report_command, tail_lines, BashInput, BashTool,
    CommandEnd, StreamEnd, TailOutput, MAX_OUTPUT_BYTES, MAX_OUTPUT_LINES,
};
use coox::workspace::filters::{load_rules, load_rules_of};
use coox::workspace::glob_tool::{self, GlobInput, GlobStart};
use coox::workspace::grep_tool::{
    self, begin_search, collect_entries, search_one_file, sort_candidates, sort_note_for,
    GrepInput, GrepMatchFound, GrepOutputMode, GrepProgress, GrepToolConfig, SearchRun,
    SearchStep,
};
use coox::workspace::order::Modified;
use coox::workspace::paths::{ancestor_directories, display_path};
use coox::workspace::place::resolve_path;
use coox::workspace::read_tool::{
    check_is_file, digit_count, image_mime_type, ReadInput, ReadOutput, ReadTool, ReadToolConfig,
};
use coox::workspace::router::{
    call_result, find_tool, offered_tool, tool_policy, workspace_context, workspace_tools,
    WorkspaceTool, WorkspaceToolSet,
};
use coox::workspace::walk::{DirEntry, PendingDir, Walk};
use vfs::async_vfs::{AsyncMemoryFS, AsyncVfsPath};

/// Files by their paths from the root of a file system, with their bytes and times in seconds.
#[derive(Default)]
struct Files {
    files: Vec<(String, Vec<u8>, Option<u64>)>,
}

impl Files {
    fn with(mut self, path: &str, bytes: &[u8]) -> Self {
        self.files.push((format!("/{path}"), bytes.to_vec(), None));
        self
    }

    fn with_time(mut self, path: &str, bytes: &[u8], modified: u64) -> Self {
        self.files
            .push((format!("/{path}"), bytes.to_vec(), Some(modified)));
        self
    }

    fn file(&self, path: &str) -> Option<&(String, Vec<u8>, Option<u64>)> {
        self.files.iter().find(|(name, _, _)| name == path)
    }

    fn entry(&self, path: &str) -> DirEntry {
        match self.file(path) {
            Some((_, bytes, modified)) => DirEntry {
                path: path.to_string(),
                is_dir: false,
                byte_len: bytes.len() as u64,
                modified: match modified {
                    Some(seconds) => Modified::At(u128::from(*seconds) * 1_000_000_000),
                    None => Modified::Unknown,
                },
            },
            None => DirEntry {
                path: path.to_string(),
                is_dir: true,
                byte_len: 0,
                modified: Modified::Unknown,
            },
        }
    }

    fn entries(&self, dir: &str) -> Vec<DirEntry> {
        let mut paths = self
            .files
            .iter()
            .filter_map(|(path, _, _)| path.strip_prefix(&format!("{dir}/")))
            .map(|rest| format!("{dir}/{}", rest.split('/').next().unwrap_or("")))
            .collect::<Vec<_>>();
        paths.sort();
        paths.dedup();
        paths.reverse();
        paths.iter().map(|path| self.entry(path)).collect()
    }

    fn resolve(&self, root: &str, path: &str) -> String {
        if path.is_empty() {
            root.to_string()
        } else if path.starts_with('/') {
            path.to_string()
        } else {
            format!("{root}/{path}")
        }
    }

    fn add_rules_of(&self, walk: &mut Walk, dir: &str, rules: &mut Vec<usize>) {
        let source = format!("{dir}/.gitignore");
        if let Some((_, bytes, _)) = self.file(&source) {
            let loaded = load_rules_of(
                &display_path(true, dir),
                &display_path(true, &source),
                bytes,
            )
            .expect("valid rules");
            if let Some(loaded) = loaded {
                rules.push(walk.add_rules(loaded));
            }
        }
    }

    fn inherited_rules(&self, walk: &mut Walk, root: &str, start: &str) -> Vec<usize> {
        let mut rules = Vec::new();
        for dir in ancestor_directories(root, start) {
            self.add_rules_of(walk, &dir, &mut rules);
        }
        rules
    }
}

enum Update {
    Progress(GrepProgress),
    Found(GrepMatchFound),
}

fn grep_with_updates(
    files: &Files,
    root: &str,
    input: GrepInput,
) -> Result<(String, Vec<Update>), String> {
    let plan = grep_tool::plan_search(input, &GrepToolConfig::default(), false)?;
    let mut walk = Walk::new(root.to_string(), plan.include_ignored);
    let start = files.resolve(root, &plan.path);
    let rules = files.inherited_rules(&mut walk, root, &start);
    let mut candidates = Vec::new();
    begin_search(
        &mut walk,
        files.entry(&start),
        rules,
        &plan.filter,
        &mut candidates,
    );
    while let Some(dir) = grep_tool::next_directory(&mut walk, false)? {
        let mut rules = dir.rules;
        files.add_rules_of(&mut walk, &dir.path, &mut rules);
        let entries = files.entries(&dir.path);
        collect_entries(&mut walk, &rules, entries, &plan.filter, &mut candidates);
    }
    let mut updates = Vec::new();
    let mut run = SearchRun::new(sort_candidates(candidates), plan.output);
    loop {
        match run.next(false) {
            SearchStep::Search(progress) => {
                updates.push(Update::Progress(progress));
                let file = &run.files[run.searched - 1];
                let shown = file.display_path.clone();
                let bytes = &files.file(&file.path).expect("a file").1;
                let report = search_one_file(
                    &shown,
                    bytes,
                    &plan.matcher,
                    &plan.options,
                    plan.mode,
                    &mut run.output,
                )?
                .expect("few matches");
                updates.extend(report.matches.into_iter().map(Update::Found));
                run.finish_file(report.found);
            }
            SearchStep::Cancelled => return Err("grep cancelled".to_string()),
            SearchStep::Done(progress) => {
                updates.push(Update::Progress(progress));
                return Ok((run.output.finish(), updates));
            }
        }
    }
}

fn grep(files: &Files, input: GrepInput) -> String {
    grep_with_updates(files, "", input).expect("a search").0
}

fn pattern(text: &str) -> GrepInput {
    GrepInput::new(text.to_string())
}

const UNSORTED: &str =
    "[sort: path order; modification time unavailable from VFS for matched files]";

#[test]
fn defaults_to_files_with_matches() {
    let files = Files::default()
        .with("src/main.rs", b"fn main() { println!(\"hi\"); }\n")
        .with("README.md", b"hello\n");

    assert_eq!(grep(&files, pattern("println")), "src/main.rs");
}

#[test]
fn cwd_inside_larger_vfs_keeps_absolute_match_paths() {
    let files = Files::default()
        .with("workspace/src/main.rs", b"fn main() { println!(\"hi\"); }\n")
        .with("workspace/README.md", b"hello\n");

    let (text, _) = grep_with_updates(
        &files,
        "/workspace",
        GrepInput {
            glob: Some("*.rs".to_string()),
            ..pattern("println")
        },
    )
    .expect("a search");

    assert_eq!(text, "/workspace/src/main.rs");
}

#[test]
fn content_mode_supports_line_numbers_and_case_insensitive_search() {
    let files = Files::default().with("notes.txt", b"Alpha\nbeta\nALPINE\n");

    let text = grep(
        &files,
        GrepInput {
            output_mode: GrepOutputMode::Content,
            case_insensitive: true,
            ..pattern("alp")
        },
    );

    assert_eq!(text, "notes.txt:1:Alpha\nnotes.txt:3:ALPINE");
}

#[test]
fn filters_by_glob() {
    let files = Files::default()
        .with("src/app.ts", b"const needle = 1;\n")
        .with("src/app.py", b"needle = 1\n");

    let text = grep(
        &files,
        GrepInput {
            glob: Some("*.ts".to_string()),
            ..pattern("needle")
        },
    );

    assert_eq!(text, "src/app.ts");
}

#[test]
fn filters_by_type() {
    let files = Files::default()
        .with("src/app.js", b"const needle = 1;\n")
        .with("src/app.py", b"needle = 1\n");

    let text = grep(
        &files,
        GrepInput {
            file_type: Some("js".to_string()),
            ..pattern("needle")
        },
    );

    assert_eq!(text, "src/app.js");
}

#[test]
fn respects_root_gitignore_rules() {
    let files = Files::default()
        .with(".gitignore", b"ignored.txt\ntarget/\n")
        .with("visible.txt", b"needle\n")
        .with("ignored.txt", b"needle\n")
        .with("target/output.txt", b"needle\n");

    assert_eq!(grep(&files, pattern("needle")), "visible.txt");
}

#[test]
fn respects_nested_gitignore_rules() {
    let files = Files::default()
        .with("src/.gitignore", b"generated/\n")
        .with("src/lib.rs", b"let needle = true;\n")
        .with("src/generated/lib.rs", b"let needle = true;\n");

    assert_eq!(grep(&files, pattern("needle")), "src/lib.rs");
}

#[test]
fn include_ignored_searches_gitignored_files() {
    let files = Files::default()
        .with(".gitignore", b"ignored.txt\ntarget/\n")
        .with("visible.txt", b"needle\n")
        .with("ignored.txt", b"needle\n")
        .with("target/output.txt", b"needle\n");

    let text = grep(
        &files,
        GrepInput {
            include_ignored: true,
            ..pattern("needle")
        },
    );

    assert_eq!(
        text,
        format!("ignored.txt\ntarget/output.txt\nvisible.txt\n{UNSORTED}")
    );
}

#[test]
fn excludes_vcs_directories_by_default() {
    let files = Files::default()
        .with(".git/config", b"needle\n")
        .with(".git/objects/pack/data", b"needle\n")
        .with(".svn/entries", b"needle\n")
        .with(".hg/store/data", b"needle\n")
        .with("visible.txt", b"needle\n");

    assert_eq!(grep(&files, pattern("needle")), "visible.txt");
}

#[test]
fn count_mode_counts_matching_lines_per_file() {
    let files = Files::default()
        .with("a.txt", b"needle\nneedle again\nnope\n")
        .with("b.txt", b"needle\n");

    let text = grep(
        &files,
        GrepInput {
            output_mode: GrepOutputMode::Count,
            ..pattern("needle")
        },
    );

    assert_eq!(text, format!("a.txt:2\nb.txt:1\n{UNSORTED}"));
}

#[test]
fn sorts_results_by_modified_time_descending() {
    let files = Files::default()
        .with_time("older.txt", b"needle\n", 1)
        .with_time("newer.txt", b"needle\n", 2);

    assert_eq!(grep(&files, pattern("needle")), "newer.txt\nolder.txt");
}

#[test]
fn context_and_head_limit_are_applied_to_content_output() {
    let files =
        Files::default().with("notes.txt", b"before\nneedle\nafter\nneedle two\n");

    let text = grep(
        &files,
        GrepInput {
            output_mode: GrepOutputMode::Content,
            context: Some(1),
            head_limit: Some(3),
            ..pattern("needle")
        },
    );

    assert_eq!(
        text,
        "notes.txt-1-before\nnotes.txt:2:needle\nnotes.txt-3-after\n[truncated: reached head_limit; continue with offset=3]"
    );
}

#[test]
fn multiline_search_crosses_line_boundaries() {
    let files = Files::default().with("notes.txt", b"begin\nmiddle\nend\n");

    let text = grep(
        &files,
        GrepInput {
            output_mode: GrepOutputMode::Content,
            multiline: true,
            ..pattern("begin.*end")
        },
    );

    assert_eq!(
        text,
        "notes.txt:1:begin\nnotes.txt:2:middle\nnotes.txt:3:end"
    );
}

#[test]
fn emits_structured_progress_and_match_updates() {
    let files = Files::default().with("notes.txt", b"first\nneedle here\nlast\n");

    let (text, updates) = grep_with_updates(
        &files,
        "",
        GrepInput {
            output_mode: GrepOutputMode::Content,
            ..pattern("needle")
        },
    )
    .expect("a search");

    assert_eq!(text, "notes.txt:2:needle here");
    assert_eq!(updates.len(), 3);
    let Update::Progress(first) = &updates[0] else {
        panic!("expected progress");
    };
    assert_eq!(first.kind(), "grep.progress");
    assert_eq!(
        *first,
        GrepProgress {
            searched_files: 1,
            matched_files: 0,
            current_path: Some("notes.txt".to_string()),
        }
    );
    let Update::Found(found) = &updates[1] else {
        panic!("expected a match");
    };
    assert_eq!(found.kind(), "grep.match_found");
    assert_eq!(
        *found,
        GrepMatchFound {
            path: "notes.txt".to_string(),
            line_number: Some(2),
            byte_offset: 6,
            line_count: 1,
        }
    );
    let Update::Progress(last) = &updates[2] else {
        panic!("expected progress");
    };
    assert_eq!(
        *last,
        GrepProgress {
            searched_files: 1,
            matched_files: 1,
            current_path: None,
        }
    );
}

#[test]
fn gaps_between_lines_are_marked() {
    let files = Files::default().with("n.txt", b"a\nb\nc\nd\na\n");
    let text = grep(
        &files,
        GrepInput {
            output_mode: GrepOutputMode::Content,
            after: Some(1),
            line_numbers: Some(false),
            ..pattern("a")
        },
    );
    assert_eq!(text, "n.txt:a\nn.txt-b\n--\nn.txt:a");
}

#[test]
fn output_can_be_continued() {
    let files = Files::default().with("n.txt", b"a1\na2\na3\n");
    let page = |offset: usize| {
        grep(
            &files,
            GrepInput {
                output_mode: GrepOutputMode::Content,
                head_limit: Some(2),
                offset: Some(offset),
                ..pattern("a")
            },
        )
    };
    assert_eq!(
        page(0),
        "n.txt:1:a1\nn.txt:2:a2\n[truncated: reached head_limit; continue with offset=2]"
    );
    assert_eq!(page(2), "n.txt:3:a3");
    assert_eq!(page(9), "No output: offset 9 is past end (3 line(s))");
    assert_eq!(grep(&files, pattern("zzz")), "No matches");
}

#[test]
fn searches_that_cannot_start_say_why() {
    let config = GrepToolConfig::default();
    let failure = |input: GrepInput, cancelled: bool| {
        grep_tool::plan_search(input, &config, cancelled)
            .err()
            .expect("a failure")
    };
    assert_eq!(failure(pattern("("), true), "grep cancelled");
    assert!(failure(pattern("("), false).starts_with("invalid regex pattern: "));
    assert!(failure(
        GrepInput {
            glob: Some("{".to_string()),
            ..pattern("a")
        },
        false
    )
    .starts_with("invalid glob `{`: "));
    assert!(failure(
        GrepInput {
            file_type: Some("no-such-type".to_string()),
            ..pattern("a")
        },
        false
    )
    .starts_with("invalid file type `no-such-type`: "));
}

#[test]
fn notes_tell_how_files_are_sorted() {
    let known = Modified::At(1);
    assert_eq!(sort_note_for(&vec![Modified::Unknown]), None);
    assert_eq!(sort_note_for(&vec![known, known]), None);
    assert_eq!(
        sort_note_for(&vec![Modified::Unknown, Modified::Unknown]),
        Some(UNSORTED)
    );
    assert_eq!(
        sort_note_for(&vec![known, Modified::Unknown]),
        Some("[sort: modification time descending; matched files without modification time sorted by path]")
    );
}

#[test]
fn a_search_can_be_cancelled() {
    let plan = grep_tool::plan_search(pattern("a"), &GrepToolConfig::default(), false)
        .ok()
        .expect("a plan");
    let files = Files::default().with("a.txt", b"a");
    let mut walk = Walk::new(String::new(), false);
    let mut candidates = Vec::new();
    begin_search(
        &mut walk,
        files.entry("/a.txt"),
        Vec::new(),
        &plan.filter,
        &mut candidates,
    );
    let mut run = SearchRun::new(candidates, plan.output);
    assert!(matches!(run.next(true), SearchStep::Cancelled));
}

fn glob(files: &Files, input: GlobInput) -> String {
    let plan = glob_tool::plan_search(input, false).ok().expect("a plan");
    let mut walk = Walk::new(String::new(), false);
    let mut search = plan.search;
    let start = files.resolve("", &plan.path);
    let rules = files.inherited_rules(&mut walk, "", &start);
    let entry = files.entry(&start);
    match glob_tool::begin_search(&mut walk, entry, rules, &plan.filter, &mut search) {
        GlobStart::Directory => {}
        GlobStart::Nothing | GlobStart::File { .. } => return search.finish(),
    }
    while let Some(dir) = glob_tool::next_directory(&mut walk, false).expect("no cancelling") {
        let mut rules = dir.rules;
        files.add_rules_of(&mut walk, &dir.path, &mut rules);
        search.visit_directory(&mut walk, &rules, files.entries(&dir.path), &plan.filter);
    }
    search.finish()
}

fn glob_input(text: &str) -> GlobInput {
    GlobInput {
        pattern: text.to_string(),
        path: None,
        head_limit: None,
        offset: None,
    }
}

#[test]
fn files_are_found_by_their_paths() {
    let files = Files::default()
        .with(".gitignore", b"gen/\n")
        .with("src/b.rs", b"")
        .with("src/deep/a.rs", b"")
        .with("gen/c.rs", b"")
        .with(".git/d.rs", b"")
        .with("notes.md", b"");
    assert_eq!(
        glob(&files, glob_input("**/*.rs")),
        format!("src/b.rs\nsrc/deep/a.rs\n{UNSORTED}\n2 files")
    );
    assert_eq!(glob(&files, glob_input("*.zig")), "No matches");
    let only = GlobInput {
        path: Some("src/b.rs".to_string()),
        ..glob_input("*.rs")
    };
    assert_eq!(glob(&files, only), "src/b.rs\n1 files");
}

#[test]
fn found_files_come_in_pages() {
    let files = Files::default()
        .with_time("a.rs", b"", 3)
        .with_time("b.rs", b"", 2)
        .with_time("c.rs", b"", 1);
    let page = |offset: usize, limit: usize| {
        glob(
            &files,
            GlobInput {
                head_limit: Some(limit),
                offset: Some(offset),
                ..glob_input("*.rs")
            },
        )
    };
    assert_eq!(
        page(0, 2),
        "a.rs\nb.rs\n2 of 3 files (truncated, continue with offset=2)"
    );
    assert_eq!(page(2, 2), "c.rs\n1 of 3 files (offset=2)");
    assert_eq!(page(0, 0), "a.rs\nb.rs\nc.rs\n3 files");
    assert_eq!(page(5, 2), "No output: offset 5 is past end (3 file(s))");
    assert_eq!(
        glob_tool::plan_search(glob_input("*"), true).err(),
        Some("glob cancelled".to_string())
    );
}

#[test]
fn nothing_found_needs_no_page() {
    let files = Files::default().with("a.rs", b"");
    let far = |text: &str| {
        glob(
            &files,
            GlobInput {
                head_limit: Some(2),
                offset: Some(usize::MAX),
                ..glob_input(text)
            },
        )
    };
    assert_eq!(far("*.zig"), "No matches");
}

#[test]
fn a_search_for_files_starts_at_a_file_or_a_directory() {
    let start = |path: &str, is_dir: bool, rules: &str| {
        let plan = glob_tool::plan_search(glob_input("*.rs"), false).expect("a plan");
        let mut search = plan.search;
        let mut walk = Walk::new(String::new(), false);
        let mut numbers = Vec::new();
        if let Some(loaded) = load_rules(".", ".gitignore", rules).expect("valid rules") {
            numbers.push(walk.add_rules(loaded));
        }
        let entry = DirEntry {
            path: path.to_string(),
            is_dir,
            byte_len: 0,
            modified: Modified::Unknown,
        };
        let begun =
            glob_tool::begin_search(&mut walk, entry, numbers, &plan.filter, &mut search);
        (begun, walk.pending.len(), search.searched_files, search.matches.len())
    };
    let (begun, pending, searched, matched) = start("/src", true, "");
    assert!(matches!(begun, GlobStart::Directory));
    assert_eq!((pending, searched, matched), (1, 0, 0));
    let (begun, pending, searched, matched) = start("/gen", true, "gen/\n");
    assert!(matches!(begun, GlobStart::Nothing));
    assert_eq!((pending, searched, matched), (0, 0, 0));
    let (begun, pending, searched, matched) = start("/a.rs", false, "");
    let GlobStart::File { seen, done } = begun else {
        panic!("a file");
    };
    assert_eq!((pending, searched, matched), (0, 1, 1));
    assert_eq!(seen.current_path.as_deref(), Some("a.rs"));
    assert_eq!(done.current_path, None);
    assert_eq!((done.searched_files, done.matched_files), (1, 1));
    let (begun, _, searched, matched) = start("/a.md", false, "");
    assert!(matches!(begun, GlobStart::File { .. }));
    assert_eq!((searched, matched), (1, 0));
}

#[test]
fn a_file_with_a_zero_byte_is_not_searched() {
    let files = Files::default()
        .with("a.txt", b"needle\n")
        .with("b.bin", b"needle\n\0needle\n");
    assert_eq!(grep(&files, pattern("needle")), "a.txt");
}

#[test]
fn rules_are_read_from_bytes_that_are_no_text() {
    let loaded = load_rules_of(".", ".gitignore", &b"\xff.log\n*.tmp\n".to_vec())
        .expect("valid rules")
        .expect("rules");
    let mut walk = Walk::new(String::new(), false);
    let rules = vec![walk.add_rules(loaded)];
    assert!(!walk.starts_at(&rules, "/a.tmp", false));
    assert!(!walk.starts_at(&rules, "/\u{fffd}.log", false));
    assert!(walk.starts_at(&rules, "/a.log", false));
    assert!(load_rules_of(".", ".gitignore", &b"\xff\n{\n".to_vec())
        .err()
        .expect("a failure")
        .starts_with("invalid .gitignore rule in .gitignore:2: "));
}

#[test]
fn deeper_rules_win() {
    let files = Files::default()
        .with(".gitignore", b"*.log\n")
        .with("keep/.gitignore", b"!a.log\n")
        .with("keep/a.log", b"needle\n")
        .with("keep/b.log", b"needle\n")
        .with("c.log", b"needle\n");
    assert_eq!(grep(&files, pattern("needle")), "keep/a.log");
}

#[test]
fn bad_rules_are_refused() {
    assert!(load_rules(".", ".gitignore", "ok\n{\n")
        .err()
        .expect("a failure")
        .starts_with("invalid .gitignore rule in .gitignore:2: "));
    assert!(load_rules(".", ".gitignore", "# nothing\n\n")
        .ok()
        .expect("rules")
        .is_none());
}

fn read_input(path: &str) -> ReadInput {
    ReadInput {
        path: path.to_string(),
        offset: None,
        limit: None,
    }
}

fn read(input: ReadInput, bytes: &[u8]) -> Result<ReadOutput, String> {
    ReadTool::new().read(&input, bytes.to_vec())
}

fn read_text(input: ReadInput, bytes: &[u8]) -> String {
    match read(input, bytes) {
        Ok(ReadOutput::Text(text)) => text,
        _ => panic!("expected text output"),
    }
}

#[test]
fn reads_text_file_with_line_numbers() {
    assert_eq!(
        read_text(read_input("hello.txt"), b"hello\nworld\n"),
        "hello.txt\n1: hello\n2: world"
    );
}

#[test]
fn reads_text_file_with_offset_and_limit() {
    let input = ReadInput {
        offset: Some(2),
        limit: Some(2),
        ..read_input("hello.txt")
    };

    assert_eq!(
        read_text(input, b"one\ntwo\nthree\nfour\n"),
        "hello.txt\n2: two\n3: three\n[truncated: reached line limit; continue with offset=4]"
    );
}

#[test]
fn aligns_line_number_gutter_to_widest_line_number() {
    let mut text = String::new();
    for index in 1..=12 {
        text.push_str(&format!("line {index}\n"));
    }

    assert_eq!(
        read_text(read_input("numbered.txt"), text.as_bytes()),
        "numbered.txt\n 1: line 1\n 2: line 2\n 3: line 3\n 4: line 4\n 5: line 5\n 6: line 6\n 7: line 7\n 8: line 8\n 9: line 9\n10: line 10\n11: line 11\n12: line 12"
    );
}

#[test]
fn truncates_after_default_line_limit() {
    let mut text = String::new();
    for index in 1..=2001 {
        text.push_str(&format!("line {index}\n"));
    }

    let text = read_text(read_input("large.txt"), text.as_bytes());

    assert!(text.starts_with("large.txt\n"));
    assert!(text.contains("   1: line 1"));
    assert!(text.contains("2000: line 2000"));
    assert!(text.ends_with("[truncated: reached line limit; continue with offset=2001]"));
}

#[test]
fn respects_configured_line_limits() {
    let mut tool = ReadTool::with_config(ReadToolConfig {
        max_line_limit: 1,
        line_numbers: true,
    });
    let input = ReadInput {
        limit: Some(3),
        ..read_input("hello.txt")
    };

    let Ok(ReadOutput::Text(text)) = tool.read(&input, b"a\nb\nc\n".to_vec()) else {
        panic!("expected text output");
    };

    assert_eq!(
        text,
        "hello.txt\n1: a\n[truncated: reached line limit; continue with offset=2]"
    );
}

#[test]
fn reads_image_file() {
    let output = read(read_input("image.png"), &[137, 80, 78, 71]).expect("an image");

    let content = output.into_content();
    let Some(InputContent::Image(ImageContent::Data { mime_type, data })) = content.first() else {
        panic!("expected image data");
    };
    assert_eq!(mime_type, "image/png");
    assert_eq!(data.as_slice(), &[137, 80, 78, 71]);
}

#[test]
fn rejects_non_utf8_text_file() {
    assert_eq!(
        read(read_input("data.bin"), &[0xff, 0xfe, 0xfd]),
        Err("data.bin is not valid UTF-8".to_string())
    );
}

#[test]
fn read_rejects_directories() {
    assert_eq!(
        check_is_file("src", true),
        Err("cannot read directory: src".to_string())
    );
    assert_eq!(check_is_file("src", false), Ok(()));
}

#[test]
fn dedups_unchanged_file_content() {
    let mut tool = ReadTool::new();
    let input = read_input("notes.txt");
    let bytes = b"hello\nworld\n".to_vec();

    // First read: full content
    let Ok(ReadOutput::Text(first)) = tool.read(&input, bytes.clone()) else {
        panic!("expected text output");
    };
    assert!(first.contains("hello"));
    assert!(first.contains("world"));

    // Second read: same content → placeholder
    let Ok(ReadOutput::Text(second)) = tool.read(&input, bytes.clone()) else {
        panic!("expected text output");
    };
    assert_eq!(second, "notes.txt — unchanged since last read");

    tool.invalidate("notes.txt");
    assert_eq!(
        tool.read(&input, bytes.clone()),
        Ok(ReadOutput::Text(first.clone()))
    );
    tool.clear_cache();
    assert_eq!(tool.read(&input, bytes), Ok(ReadOutput::Text(first)));
    assert_eq!(
        tool.read(&input, b"new".to_vec()),
        Ok(ReadOutput::Text("notes.txt\n1: new".to_string()))
    );
}

#[test]
fn pages_that_cannot_be_read_say_why() {
    let at = |offset: usize, limit: usize| ReadInput {
        offset: Some(offset),
        limit: Some(limit),
        ..read_input("a.txt")
    };
    assert_eq!(
        read(at(0, 1), b"x"),
        Err("offset must be greater than or equal to 1".to_string())
    );
    assert_eq!(
        read(at(1, 0), b"x"),
        Err("limit must be greater than or equal to 1".to_string())
    );
    assert_eq!(
        read_text(at(5, 1), b"x\ny\n"),
        "a.txt — no content: offset 5 is past end (2 lines)"
    );
    assert_eq!(
        read_text(read_input("a.txt"), b""),
        "a.txt — no content: file is empty"
    );
}

#[test]
fn images_are_known_by_their_extensions() {
    let expect = [
        ("a.PNG", Some("image/png")),
        ("dir.x/a.jpeg", Some("image/jpeg")),
        ("a.JPG/", Some("image/jpeg")),
        ("a.gif/.", Some("image/gif")),
        ("b.tar.webp", Some("image/webp")),
        (".png", None),
        ("png", None),
        ("a.", None),
        ("a.png/..", None),
        ("", None),
    ];
    for (path, kind) in expect {
        assert_eq!(image_mime_type(path).as_deref(), kind, "{path}");
        let extension = std::path::Path::new(path)
            .extension()
            .map(|extension| extension.to_string_lossy().into_owned());
        assert_eq!(
            coox::workspace::read_tool::extension(path),
            extension,
            "{path}"
        );
    }
    assert_eq!(digit_count(0), 1);
    assert_eq!(digit_count(10), 2);
    assert_eq!(digit_count(99_999), 5);
}

#[test]
fn the_description_names_the_limit() {
    assert_eq!(
        ReadTool::new().description,
        "Read a text or image file. Supports 1-based offset/limit pagination (max 2000 lines per call); output is line-numbered."
    );
}

fn stream(chunks: &[&[u8]]) -> StreamEnd {
    let mut output = TailOutput::default();
    for chunk in chunks {
        output.push(&chunk.to_vec());
    }
    StreamEnd::Read(output.finish())
}

#[test]
fn captures_stderr_and_nonzero_exit_code() {
    let text = report_command(
        CommandEnd::Exited(Some(7)),
        5,
        stream(&[b"out"]),
        stream(&[b"err"]),
    )
    .expect("an exit");

    assert!(text.contains("exit code: 7"));
    assert!(text.contains("stdout:\nout"));
    assert!(text.contains("stderr:\nerr"));
    assert_eq!(text, "exit code: 7\n\nstdout:\nout\nstderr:\nerr");
}

#[test]
fn rejects_empty_command() {
    let input = BashInput {
        command: "   ".to_string(),
        timeout: 5,
    };
    assert!(check_command(&input, false)
        .expect_err("refused")
        .contains("command cannot be empty"));
    let now = BashInput {
        command: " ls ".to_string(),
        timeout: 0,
    };
    assert_eq!(
        check_command(&now, false),
        Err("timeout must be greater than 0 seconds".to_string())
    );
    assert_eq!(
        check_command(&now, true),
        Err("bash cancelled".to_string())
    );
    let good = BashInput {
        command: " ls -l\n".to_string(),
        timeout: 1,
    };
    assert_eq!(check_command(&good, false), Ok("ls -l".to_string()));
    assert_eq!(BashTool::new("/work".to_string()).cwd(), "/work");
}

#[test]
fn times_out_long_running_command() {
    let text = report_command(CommandEnd::TimedOut, 1, stream(&[]), stream(&[]))
        .expect_err("timed out");

    assert!(text.contains("timed out after 1s"));
    assert_eq!(
        text,
        "bash command timed out after 1s\nexit code: <terminated>\nstdout: <empty>\nstderr: <empty>"
    );
}

#[test]
fn tail_truncates_large_stdout() {
    let lines = (1..=2105)
        .map(|index| format!("line-{index}\n"))
        .collect::<Vec<_>>();
    let chunks = lines.iter().map(|line| line.as_bytes()).collect::<Vec<_>>();
    let text = report_command(CommandEnd::Exited(Some(0)), 5, stream(&chunks), stream(&[]))
        .expect("an exit");

    assert!(text.contains("stdout:\nline-106\n"));
    assert!(text.contains("line-2105\n"));
    assert!(!text.contains("line-105\n"));
    assert!(text.contains("[stdout truncated: showing tail"));
    assert!(text.ends_with("2000 of 2105 lines]\n"));
}

#[test]
fn only_the_end_of_a_long_stream_is_kept() {
    let mut output = TailOutput::default();
    output.push(&vec![b'a'; MAX_OUTPUT_BYTES]);
    output.push(&b"bc".to_vec());
    let told = output.finish();
    assert!(told.truncated);
    assert_eq!(told.total_bytes, MAX_OUTPUT_BYTES + 2);
    assert_eq!(told.content.len(), MAX_OUTPUT_BYTES);
    assert!(told.content.ends_with("abc"));
    assert_eq!((told.total_lines, told.visible_lines), (1, 1));
}

#[test]
fn ascii_streams_are_told_as_they_are_or_by_their_last_lines() {
    let told = |bytes: &[u8]| {
        let mut output = TailOutput::default();
        output.push(&bytes.to_vec());
        output.finish()
    };
    let short = told(b"a\r\n\tb\n");
    assert_eq!(short.content, "a\r\n\tb\n");
    assert_eq!((short.total_bytes, short.visible_lines), (6, 2));
    assert!(!short.truncated);

    let full = told(&b"ab\n".repeat(MAX_OUTPUT_LINES));
    assert_eq!(full.content, "ab\n".repeat(MAX_OUTPUT_LINES));
    assert!(!full.truncated);

    let many = told(&b"ab\n".repeat(MAX_OUTPUT_LINES + 7));
    assert_eq!(many.content, "ab\n".repeat(MAX_OUTPUT_LINES));
    assert_eq!(many.visible_lines, MAX_OUTPUT_LINES);
    assert!(many.truncated);

    let long = told(&b"0123456789".repeat(MAX_OUTPUT_BYTES / 5));
    assert_eq!(long.content, "0123456789".repeat(MAX_OUTPUT_BYTES / 10));
    assert!(long.truncated);
}

#[test]
fn streams_are_joined_whatever_their_chunks() {
    let whole = "é\nb\r\nc".as_bytes();
    let text = |chunks: &[&[u8]]| {
        report_command(CommandEnd::Cancelled, 9, stream(chunks), stream(&[]))
            .expect_err("cancelled")
    };
    assert_eq!(text(&[whole]), text(&[&whole[..1], &whole[1..4], &whole[4..]]));
    assert!(text(&[whole]).starts_with("bash cancelled\nexit code: <terminated>\n"));
}

#[test]
fn streams_that_cannot_be_read_say_why() {
    let text = report_command(
        CommandEnd::Exited(Some(-1)),
        9,
        StreamEnd::ReadFailed("broken".to_string()),
        StreamEnd::JoinFailed("gone".to_string()),
    )
    .expect("an exit");
    assert_eq!(
        text,
        "exit code: -1\n\nstdout:\n<failed to read stdout: broken>\nstderr:\n<failed to join stderr reader: gone>"
    );
    assert_eq!(exit_status_label(Some(i32::MIN)), "-2147483648");
    assert_eq!(tail_lines("a\nb\nc\n", 2), "b\nc\n");
    assert_eq!(tail_lines("a\nb", 5), "a\nb");
}

fn names(set: WorkspaceToolSet) -> Vec<&'static str> {
    workspace_tools(set).iter().map(|tool| tool.name()).collect()
}

#[test]
fn exposes_standard_workspace_tools() {
    assert_eq!(
        names(WorkspaceToolSet::Standard),
        ["read", "write", "edit", "grep", "glob", "ls", "bash"]
    );
}

#[test]
fn read_only_router_exposes_only_read_only_tools() {
    assert_eq!(
        names(WorkspaceToolSet::ReadOnly),
        ["read", "grep", "glob", "ls"]
    );
}

fn tool_text(result: &ToolResult) -> &str {
    match result.content.as_slice() {
        [InputContent::Text(text)] => text,
        _ => panic!("expected one text"),
    }
}

#[test]
fn what_a_tool_gave_is_a_success() {
    assert_eq!(
        offered_tool(WorkspaceToolSet::ReadOnly, "grep"),
        Ok(WorkspaceTool::Grep)
    );
    let given = Ok(vec![InputContent::Text("found".to_string())]);
    let result = call_result("call_2".to_string(), "grep".to_string(), given);
    assert_eq!(result.status, ToolResultStatus::Success);
    assert_eq!(tool_text(&result), "found");
}

#[test]
fn a_cancelled_walk_stops_before_its_next_directory() {
    let mut walk = Walk::new(String::new(), false);
    assert!(matches!(grep_tool::next_directory(&mut walk, true), Ok(None)));
    assert!(matches!(glob_tool::next_directory(&mut walk, true), Ok(None)));
    for path in ["/a", "/b"] {
        walk.pending.push_back(PendingDir {
            path: path.to_string(),
            rules: Vec::new(),
        });
    }
    assert_eq!(
        grep_tool::next_directory(&mut walk, true).err().as_deref(),
        Some("grep cancelled")
    );
    assert_eq!(
        glob_tool::next_directory(&mut walk, true).err().as_deref(),
        Some("glob cancelled")
    );
    let next = |found: Result<Option<PendingDir>, String>| found.ok().flatten().map(|dir| dir.path);
    assert_eq!(next(grep_tool::next_directory(&mut walk, false)).as_deref(), Some("/b"));
    assert_eq!(next(glob_tool::next_directory(&mut walk, false)).as_deref(), Some("/a"));
    assert_eq!(walk.pending.len(), 0);
}

#[test]
fn read_only_router_does_not_execute_write_edit_or_bash() {
    for name in ["write", "edit", "bash"] {
        let refused = offered_tool(WorkspaceToolSet::ReadOnly, name).map(|_| Vec::new());
        let result = call_result("call_1".to_string(), name.to_string(), refused);
        assert_eq!(result.status, ToolResultStatus::Error);
        assert!(tool_text(&result).contains("unknown tool"));
        assert_eq!(tool_text(&result), format!("unknown tool: {name}"));
        assert_eq!((result.call_id.as_str(), result.name.as_str()), ("call_1", name));
        assert_eq!(find_tool(WorkspaceToolSet::ReadOnly, name), None);
        assert!(find_tool(WorkspaceToolSet::Standard, name).is_some());
    }
}

#[test]
fn router_root_can_be_workspace_cwd_inside_larger_filesystem() {
    let files = Files::default()
        .with("workspace/src/main.rs", b"workspace\n")
        .with("outside.txt", b"outside\n");
    let text = |path: &str| {
        let resolved = files.resolve("/workspace", path);
        let bytes = &files.file(&resolved).expect("a file").1;
        read_text(read_input(path), bytes)
    };

    assert_eq!(text("src/main.rs"), "src/main.rs\n1: workspace");
    assert_eq!(text("/outside.txt"), "/outside.txt\n1: outside");
}

#[test]
fn workspace_context_reports_current_workspace_inside_larger_filesystem() {
    let context = workspace_context("/workspace", "");

    assert_eq!(context.current_workspace, "/workspace");
    assert_eq!(context.filesystem_root, "/");
}

#[test]
fn reports_tool_execution_policies() {
    assert_eq!(
        tool_policy(WorkspaceTool::Read),
        Some(ToolExecutionPolicy::Parallel)
    );
    assert_eq!(
        tool_policy(WorkspaceTool::Write),
        Some(ToolExecutionPolicy::Serial)
    );
    assert_eq!(
        tool_policy(WorkspaceTool::Bash),
        Some(ToolExecutionPolicy::Serial)
    );
}

#[test]
fn rejects_paths_that_escape_root() {
    let root: AsyncVfsPath = AsyncMemoryFS::new().into();
    let runtime = tokio::runtime::Builder::new_current_thread()
        .build()
        .expect("a runtime");

    let path = resolve_path(&root, "../secret.txt").expect("a place");
    let error = runtime.block_on(path.metadata()).expect_err("no file");

    assert!(error.to_string().contains("Could not get metadata"));
}

#[test]
fn paths_resolve_from_the_workspace_or_from_the_root() {
    let fs_root: AsyncVfsPath = AsyncMemoryFS::new().into();
    let workspace = resolve_path(&fs_root, "home/project").expect("a place");
    let reached = |path: &str| {
        resolve_path(&workspace, path).map(|place| place.as_str().to_string())
    };

    assert_eq!(reached("").as_deref(), Ok("/home/project"));
    assert_eq!(reached("src/lib.rs").as_deref(), Ok("/home/project/src/lib.rs"));
    assert_eq!(reached("../other/./a").as_deref(), Ok("/home/other/a"));
    assert_eq!(reached("/etc/hosts").as_deref(), Ok("/etc/hosts"));
    assert_eq!(reached("/").as_deref(), Ok(""));
    assert_eq!(
        resolve_path(&fs_root, "/etc/hosts").map(|place| place.as_str().to_string()).as_deref(),
        Ok("/etc/hosts")
    );
    assert_eq!(reached("a//b/../c/.").as_deref(), Ok("/home/project/a/c"));
    assert_eq!(reached("../../../../x").as_deref(), Ok("/x"));
    assert_eq!(
        reached("src/").err().as_deref(),
        Some("An error occurred for 'src/': The path is invalid")
    );
    assert!(reached("//").is_err());
}
