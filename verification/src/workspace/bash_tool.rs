//! What is run in a shell, and what is told of it.

use crate::chars;
use crate::workspace::bytes;
use crate::workspace::bytes::lossy_text;
use std::collections::VecDeque;
use vstd::prelude::*;
use vstd::utf8::*;

verus! {

pub const BASH_TOOL_NAME: &'static str = "bash";

pub const BASH_TOOL_DESCRIPTION: &'static str =
    "Run a bash command in the workspace root. Prefer dedicated tools for file reads, searches, edits, and other structured operations; use bash only when a specialized tool is not available or when build, test, inspection, or shell behavior is required. Do not use this for long-running or persistent background tasks that need later control; use a dedicated background task/session tool when available. If a command intentionally starts a short-lived background helper, detach it explicitly, redirect output, and print the PID or status needed by the user. The timeout is in seconds. Output is tail-truncated to 50KB or 2000 lines per stream.";

/// How many bytes of a stream are kept.
pub const MAX_OUTPUT_BYTES: usize = 51200;

/// How many lines of a stream are told.
pub const MAX_OUTPUT_LINES: usize = 2000;

/// Runs commands in a directory.
#[derive(Debug)]
pub struct BashTool {
    pub cwd: String,
}

impl BashTool {
    pub fn new(cwd: String) -> (tool: BashTool)
        ensures
            tool.cwd == cwd,
    {
        BashTool { cwd }
    }

    pub fn cwd(&self) -> (cwd: &str)
        ensures
            cwd@ == self.cwd@,
    {
        self.cwd.as_str()
    }
}

/// A command, and for how many seconds it may run.
#[derive(Debug, PartialEq, Eq)]
pub struct BashInput {
    pub command: String,
    pub timeout: u64,
}

/// Why a command is not run, if it is not.
pub open spec fn refusal(input: BashInput, cancelled: bool) -> Option<Seq<char>> {
    if cancelled {
        Some("bash cancelled"@)
    } else if chars::trimmed(input.command@).len() == 0 {
        Some("command cannot be empty"@)
    } else if input.timeout == 0 {
        Some("timeout must be greater than 0 seconds"@)
    } else {
        None
    }
}

/// The command to run, or why it is not run.
pub fn check_command(input: &BashInput, cancelled: bool) -> (checked: Result<String, String>)
    ensures
        match checked {
            Ok(command) => {
                &&& refusal(*input, cancelled) is None
                &&& command@ == chars::trimmed(input.command@)
            },
            Err(message) => refusal(*input, cancelled) == Some(message@),
        },
{
    if cancelled {
        return Err("bash cancelled".to_owned());
    }
    let characters = chars::chars_of(input.command.as_str());
    let trimmed = chars::trim_chars(&characters);
    if trimmed.len() == 0 {
        return Err("command cannot be empty".to_owned());
    }
    if input.timeout == 0 {
        return Err("timeout must be greater than 0 seconds".to_owned());
    }
    let command = chars::text_of(trimmed.as_slice(), 0, trimmed.len());
    assert(command@ =~= trimmed@);
    Ok(command)
}

/// How many line breaks there are in bytes.
pub open spec fn newlines(bytes: Seq<u8>) -> int
    decreases bytes.len(),
{
    if bytes.len() == 0 {
        0
    } else {
        newlines(bytes.drop_last()) + if bytes.last() == 10 {
            1int
        } else {
            0
        }
    }
}

proof fn lemma_newlines_push(bytes: Seq<u8>, byte: u8)
    ensures
        newlines(bytes.push(byte)) == newlines(bytes) + if byte == 10 {
            1int
        } else {
            0
        },
{
    assert(bytes.push(byte).drop_last() =~= bytes);
}

proof fn lemma_newlines_bound(bytes: Seq<u8>)
    ensures
        0 <= newlines(bytes) <= bytes.len(),
    decreases bytes.len(),
{
    if bytes.len() > 0 {
        lemma_newlines_bound(bytes.drop_last());
    }
}

/// The end of bytes, at most as many as are kept.
pub open spec fn tail_of(bytes: Seq<u8>) -> Seq<u8> {
    if bytes.len() <= MAX_OUTPUT_BYTES {
        bytes
    } else {
        bytes.skip(bytes.len() - MAX_OUTPUT_BYTES)
    }
}

/// What a stream gave: its end, and what was counted of all of it.
pub struct TailOutput {
    tail: VecDeque<u8>,
    total_bytes: usize,
    total_newlines: usize,
    ends_in_newline: bool,
    all: Ghost<Seq<u8>>,
}

impl View for TailOutput {
    type V = Seq<u8>;

    /// All that the stream gave.
    closed spec fn view(&self) -> Seq<u8> {
        self.all@
    }
}

/// What is told of a stream.
#[derive(Debug)]
pub struct TruncatedOutput {
    pub content: String,
    pub total_bytes: usize,
    pub total_lines: usize,
    pub visible_lines: usize,
    pub truncated: bool,
}

/// What is told of a stream, as plain values.
pub struct TruncatedView {
    pub content: Seq<char>,
    pub total_bytes: int,
    pub total_lines: int,
    pub visible_lines: int,
    pub truncated: bool,
}

impl View for TruncatedOutput {
    type V = TruncatedView;

    open spec fn view(&self) -> TruncatedView {
        TruncatedView {
            content: self.content@,
            total_bytes: self.total_bytes as int,
            total_lines: self.total_lines as int,
            visible_lines: self.visible_lines as int,
            truncated: self.truncated,
        }
    }
}

/// How many lines there are in all that a stream gave; the last one needs no line break.
pub open spec fn line_total(bytes: Seq<u8>) -> int {
    if bytes.len() == 0 {
        0
    } else {
        newlines(bytes) + if bytes.last() == 10 {
            0int
        } else {
            1
        }
    }
}

pub open spec fn ends_line(text: Seq<char>) -> bool {
    text.len() > 0 && text.last() == '\n'
}

/// The last lines of a text, at most as many as given.
pub open spec fn last_lines(text: Seq<char>, max_lines: nat) -> Seq<char> {
    let lines = chars::lines(text);
    let kept = if lines.len() <= max_lines {
        lines
    } else {
        lines.skip(lines.len() - max_lines)
    };
    if ends_line(text) {
        chars::join(kept, "\n"@) + "\n"@
    } else {
        chars::join(kept, "\n"@)
    }
}

/// What is told of all that a stream gave, where its end reads as the given text.
pub open spec fn told_as(bytes: Seq<u8>, text: Seq<char>) -> TruncatedView {
    let too_long = chars::lines(text).len() > MAX_OUTPUT_LINES;
    let content = if too_long {
        last_lines(text, MAX_OUTPUT_LINES as nat)
    } else {
        text
    };
    TruncatedView {
        content,
        total_bytes: bytes.len() as int,
        total_lines: line_total(bytes),
        visible_lines: chars::lines(content).len() as int,
        truncated: bytes.len() > MAX_OUTPUT_BYTES || too_long,
    }
}

/// What is told of all that a stream gave.
pub open spec fn truncated(bytes: Seq<u8>) -> TruncatedView {
    told_as(bytes, bytes::lossy(tail_of(bytes)))
}

impl Default for TailOutput {
    fn default() -> (output: TailOutput)
        ensures
            output@ == Seq::<u8>::empty(),
    {
        TailOutput {
            tail: VecDeque::new(),
            total_bytes: 0,
            total_newlines: 0,
            ends_in_newline: false,
            all: Ghost(Seq::empty()),
        }
    }
}

impl TailOutput {
    #[verifier::type_invariant]
    closed spec fn inv(&self) -> bool {
        &&& self.tail@ == tail_of(self.all@)
        &&& self.total_bytes == self.all@.len()
        &&& self.total_newlines == newlines(self.all@)
        &&& self.ends_in_newline == (self.all@.len() > 0 && self.all@.last() == 10)
    }

    /// Takes in what the stream gave next.
    pub fn push(&mut self, bytes: &Vec<u8>)
        requires
            old(self)@.len() + bytes@.len() <= usize::MAX,
        ensures
            final(self)@ == old(self)@ + bytes@,
    {
        proof {
            use_type_invariant(&*self);
        }
        let ghost before = self.all@;
        let mut tail: VecDeque<u8> = VecDeque::new();
        let mut whole = TailOutput {
            tail,
            total_bytes: 0,
            total_newlines: 0,
            ends_in_newline: false,
            all: Ghost(Seq::empty()),
        };
        std::mem::swap(&mut whole, self);
        tail = whole.tail;
        let mut newline_count: usize = whole.total_newlines;
        let mut ends_in_newline = whole.ends_in_newline;
        let total_bytes: usize = whole.total_bytes;
        let mut i: usize = 0;
        let ghost mut all = before;
        assert(before + bytes@.take(0) =~= before);
        while i < bytes.len()
            invariant
                i <= bytes@.len(),
                before.len() + bytes@.len() <= usize::MAX,
                all == before + bytes@.take(i as int),
                tail@ == tail_of(all),
                newline_count == newlines(all),
                ends_in_newline == (all.len() > 0 && all.last() == 10),
            decreases bytes@.len() - i,
        {
            let byte: u8 = bytes[i];
            proof {
                lemma_newlines_push(all, byte);
                lemma_newlines_bound(all.push(byte));
                assert(before + bytes@.take(i + 1) =~= all.push(byte));
            }
            if byte == 10 {
                newline_count = newline_count + 1;
                ends_in_newline = true;
            } else {
                ends_in_newline = false;
            }
            let ghost tail_before = tail@;
            tail.push_back(byte);
            if tail.len() > MAX_OUTPUT_BYTES {
                tail.pop_front();
            }
            proof {
                all = all.push(byte);
                assert(tail@ =~= tail_of(all));
            }
            i = i + 1;
        }
        assert(all =~= before + bytes@);
        *self = TailOutput {
            tail,
            total_bytes: total_bytes + bytes.len(),
            total_newlines: newline_count,
            ends_in_newline,
            all: Ghost(all),
        };
    }

    /// What is told of all that the stream gave.
    pub fn finish(self) -> (output: TruncatedOutput)
        ensures
            output@ == truncated(self@),
            valid_utf8(tail_of(self@)) ==> output@ == told_as(
                self@,
                decode_utf8(tail_of(self@)),
            ),
            bytes::is_ascii(self@) ==> output@ == told_as(
                self@,
                bytes::ascii_text(tail_of(self@)),
            ),
    {
        proof {
            use_type_invariant(&self);
            if bytes::is_ascii(self.all@) {
                bytes::lemma_ascii(tail_of(self.all@));
            }
            lemma_newlines_bound(self.all@);
            if self.all@.len() > 0 && self.all@.last() != 10 {
                lemma_newlines_bound(self.all@.drop_last());
            }
        }
        let total_lines: usize = if self.total_bytes == 0 {
            0
        } else if self.ends_in_newline {
            self.total_newlines
        } else {
            self.total_newlines + 1
        };
        let kept = bytes_of(&self.tail);
        let text = lossy_text(&kept);
        let too_long = count_lines(text.as_str()) > MAX_OUTPUT_LINES;
        let content = if too_long {
            tail_lines(text.as_str(), MAX_OUTPUT_LINES)
        } else {
            text
        };
        TruncatedOutput {
            visible_lines: count_lines(content.as_str()),
            content,
            total_bytes: self.total_bytes,
            total_lines,
            truncated: self.total_bytes > kept.len() || too_long,
        }
    }
}

fn bytes_of(tail: &VecDeque<u8>) -> (bytes: Vec<u8>)
    ensures
        bytes@ == tail@,
{
    let mut bytes: Vec<u8> = Vec::new();
    let mut i: usize = 0;
    while i < tail.len()
        invariant
            i <= tail@.len(),
            bytes@ == tail@.take(i as int),
        decreases tail@.len() - i,
    {
        bytes.push(tail[i]);
        i = i + 1;
        assert(bytes@ =~= tail@.take(i as int));
    }
    assert(bytes@ =~= tail@);
    bytes
}

pub fn count_lines(text: &str) -> (count: usize)
    ensures
        count == chars::lines(text@).len(),
{
    let lines = chars::split_lines(text);
    assert(chars::texts(lines@).len() == lines@.len());
    lines.len()
}

fn ends_in_newline(text: &str) -> (ends: bool)
    ensures
        ends == ends_line(text@),
{
    let characters = chars::chars_of(text);
    characters.len() > 0 && characters[characters.len() - 1] == '\n'
}

pub fn tail_lines(text: &str, max_lines: usize) -> (tail: String)
    ensures
        tail@ == last_lines(text@, max_lines as nat),
{
    let lines = chars::split_lines(text);
    let ghost all = chars::lines(text@);
    assert(chars::texts(lines@).len() == lines@.len());
    let skip: usize = if lines.len() <= max_lines {
        0
    } else {
        lines.len() - max_lines
    };
    let mut kept: Vec<String> = Vec::new();
    let mut i: usize = skip;
    while i < lines.len()
        invariant
            skip <= i <= lines@.len(),
            all == chars::texts(lines@),
            kept@.len() == i - skip,
            forall|j: int| 0 <= j < i - skip ==> #[trigger] kept@[j]@ == lines@[skip + j]@,
        decreases lines@.len() - i,
    {
        kept.push(lines[i].clone());
        i = i + 1;
    }
    assert(chars::texts(kept@) =~= all.skip(skip as int));
    assert(all.skip(0) =~= all);
    let mut tail = chars::join_texts(&kept, "\n");
    if ends_in_newline(text) {
        tail.append("\n");
    }
    tail
}

impl TruncatedOutput {
    /// A text that is told as it is.
    pub fn from_text(content: String) -> (output: TruncatedOutput)
        ensures
            output@ == untruncated(content@),
    {
        let total_bytes: usize = chars::str_len(content.as_str());
        let total_lines: usize = count_lines(content.as_str());
        TruncatedOutput {
            content,
            total_bytes,
            total_lines,
            visible_lines: total_lines,
            truncated: false,
        }
    }

    pub fn is_empty(&self) -> (empty: bool)
        ensures
            empty == (self@.content.len() == 0),
    {
        self.content.as_str().is_empty()
    }
}

/// All that is told of a command.
#[derive(Debug)]
pub struct BashOutput {
    /// The code that the command ended with, if it ended by itself.
    pub exit_code: Option<i32>,
    pub stdout: TruncatedOutput,
    pub stderr: TruncatedOutput,
}

/// All that is told of a command, as plain values.
pub struct BashView {
    pub exit_code: Option<i32>,
    pub stdout: TruncatedView,
    pub stderr: TruncatedView,
}

impl View for BashOutput {
    type V = BashView;

    open spec fn view(&self) -> BashView {
        BashView {
            exit_code: self.exit_code,
            stdout: self.stdout@,
            stderr: self.stderr@,
        }
    }
}

/// A number in decimal, with its sign.
pub open spec fn signed_decimal(n: int) -> Seq<char> {
    if n < 0 {
        "-"@ + chars::decimal((-n) as nat)
    } else {
        chars::decimal(n as nat)
    }
}

pub open spec fn exit_label(exit_code: Option<i32>) -> Seq<char> {
    match exit_code {
        Some(code) => signed_decimal(code as int),
        None => "<terminated>"@,
    }
}

pub fn exit_status_label(exit_code: Option<i32>) -> (label: String)
    ensures
        label@ == exit_label(exit_code),
{
    match exit_code {
        Some(code) => {
            if code < 0 {
                let size: i64 = -(code as i64);
                let mut label: String = "-".to_owned();
                label.append(chars::format_decimal(size as u64).as_str());
                label
            } else {
                chars::format_decimal(code as u64)
            }
        },
        None => "<terminated>".to_owned(),
    }
}

/// A text with a note on what is not told of a stream.
pub open spec fn with_note(text: Seq<char>, label: Seq<char>, output: TruncatedView) -> Seq<char> {
    if !output.truncated {
        text
    } else {
        let ended = if ends_line(text) {
            text
        } else {
            text + "\n"@
        };
        ended + "["@ + label + " truncated: showing tail, "@ + chars::decimal(
            chars::byte_len(output.content),
        ) + " of "@ + chars::decimal(output.total_bytes as nat) + " bytes, "@ + chars::decimal(
            output.visible_lines as nat,
        ) + " of "@ + chars::decimal(output.total_lines as nat) + " lines]\n"@
    }
}

/// A text with what is told of a stream, if it gave anything.
pub open spec fn with_stream(
    text: Seq<char>,
    label: Seq<char>,
    output: TruncatedView,
) -> Seq<char> {
    if output.content.len() == 0 {
        text
    } else {
        with_note(text + "\n"@ + label + ":\n"@ + output.content, label, output)
    }
}

/// All that is told of a command as text.
pub open spec fn output_text(output: BashView) -> Seq<char> {
    let head = "exit code: "@ + exit_label(output.exit_code) + "\n"@;
    if output.stdout.content.len() == 0 && output.stderr.content.len() == 0 {
        head + "stdout: <empty>\nstderr: <empty>"@
    } else {
        with_stream(with_stream(head, "stdout"@, output.stdout), "stderr"@, output.stderr)
    }
}

fn append_truncation_note(text: &mut String, label: &str, output: &TruncatedOutput)
    ensures
        final(text)@ == with_note(old(text)@, label@, output@),
{
    if !output.truncated {
        return;
    }
    if !ends_in_newline(text.as_str()) {
        text.append("\n");
    }
    text.append("[");
    text.append(label);
    text.append(" truncated: showing tail, ");
    text.append(chars::format_decimal(chars::str_len(output.content.as_str()) as u64).as_str());
    text.append(" of ");
    text.append(chars::format_decimal(output.total_bytes as u64).as_str());
    text.append(" bytes, ");
    text.append(chars::format_decimal(output.visible_lines as u64).as_str());
    text.append(" of ");
    text.append(chars::format_decimal(output.total_lines as u64).as_str());
    text.append(" lines]\n");
}

fn append_stream(text: &mut String, label: &str, output: &TruncatedOutput)
    ensures
        final(text)@ == with_stream(old(text)@, label@, output@),
{
    if output.is_empty() {
        return;
    }
    text.append("\n");
    text.append(label);
    text.append(":\n");
    text.append(output.content.as_str());
    append_truncation_note(text, label, output);
}

pub fn format_bash_output(output: &BashOutput) -> (text: String)
    ensures
        text@ == output_text(output@),
{
    let mut text: String = "exit code: ".to_owned();
    text.append(exit_status_label(output.exit_code).as_str());
    text.append("\n");
    if output.stdout.is_empty() && output.stderr.is_empty() {
        text.append("stdout: <empty>\nstderr: <empty>");
        return text;
    }
    append_stream(&mut text, "stdout", &output.stdout);
    append_stream(&mut text, "stderr", &output.stderr);
    text
}

/// What became of the reading of a stream.
#[derive(Debug)]
pub enum StreamEnd {
    Read(TruncatedOutput),
    ReadFailed(String),
    /// What read the stream did not end by itself.
    JoinFailed(String),
}

pub open spec fn untruncated(content: Seq<char>) -> TruncatedView {
    TruncatedView {
        content,
        total_bytes: chars::byte_len(content) as int,
        total_lines: chars::lines(content).len() as int,
        visible_lines: chars::lines(content).len() as int,
        truncated: false,
    }
}

/// What is told of a stream once it ended.
pub open spec fn stream_output(end: StreamEnd, label: Seq<char>) -> TruncatedView {
    match end {
        StreamEnd::Read(output) => output@,
        StreamEnd::ReadFailed(error) => untruncated(
            "<failed to read "@ + label + ": "@ + error@ + ">"@,
        ),
        StreamEnd::JoinFailed(error) => untruncated(
            "<failed to join "@ + label + " reader: "@ + error@ + ">"@,
        ),
    }
}

pub fn collect_stream_output(end: StreamEnd, label: &str) -> (output: TruncatedOutput)
    ensures
        output@ == stream_output(end, label@),
{
    match end {
        StreamEnd::Read(output) => output,
        StreamEnd::ReadFailed(error) => {
            let mut text: String = "<failed to read ".to_owned();
            text.append(label);
            text.append(": ");
            text.append(error.as_str());
            text.append(">");
            TruncatedOutput::from_text(text)
        },
        StreamEnd::JoinFailed(error) => {
            let mut text: String = "<failed to join ".to_owned();
            text.append(label);
            text.append(" reader: ");
            text.append(error.as_str());
            text.append(">");
            TruncatedOutput::from_text(text)
        },
    }
}

/// How a command ended.
#[derive(Debug, Clone, Copy, PartialEq, Eq, Structural)]
pub enum CommandEnd {
    Cancelled,
    TimedOut,
    /// With its code, if it has one.
    Exited(Option<i32>),
}

/// Whether a command ended by itself, and what is told of it.
pub open spec fn command_report(
    end: CommandEnd,
    timeout: u64,
    stdout: StreamEnd,
    stderr: StreamEnd,
) -> (bool, Seq<char>) {
    let output = |exit_code: Option<i32>|
        output_text(
            BashView {
                exit_code,
                stdout: stream_output(stdout, "stdout"@),
                stderr: stream_output(stderr, "stderr"@),
            },
        );
    match end {
        CommandEnd::Cancelled => (false, "bash cancelled\n"@ + output(None)),
        CommandEnd::TimedOut => (
            false,
            "bash command timed out after "@ + chars::decimal(timeout as nat) + "s\n"@ + output(
                None,
            ),
        ),
        CommandEnd::Exited(code) => (true, output(code)),
    }
}

/// What is told of a command: all of it if it ended by itself, and why it did not otherwise.
pub fn report_command(
    end: CommandEnd,
    timeout: u64,
    stdout: StreamEnd,
    stderr: StreamEnd,
) -> (report: Result<String, String>)
    ensures
        match report {
            Ok(text) => command_report(end, timeout, stdout, stderr) == (true, text@),
            Err(message) => command_report(end, timeout, stdout, stderr) == (false, message@),
        },
{
    let exit_code: Option<i32> = match end {
        CommandEnd::Exited(code) => code,
        _ => None,
    };
    let output = BashOutput {
        exit_code,
        stdout: collect_stream_output(stdout, "stdout"),
        stderr: collect_stream_output(stderr, "stderr"),
    };
    let text = format_bash_output(&output);
    match end {
        CommandEnd::Cancelled => {
            let mut message: String = "bash cancelled\n".to_owned();
            message.append(text.as_str());
            Err(message)
        },
        CommandEnd::TimedOut => {
            let mut message: String = "bash command timed out after ".to_owned();
            message.append(chars::format_decimal(timeout).as_str());
            message.append("s\n");
            message.append(text.as_str());
            Err(message)
        },
        CommandEnd::Exited(_) => Ok(text),
    }
}

/// What is kept of a stream is its end, all of it or as much as is kept.
pub proof fn law_end_of_stream_is_kept(bytes: Seq<u8>)
    ensures
        tail_of(bytes).is_suffix_of(bytes),
        tail_of(bytes).len() == bytes.len() || tail_of(bytes).len() == MAX_OUTPUT_BYTES,
        tail_of(bytes).len() <= MAX_OUTPUT_BYTES,
{
    assert(tail_of(bytes) =~= bytes.subrange(
        bytes.len() - tail_of(bytes).len(),
        bytes.len() as int,
    ));
}

/// How many line breaks there are in a text.
pub open spec fn breaks(text: Seq<char>) -> nat
    decreases text.len(),
{
    if text.len() == 0 {
        0
    } else {
        breaks(text.drop_last()) + if text.last() == '\n' {
            1nat
        } else {
            0
        }
    }
}

proof fn lemma_breaks_add(left: Seq<char>, right: Seq<char>)
    ensures
        breaks(left + right) == breaks(left) + breaks(right),
    decreases right.len(),
{
    if right.len() == 0 {
        assert(left + right =~= left);
    } else {
        assert((left + right).drop_last() =~= left + right.drop_last());
        lemma_breaks_add(left, right.drop_last());
    }
}

proof fn lemma_open_line_has_no_break(text: Seq<char>, k: int)
    requires
        0 <= k <= text.len(),
    ensures
        breaks(chars::open_line(text, k)) == 0,
    decreases k,
{
    if k > 0 && text[k - 1] != '\n' {
        lemma_open_line_has_no_break(text, k - 1);
        assert(chars::open_line(text, k).drop_last() =~= chars::open_line(text, k - 1));
    }
}

/// Whether no part holds a line break.
pub open spec fn all_unbroken(parts: Seq<Seq<char>>) -> bool {
    forall|i: int| 0 <= i < parts.len() ==> breaks(#[trigger] parts[i]) == 0
}

proof fn lemma_ended_lines(text: Seq<char>, k: int)
    requires
        0 <= k <= text.len(),
    ensures
        chars::ended_lines(text, k).len() == breaks(text.take(k)),
        all_unbroken(chars::ended_lines(text, k)),
    decreases k,
{
    if k > 0 {
        lemma_ended_lines(text, k - 1);
        assert(text.take(k).drop_last() =~= text.take(k - 1));
        if text[k - 1] == '\n' {
            lemma_open_line_has_no_break(text, k - 1);
            let open = chars::open_line(text, k - 1);
            if open.len() > 0 && open.last() == '\r' {
                assert(breaks(open) == breaks(open.drop_last()));
            }
        }
    }
}

proof fn lemma_lines_count(text: Seq<char>)
    ensures
        breaks(text) <= chars::lines(text).len() <= breaks(text) + 1,
        ends_line(text) ==> chars::lines(text).len() == breaks(text),
        all_unbroken(chars::lines(text)),
{
    lemma_ended_lines(text, text.len() as int);
    lemma_open_line_has_no_break(text, text.len() as int);
    assert(text.take(text.len() as int) =~= text);
}

proof fn lemma_one_break()
    ensures
        breaks("\n"@) == 1,
{
    reveal_strlit("\n");
    reveal_with_fuel(breaks, 2);
    assert("\n"@.drop_last() =~= Seq::<char>::empty());
}

proof fn lemma_joined_breaks(parts: Seq<Seq<char>>, count: int)
    requires
        0 < count <= parts.len(),
        all_unbroken(parts),
    ensures
        breaks(chars::joined(parts, "\n"@, count)) == count - 1,
    decreases count,
{
    reveal_strlit("\n");
    if count == 1 {
        assert(breaks(parts[0]) == 0);
    } else {
        lemma_joined_breaks(parts, count - 1);
        let before = chars::joined(parts, "\n"@, count - 1);
        lemma_breaks_add(before, "\n"@);
        lemma_breaks_add(before + "\n"@, parts[count - 1]);
        lemma_one_break();
        assert(breaks(parts[count - 1]) == 0);
    }
}

/// Of a text that is cut no more lines are left than were asked for.
pub proof fn law_lines_are_limited(text: Seq<char>, max_lines: nat)
    requires
        max_lines > 0,
    ensures
        chars::lines(last_lines(text, max_lines)).len() <= max_lines,
{
    reveal_strlit("\n");
    let lines = chars::lines(text);
    let kept = if lines.len() <= max_lines {
        lines
    } else {
        lines.skip(lines.len() - max_lines)
    };
    lemma_lines_count(text);
    assert(all_unbroken(kept)) by {
        assert forall|i: int| 0 <= i < kept.len() implies breaks(#[trigger] kept[i]) == 0 by {
            assert(kept[i] == lines[i + lines.len() - kept.len()]);
        }
    }
    let cut = last_lines(text, max_lines);
    lemma_lines_count(cut);
    if kept.len() > 0 {
        lemma_joined_breaks(kept, kept.len() as int);
        let joined = chars::join(kept, "\n"@);
        lemma_breaks_add(joined, "\n"@);
        lemma_one_break();
        if ends_line(text) {
            assert(cut.last() == '\n');
        }
    }
}

/// No more lines of a stream are told than the limit.
pub proof fn law_told_lines_are_limited(bytes: Seq<u8>)
    ensures
        truncated(bytes).visible_lines <= MAX_OUTPUT_LINES,
{
    law_lines_are_limited(bytes::lossy(tail_of(bytes)), MAX_OUTPUT_LINES as nat);
}

/// How many characters parts hold with a line break after each of them.
pub open spec fn weight(parts: Seq<Seq<char>>) -> int
    decreases parts.len(),
{
    if parts.len() == 0 {
        0
    } else {
        weight(parts.drop_last()) + parts.last().len() + 1
    }
}

proof fn lemma_weight_skip(parts: Seq<Seq<char>>, count: int)
    requires
        0 <= count <= parts.len(),
    ensures
        0 <= weight(parts.skip(count)) <= weight(parts),
    decreases parts.len(),
{
    if parts.len() == 0 {
        assert(parts.skip(count) =~= parts);
    } else if count == parts.len() {
        assert(parts.skip(count) =~= Seq::<Seq<char>>::empty());
        lemma_weight_skip(parts.drop_last(), 0);
    } else {
        lemma_weight_skip(parts.drop_last(), count);
        assert(parts.skip(count).drop_last() =~= parts.drop_last().skip(count));
    }
}

proof fn lemma_joined_weight(parts: Seq<Seq<char>>, count: int)
    requires
        0 < count <= parts.len(),
    ensures
        chars::joined(parts, "\n"@, count).len() + 1 == weight(parts.take(count)),
    decreases count,
{
    reveal_strlit("\n");
    assert(parts.take(count).drop_last() =~= parts.take(count - 1));
    if count == 1 {
        assert(weight(parts.take(0)) == 0);
    } else {
        lemma_joined_weight(parts, count - 1);
    }
}

proof fn lemma_ended_weight(text: Seq<char>, k: int)
    requires
        0 <= k <= text.len(),
    ensures
        weight(chars::ended_lines(text, k)) + chars::open_line(text, k).len() <= k,
    decreases k,
{
    if k > 0 {
        lemma_ended_weight(text, k - 1);
        if text[k - 1] == '\n' {
            assert(chars::ended_lines(text, k).drop_last() =~= chars::ended_lines(text, k - 1));
        }
    }
}

/// What is left of a text that is cut is no longer than the text.
pub proof fn law_cut_is_no_longer(text: Seq<char>, max_lines: nat)
    ensures
        last_lines(text, max_lines).len() <= text.len(),
{
    reveal_strlit("\n");
    let size = text.len() as int;
    let lines = chars::lines(text);
    let kept = if lines.len() <= max_lines {
        lines
    } else {
        lines.skip(lines.len() - max_lines)
    };
    lemma_ended_weight(text, size);
    if chars::open_line(text, size).len() > 0 {
        assert(lines.drop_last() =~= chars::ended_lines(text, size));
    }
    assert(weight(kept) <= weight(lines)) by {
        lemma_weight_skip(lines, lines.len() - kept.len());
        assert(lines.skip(0) =~= lines);
    }
    if kept.len() > 0 {
        lemma_joined_weight(kept, kept.len() as int);
        assert(kept.take(kept.len() as int) =~= kept);
    }
}

/// Of a stream of ASCII characters the kept end is told as it is if it has no more lines than are
/// told, and else its last lines are told. The content is no longer than what is kept, it has no
/// more lines than are told, and a note says so whenever something is missing.
pub proof fn law_ascii_output(bytes: Seq<u8>)
    requires
        bytes::is_ascii(bytes),
    ensures
        ({
            let text = bytes::ascii_text(tail_of(bytes));
            let told = told_as(bytes, text);
            &&& told.total_bytes == bytes.len()
            &&& told.content.len() <= MAX_OUTPUT_BYTES
            &&& told.visible_lines == chars::lines(told.content).len()
            &&& told.visible_lines <= MAX_OUTPUT_LINES
            &&& told.truncated <==> bytes.len() > MAX_OUTPUT_BYTES || chars::lines(text).len()
                > MAX_OUTPUT_LINES
            &&& chars::lines(text).len() <= MAX_OUTPUT_LINES ==> told.content == text
            &&& chars::lines(text).len() > MAX_OUTPUT_LINES ==> told.content == last_lines(
                text,
                MAX_OUTPUT_LINES as nat,
            )
        }),
{
    let text = bytes::ascii_text(tail_of(bytes));
    law_cut_is_no_longer(text, MAX_OUTPUT_LINES as nat);
    law_lines_are_limited(text, MAX_OUTPUT_LINES as nat);
}

/// A stream is told as it is, with no note, where it is short.
pub proof fn law_short_output_is_whole(bytes: Seq<u8>)
    requires
        bytes.len() <= MAX_OUTPUT_BYTES,
        chars::lines(bytes::lossy(bytes)).len() <= MAX_OUTPUT_LINES,
    ensures
        truncated(bytes).content == bytes::lossy(bytes),
        !truncated(bytes).truncated,
{
}

/// Whether a part stands somewhere in a text.
pub open spec fn holds_part(text: Seq<char>, part: Seq<char>) -> bool {
    exists|before: Seq<char>, after: Seq<char>| text == #[trigger] (before + part + after)
}

/// What is told of a stream that gave something.
pub open spec fn section(label: Seq<char>, output: TruncatedView) -> Seq<char> {
    label + ":\n"@ + output.content
}

/// What is told of a stream of which not all is told.
pub open spec fn cut_note(label: Seq<char>, output: TruncatedView) -> Seq<char> {
    "["@ + label + " truncated: showing tail, "@ + chars::decimal(chars::byte_len(output.content))
        + " of "@ + chars::decimal(output.total_bytes as nat) + " bytes, "@ + chars::decimal(
        output.visible_lines as nat,
    ) + " of "@ + chars::decimal(output.total_lines as nat) + " lines]\n"@
}

proof fn lemma_part_of_longer(text: Seq<char>, part: Seq<char>, more: Seq<char>)
    requires
        holds_part(text, part),
    ensures
        holds_part(text + more, part),
{
    let (before, after) = choose|before: Seq<char>, after: Seq<char>|
        text == #[trigger] (before + part + after);
    assert(text + more =~= before + part + (after + more));
}

/// What is told after a stream was told: nothing that was there before is gone, the stream stands
/// there with its label if it gave anything, and a note stands at the end just where the stream was
/// cut.
proof fn lemma_stream_is_told(text: Seq<char>, label: Seq<char>, output: TruncatedView)
    ensures
        output.content.len() == 0 ==> with_stream(text, label, output) == text,
        exists|more: Seq<char>| with_stream(text, label, output) == #[trigger] (text + more),
        output.content.len() > 0 ==> {
            let told = with_stream(text, label, output);
            &&& holds_part(told, section(label, output))
            &&& told.len() > text.len()
            &&& told[text.len() as int] == '\n'
            &&& !output.truncated ==> told == text + "\n"@ + section(label, output)
            &&& output.truncated ==> told == text + "\n"@ + section(label, output) + (
            if output.content.last() == '\n' {
                Seq::empty()
            } else {
                "\n"@
            }) + cut_note(label, output)
        },
{
    reveal_strlit("\n");
    reveal_strlit(":\n");
    let told = with_stream(text, label, output);
    if output.content.len() == 0 {
        assert(told =~= text + Seq::<char>::empty());
    } else {
        let plain = text + "\n"@ + label + ":\n"@ + output.content;
        assert(plain =~= text + "\n"@ + section(label, output));
        assert(plain.last() == output.content.last());
        let note = cut_note(label, output);
        if output.truncated {
            let gap = if output.content.last() == '\n' {
                Seq::<char>::empty()
            } else {
                "\n"@
            };
            assert(told =~= text + "\n"@ + section(label, output) + gap + note);
            assert(told =~= text + ("\n"@ + section(label, output) + gap + note));
            assert(told =~= (text + "\n"@) + section(label, output) + (gap + note));
        } else {
            assert(told =~= text + ("\n"@ + section(label, output)));
            assert(told =~= (text + "\n"@) + section(label, output) + Seq::<char>::empty());
        }
    }
}

/// Whatever a command gave on a stream is told, whatever it gave on the other one: the report holds
/// the name of the stream and all that is kept of it. That both are empty is told only where both
/// are.
pub proof fn law_every_stream_is_told(output: BashView)
    ensures
        output.stdout.content.len() > 0 ==> holds_part(
            output_text(output),
            "stdout:\n"@ + output.stdout.content,
        ),
        output.stderr.content.len() > 0 ==> holds_part(
            output_text(output),
            "stderr:\n"@ + output.stderr.content,
        ),
        ({
            let head = "exit code: "@ + exit_label(output.exit_code) + "\n"@;
            let rest = output_text(output).skip(head.len() as int);
            &&& output_text(output).take(head.len() as int) == head
            &&& output.stdout.content.len() == 0 && output.stderr.content.len() == 0 ==> rest
                == "stdout: <empty>\nstderr: <empty>"@
            &&& output.stdout.content.len() > 0 || output.stderr.content.len() > 0 ==> rest.len()
                > 0 && rest[0] == '\n'
        }),
{
    let head = "exit code: "@ + exit_label(output.exit_code) + "\n"@;
    let first = with_stream(head, "stdout"@, output.stdout);
    let text = output_text(output);
    reveal_strlit("stdout:\n");
    reveal_strlit("stderr:\n");
    reveal_strlit("stdout");
    reveal_strlit("stderr");
    reveal_strlit(":\n");
    assert("stdout:\n"@ =~= "stdout"@ + ":\n"@);
    assert("stderr:\n"@ =~= "stderr"@ + ":\n"@);
    if output.stdout.content.len() == 0 && output.stderr.content.len() == 0 {
        assert(text.take(head.len() as int) =~= head);
        assert(text.skip(head.len() as int) =~= "stdout: <empty>\nstderr: <empty>"@);
    } else {
        lemma_stream_is_told(head, "stdout"@, output.stdout);
        lemma_stream_is_told(first, "stderr"@, output.stderr);
        let more = choose|more: Seq<char>| text == #[trigger] (first + more);
        let earlier = choose|earlier: Seq<char>| first == #[trigger] (head + earlier);
        if output.stdout.content.len() > 0 {
            lemma_part_of_longer(first, section("stdout"@, output.stdout), more);
        }
        assert(text.take(head.len() as int) =~= head);
        assert(text.skip(head.len() as int)[0] == text[head.len() as int]);
    }
}

/// What stands in a report for a stream: nothing for an empty one, else its name and content, with
/// a note in a line of its own where it was cut.
pub open spec fn stream_part(label: Seq<char>, stream: TruncatedView) -> Seq<char> {
    if stream.content.len() == 0 {
        Seq::empty()
    } else if !stream.truncated {
        "\n"@ + section(label, stream)
    } else if stream.content.last() == '\n' {
        "\n"@ + section(label, stream) + cut_note(label, stream)
    } else {
        "\n"@ + section(label, stream) + "\n"@ + cut_note(label, stream)
    }
}

proof fn lemma_stream_added(text: Seq<char>, label: Seq<char>, output: TruncatedView)
    ensures
        with_stream(text, label, output) == text + stream_part(label, output),
{
    lemma_stream_is_told(text, label, output);
    let told = with_stream(text, label, output);
    let shown = section(label, output);
    let note = cut_note(label, output);
    if output.content.len() == 0 {
        assert(told =~= text + Seq::<char>::empty());
    } else if !output.truncated {
        assert(told =~= text + ("\n"@ + shown));
    } else if output.content.last() == '\n' {
        assert(told =~= text + ("\n"@ + shown + note));
    } else {
        assert(told =~= text + ("\n"@ + shown + "\n"@ + note));
    }
}

/// A report tells that a stream was cut just where it was, and then how much of it is told and how
/// much there was. A stream that was not cut is told without a note.
pub proof fn law_cut_streams_have_a_note(output: BashView)
    requires
        output.stdout.content.len() > 0 || output.stderr.content.len() > 0,
    ensures
        output_text(output) == "exit code: "@ + exit_label(output.exit_code) + "\n"@ + stream_part(
            "stdout"@,
            output.stdout,
        ) + stream_part("stderr"@, output.stderr),
{
    let head = "exit code: "@ + exit_label(output.exit_code) + "\n"@;
    let first = with_stream(head, "stdout"@, output.stdout);
    lemma_stream_added(head, "stdout"@, output.stdout);
    lemma_stream_added(first, "stderr"@, output.stderr);
}

/// The report of a command ends with its output in every case; one that did not end by itself is a
/// failure that says why, and it has no exit code.
pub proof fn law_reports_tell_how_commands_ended(
    end: CommandEnd,
    timeout: u64,
    stdout: StreamEnd,
    stderr: StreamEnd,
)
    ensures
        ({
            let told = command_report(end, timeout, stdout, stderr);
            let output = |exit_code: Option<i32>|
                output_text(
                    BashView {
                        exit_code,
                        stdout: stream_output(stdout, "stdout"@),
                        stderr: stream_output(stderr, "stderr"@),
                    },
                );
            &&& told.0 <==> end is Exited
            &&& end matches CommandEnd::Exited(code) ==> told.1 == output(code)
            &&& end == CommandEnd::Cancelled ==> told.1 == "bash cancelled\n"@ + output(None)
            &&& end == CommandEnd::TimedOut ==> told.1 == "bash command timed out after "@
                + chars::decimal(timeout as nat) + "s\n"@ + output(None)
            &&& stdout matches StreamEnd::Read(read) ==> stream_output(stdout, "stdout"@) == read@
            &&& stderr matches StreamEnd::Read(read) ==> stream_output(stderr, "stderr"@) == read@
            &&& stdout matches StreamEnd::ReadFailed(error) ==> stream_output(
                stdout,
                "stdout"@,
            ).content == "<failed to read stdout: "@ + error@ + ">"@
            &&& stderr matches StreamEnd::JoinFailed(error) ==> stream_output(
                stderr,
                "stderr"@,
            ).content == "<failed to join stderr reader: "@ + error@ + ">"@
        }),
{
    reveal_strlit("<failed to read ");
    reveal_strlit("stdout");
    reveal_strlit(": ");
    reveal_strlit("<failed to read stdout: ");
    reveal_strlit("<failed to join ");
    reveal_strlit("stderr");
    reveal_strlit(" reader: ");
    reveal_strlit("<failed to join stderr reader: ");
    assert("<failed to read stdout: "@ =~= "<failed to read "@ + "stdout"@ + ": "@);
    assert("<failed to join stderr reader: "@ =~= "<failed to join "@ + "stderr"@ + " reader: "@);
}

/// The exit code is told as a number that can be read back, with a sign where it is negative; a
/// command without one was terminated.
pub proof fn law_exit_codes_read_back(code: i32)
    ensures
        code >= 0 ==> chars::is_number(exit_label(Some(code))) && chars::number_in(
            exit_label(Some(code)),
        ) == code,
        code < 0 ==> exit_label(Some(code)).len() > 1 && exit_label(Some(code))[0] == '-'
            && chars::number_in(exit_label(Some(code)).skip(1)) == -code,
        exit_label(None) == "<terminated>"@,
{
    reveal_strlit("-");
    if code >= 0 {
        chars::law_decimal_reads_back(code as nat);
    } else {
        chars::law_decimal_reads_back((-code) as nat);
        assert(exit_label(Some(code)).skip(1) =~= chars::decimal((-code) as nat));
    }
}

/// A command is run unless it was cancelled, is blank, or has no time; the reasons come in this
/// order.
pub proof fn law_commands_are_refused_for_a_reason(input: BashInput, cancelled: bool)
    ensures
        refusal(input, cancelled) is None <==> !cancelled && input.timeout > 0 && exists|i: int|
            0 <= i < input.command@.len() && !chars::is_white_space(#[trigger] input.command@[i]),
        cancelled ==> refusal(input, cancelled) == Some("bash cancelled"@),
        !cancelled && (forall|i: int|
            0 <= i < input.command@.len() ==> chars::is_white_space(#[trigger] input.command@[i]))
            ==> refusal(input, cancelled) == Some("command cannot be empty"@),
        !cancelled && input.timeout == 0 && (exists|i: int|
            0 <= i < input.command@.len() && !chars::is_white_space(#[trigger] input.command@[i]))
            ==> refusal(input, cancelled) == Some("timeout must be greater than 0 seconds"@),
{
    let text = input.command@;
    chars::law_trimming_takes_only_white_space(text);
    let kept = chars::trimmed(text);
    let (before, after) = choose|before: Seq<char>, after: Seq<char>|
        {
            &&& text == #[trigger] (before + kept + after)
            &&& forall|i: int| 0 <= i < before.len() ==> chars::is_white_space(#[trigger] before[i])
            &&& forall|i: int| 0 <= i < after.len() ==> chars::is_white_space(#[trigger] after[i])
        };
    if kept.len() > 0 {
        assert(text[before.len() as int] == kept[0]);
    } else {
        assert forall|i: int| 0 <= i < text.len() implies chars::is_white_space(
            #[trigger] text[i],
        ) by {
            if i < before.len() {
                assert(text[i] == before[i]);
            } else {
                assert(text[i] == after[i - before.len()]);
            }
        }
    }
}

/// A line is counted from its first byte on, whether or not a line break ends it.
pub proof fn law_lines_are_counted_from_their_first_byte(bytes: Seq<u8>, byte: u8)
    ensures
        line_total(Seq::empty()) == 0,
        line_total(bytes.push(byte)) == line_total(bytes) + if bytes.len() == 0 || bytes.last()
            == 10 {
            1int
        } else {
            0
        },
{
    lemma_newlines_push(bytes, byte);
    if bytes.len() == 0 {
        assert(newlines(bytes) == 0);
    }
}

/// What is told of a stream counts all of its bytes and lines, not only what is shown; and it is cut
/// just if it has more bytes or its end has more lines than are told.
pub proof fn law_counts_speak_of_the_whole_stream(bytes: Seq<u8>)
    ensures
        ({
            let told = truncated(bytes);
            let text = bytes::lossy(tail_of(bytes));
            let lines = chars::lines(text);
            &&& told.total_bytes == bytes.len()
            &&& told.total_lines == line_total(bytes)
            &&& told.visible_lines == chars::lines(told.content).len()
            &&& told.truncated <==> bytes.len() > 51200 || lines.len() > 2000
            &&& lines.len() <= 2000 ==> told.content == text
            &&& lines.len() > 2000 ==> told.content == chars::join(
                lines.skip(lines.len() - 2000),
                "\n"@,
            ) + if text.len() > 0 && text.last() == '\n' {
                "\n"@
            } else {
                Seq::empty()
            }
        }),
        bytes.len() <= 51200 ==> tail_of(bytes) == bytes,
        bytes.len() > 51200 ==> tail_of(bytes).len() == 51200 && tail_of(bytes).is_suffix_of(bytes),
{
    law_end_of_stream_is_kept(bytes);
    let text = bytes::lossy(tail_of(bytes));
    let lines = chars::lines(text);
    if lines.len() > 2000 {
        assert(truncated(bytes).content =~= chars::join(lines.skip(lines.len() - 2000), "\n"@)
            + if text.len() > 0 && text.last() == '\n' {
            "\n"@
        } else {
            Seq::empty()
        });
    }
}

/// A stream that was read is told as it was read; of one that was not, what failed is told in full,
/// with the name of the stream and the reason.
pub proof fn law_unread_streams_are_told_to_have_failed(
    output: TruncatedOutput,
    error: String,
    label: Seq<char>,
)
    ensures
        stream_output(StreamEnd::Read(output), label) == output@,
        ({
            let failed = stream_output(StreamEnd::ReadFailed(error), label);
            &&& failed.content == "<failed to read "@ + label + ": "@ + error@ + ">"@
            &&& !failed.truncated
            &&& failed.visible_lines == failed.total_lines
        }),
        ({
            let failed = stream_output(StreamEnd::JoinFailed(error), label);
            &&& failed.content == "<failed to join "@ + label + " reader: "@ + error@ + ">"@
            &&& !failed.truncated
            &&& failed.visible_lines == failed.total_lines
        }),
{
}

} // verus!
