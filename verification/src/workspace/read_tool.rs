//! The reading of files: whole images, and texts by pages.

use crate::chars;
use crate::message;
use crate::message::{ContentView, ImageContent, ImageView, InputContent};
use crate::workspace::bytes::validate_utf8;
use crate::workspace::paths;
use std::sync::Arc;
use vstd::prelude::*;
use vstd::utf8::*;

verus! {

pub const READ_TOOL_NAME: &'static str = "read";

#[derive(Debug, PartialEq, Eq)]
pub struct ReadToolConfig {
    pub max_line_limit: usize,
    pub line_numbers: bool,
}

impl Default for ReadToolConfig {
    fn default() -> (config: ReadToolConfig)
        ensures
            config == (ReadToolConfig { max_line_limit: 2000, line_numbers: true }),
    {
        ReadToolConfig { max_line_limit: 2000, line_numbers: true }
    }
}

/// What is told of the tool.
pub open spec fn description_of(config: ReadToolConfig) -> Seq<char> {
    "Read a text or image file. Supports 1-based offset/limit pagination (max "@ + chars::decimal(
        config.max_line_limit as nat,
    ) + " lines per call)"@ + (if config.line_numbers {
        "; output is line-numbered"@
    } else {
        ""@
    }) + "."@
}

pub fn describe(config: &ReadToolConfig) -> (description: String)
    ensures
        description@ == description_of(*config),
{
    let mut description: String =
        "Read a text or image file. Supports 1-based offset/limit pagination (max ".to_owned();
    description.append(chars::format_decimal(config.max_line_limit as u64).as_str());
    description.append(" lines per call)");
    if config.line_numbers {
        description.append("; output is line-numbered");
    } else {
        description.append("");
    }
    description.append(".");
    description
}

/// What is read: a file, and from it some lines from a line on, which are counted from one.
#[derive(Debug, PartialEq, Eq)]
pub struct ReadInput {
    pub path: String,
    pub offset: Option<usize>,
    pub limit: Option<usize>,
}

/// What was read.
#[derive(Debug, PartialEq, Eq)]
pub enum ReadOutput {
    Text(String),
    Image(ImageContent),
}

impl View for ReadOutput {
    type V = ContentView;

    open spec fn view(&self) -> ContentView {
        match self {
            ReadOutput::Text(text) => ContentView::Text(text@),
            ReadOutput::Image(image) => ContentView::Image(image@),
        }
    }
}

impl ReadOutput {
    /// What was read as the content of a result.
    pub fn into_content(self) -> (content: Vec<InputContent>)
        ensures
            message::content_views(content@) == seq![self@],
    {
        let ghost read = self@;
        let mut content: Vec<InputContent> = Vec::new();
        content.push(
            match self {
                ReadOutput::Text(text) => InputContent::Text(text),
                ReadOutput::Image(image) => InputContent::Image(image),
            },
        );
        assert(message::content_views(content@) =~= seq![read]);
        content
    }
}

/// What a file held.
#[derive(Debug)]
pub struct FileSnapshot {
    pub bytes: Vec<u8>,
}

impl FileSnapshot {
    pub fn from_bytes(bytes: &Vec<u8>) -> (snapshot: FileSnapshot)
        ensures
            snapshot.bytes@ == bytes@,
    {
        let copy = bytes.clone();
        assert(copy@ =~= bytes@);
        FileSnapshot { bytes: copy }
    }
}

/// What was read of a file, and what the file held.
#[derive(Debug)]
pub struct CacheEntry {
    pub offset: Option<usize>,
    pub limit: Option<usize>,
    pub snapshot: FileSnapshot,
}

/// What was read of a file, as plain values.
pub struct CacheView {
    pub offset: Option<usize>,
    pub limit: Option<usize>,
    pub bytes: Seq<u8>,
}

impl View for CacheEntry {
    type V = CacheView;

    open spec fn view(&self) -> CacheView {
        CacheView { offset: self.offset, limit: self.limit, bytes: self.snapshot.bytes@ }
    }
}

fn same_bytes(left: &Vec<u8>, right: &Vec<u8>) -> (same: bool)
    ensures
        same == (left@ == right@),
{
    if left.len() != right.len() {
        return false;
    }
    let mut i: usize = 0;
    while i < left.len()
        invariant
            i <= left@.len(),
            left@.len() == right@.len(),
            forall|j: int| 0 <= j < i ==> left@[j] == right@[j],
        decreases left@.len() - i,
    {
        if left[i] != right[i] {
            assert(left@[i as int] != right@[i as int]);
            return false;
        }
        i = i + 1;
    }
    assert(left@ =~= right@);
    true
}

impl CacheEntry {
    pub fn is_same(&self, other: &CacheEntry) -> (same: bool)
        ensures
            same == (self@ == other@),
    {
        same_number(self.offset, other.offset) && same_number(self.limit, other.limit)
            && same_bytes(&self.snapshot.bytes, &other.snapshot.bytes)
    }
}

fn same_number(left: Option<usize>, right: Option<usize>) -> (same: bool)
    ensures
        same == (left == right),
{
    match left {
        Some(left) => match right {
            Some(right) => left == right,
            None => false,
        },
        None => right.is_none(),
    }
}

/// What was read last of each file.
#[derive(Debug)]
pub struct FileCache {
    entries: Vec<(String, CacheEntry)>,
}

/// What the first `count` entries tell of each file.
spec fn entries_map(entries: Seq<(String, CacheEntry)>, count: int) -> Map<Seq<char>, CacheView>
    decreases count,
{
    if count <= 0 {
        Map::empty()
    } else {
        entries_map(entries, count - 1).insert(entries[count - 1].0@, entries[count - 1].1@)
    }
}

proof fn lemma_entries_prefix(
    entries: Seq<(String, CacheEntry)>,
    other: Seq<(String, CacheEntry)>,
    count: int,
)
    requires
        0 <= count <= entries.len(),
        count <= other.len(),
        entries.take(count) == other.take(count),
    ensures
        entries_map(entries, count) == entries_map(other, count),
    decreases count,
{
    if count > 0 {
        assert(entries.take(count - 1) =~= entries.take(count).take(count - 1));
        assert(other.take(count - 1) =~= other.take(count).take(count - 1));
        assert(entries[count - 1] == entries.take(count)[count - 1]);
        assert(other[count - 1] == other.take(count)[count - 1]);
        lemma_entries_prefix(entries, other, count - 1);
    }
}

impl View for FileCache {
    type V = Map<Seq<char>, CacheView>;

    closed spec fn view(&self) -> Map<Seq<char>, CacheView> {
        entries_map(self.entries@, self.entries@.len() as int)
    }
}

impl Default for FileCache {
    fn default() -> (cache: FileCache)
        ensures
            cache@ == Map::<Seq<char>, CacheView>::empty(),
    {
        FileCache { entries: Vec::new() }
    }
}

impl FileCache {
    pub fn get(&self, path: &str) -> (entry: Option<&CacheEntry>)
        ensures
            match entry {
                Some(entry) => self@.dom().contains(path@) && self@[path@] == entry@,
                None => !self@.dom().contains(path@),
            },
    {
        let ghost all = self.entries@;
        let mut i: usize = self.entries.len();
        while i > 0
            invariant
                i <= self.entries@.len(),
                all == self.entries@,
                self@.dom().contains(path@) == entries_map(all, i as int).dom().contains(path@),
                self@.dom().contains(path@) ==> self@[path@] == entries_map(all, i as int)[path@],
            decreases i,
        {
            i = i - 1;
            if chars::same_text(self.entries[i].0.as_str(), path) {
                return Some(&self.entries[i].1);
            }
        }
        None
    }

    /// Forgets a file.
    pub fn remove(&mut self, path: &str)
        ensures
            final(self)@ == old(self)@.remove(path@),
    {
        let mut entries: Vec<(String, CacheEntry)> = Vec::new();
        std::mem::swap(&mut entries, &mut self.entries);
        let ghost all = entries@;
        let mut kept: Vec<(String, CacheEntry)> = Vec::new();
        assert(entries_map(kept@, 0) =~= entries_map(all, 0).remove(path@));
        for item in iter: entries
            invariant
                iter.seq() == all,
                entries_map(kept@, kept@.len() as int) == entries_map(
                    all,
                    iter.index() as int,
                ).remove(path@),
        {
            let ghost so_far = entries_map(all, iter.index() as int);
            let ghost kept_before = kept@;
            assert(item == all[iter.index() as int]);
            if !chars::same_text(item.0.as_str(), path) {
                kept.push(item);
                proof {
                    assert(kept@.take(kept_before.len() as int) =~= kept_before.take(
                        kept_before.len() as int,
                    ));
                    lemma_entries_prefix(kept@, kept_before, kept_before.len() as int);
                    assert(so_far.remove(path@).insert(item.0@, item.1@) =~= so_far.insert(
                        item.0@,
                        item.1@,
                    ).remove(path@));
                }
            } else {
                assert(so_far.insert(item.0@, item.1@).remove(path@) =~= so_far.remove(path@));
            }
        }
        self.entries = kept;
    }

    /// Keeps what was read of a file.
    pub fn insert(&mut self, path: String, entry: CacheEntry)
        ensures
            final(self)@ == old(self)@.insert(path@, entry@),
    {
        let ghost before = self@;
        self.remove(path.as_str());
        let ghost kept = self.entries@;
        self.entries.push((path, entry));
        proof {
            assert(self.entries@.take(kept.len() as int) =~= kept.take(kept.len() as int));
            lemma_entries_prefix(self.entries@, kept, kept.len() as int);
            assert(before.remove(path@).insert(path@, entry@) =~= before.insert(path@, entry@));
        }
    }

    /// Forgets all files.
    pub fn clear(&mut self)
        ensures
            final(self)@ == Map::<Seq<char>, CacheView>::empty(),
    {
        self.entries = Vec::new();
    }
}

/// The part of a path that names a file. A slash at the end of a path, or a dot behind one, names
/// nothing of its own.
pub open spec fn named_part(path: Seq<char>) -> Seq<char>
    decreases path.len(),
{
    let len = path.len() as int;
    if len > 0 && path[len - 1] == '/' {
        named_part(path.take(len - 1))
    } else if len > 1 && path[len - 1] == '.' && path[len - 2] == '/' {
        named_part(path.take(len - 2))
    } else {
        paths::file_name_of(path)
    }
}

/// The place of the last dot among the first `k` characters.
pub open spec fn last_dot(name: Seq<char>, k: int) -> Option<int>
    decreases k,
{
    if k <= 0 {
        None
    } else if name[k - 1] == '.' {
        Some(k - 1)
    } else {
        last_dot(name, k - 1)
    }
}

/// What stands behind the last dot of a name, if the name does not start with it.
pub open spec fn extension_of(path: Seq<char>) -> Option<Seq<char>> {
    let name = named_part(path);
    match last_dot(name, name.len() as int) {
        Some(dot) if dot > 0 && name != seq!['.', '.'] => Some(name.skip(dot + 1)),
        _ => None,
    }
}

/// The extension of the file that a path names.
pub fn extension(path: &str) -> (extension: Option<String>)
    ensures
        match extension {
            Some(extension) => extension_of(path@) == Some(extension@),
            None => extension_of(path@) is None,
        },
{
    let characters = chars::chars_of(path);
    let mut end: usize = characters.len();
    assert(path@.take(end as int) =~= path@);
    while end > 0 && (characters[end - 1] == '/' || (end > 1 && characters[end - 1] == '.'
        && characters[end - 2] == '/'))
        invariant
            end <= characters@.len(),
            characters@ == path@,
            named_part(path@) == named_part(path@.take(end as int)),
        decreases end,
    {
        if characters[end - 1] == '/' {
            assert(path@.take(end as int).take(end - 1) =~= path@.take(end - 1));
            end = end - 1;
        } else {
            assert(path@.take(end as int).take(end - 2) =~= path@.take(end - 2));
            end = end - 2;
        }
    }
    let kept = chars::text_of(characters.as_slice(), 0, end);
    assert(kept@ =~= path@.take(end as int));
    let name = chars::chars_of(paths::file_name(kept.as_str()).as_str());
    assert(name@ == named_part(path@));
    let mut dot: usize = name.len();
    while dot > 0 && name[dot - 1] != '.'
        invariant
            dot <= name@.len(),
            last_dot(name@, name@.len() as int) == last_dot(name@, dot as int),
        decreases dot,
    {
        dot = dot - 1;
    }
    if dot <= 1 {
        return None;
    }
    if name.len() == 2 && name[0] == '.' && name[1] == '.' {
        assert(name@ =~= seq!['.', '.']);
        return None;
    }
    assert(name@ != seq!['.', '.']) by {
        if name@ == seq!['.', '.'] {
            assert(name@[0] == '.' && name@[1] == '.');
        }
    }
    let extension = chars::text_of(name.as_slice(), dot, name.len());
    assert(extension@ =~= name@.skip(dot as int));
    Some(extension)
}

/// The kind of image that a file with an extension is, if it is one.
pub open spec fn mime_of(extension: Seq<char>) -> Option<Seq<char>> {
    let lower = chars::lowered(extension);
    if lower == "jpg"@ || lower == "jpeg"@ {
        Some("image/jpeg"@)
    } else if lower == "png"@ {
        Some("image/png"@)
    } else if lower == "gif"@ {
        Some("image/gif"@)
    } else if lower == "webp"@ {
        Some("image/webp"@)
    } else {
        None
    }
}

/// The kind of image that a path names, if it names one.
pub open spec fn image_kind(path: Seq<char>) -> Option<Seq<char>> {
    match extension_of(path) {
        Some(extension) => mime_of(extension),
        None => None,
    }
}

pub fn image_mime_type(path: &str) -> (mime_type: Option<String>)
    ensures
        match mime_type {
            Some(mime_type) => image_kind(path@) == Some(mime_type@),
            None => image_kind(path@) is None,
        },
{
    let extension = match extension(path) {
        Some(extension) => extension,
        None => {
            return None;
        },
    };
    let lower = chars::lower_chars(&chars::chars_of(extension.as_str()));
    let lower_text = chars::text_of(lower.as_slice(), 0, lower.len());
    assert(lower_text@ =~= chars::lowered(extension@));
    let text = lower_text.as_str();
    if chars::same_text(text, "jpg") || chars::same_text(text, "jpeg") {
        Some("image/jpeg".to_owned())
    } else if chars::same_text(text, "png") {
        Some("image/png".to_owned())
    } else if chars::same_text(text, "gif") {
        Some("image/gif".to_owned())
    } else if chars::same_text(text, "webp") {
        Some("image/webp".to_owned())
    } else {
        None
    }
}

/// How many digits a number has.
pub fn digit_count(n: usize) -> (count: usize)
    ensures
        count == chars::decimal(n as nat).len(),
{
    let mut count: usize = 1;
    let mut value: usize = n;
    proof {
        lemma_decimal_len(n as nat);
    }
    while value >= 10
        invariant
            count + chars::decimal(value as nat).len() == chars::decimal(n as nat).len() + 1,
            chars::decimal(n as nat).len() <= usize::MAX,
            chars::decimal(value as nat).len() >= 1,
        decreases value,
    {
        proof {
            lemma_decimal_len(value as nat / 10);
            lemma_decimal_len(value as nat);
        }
        value = value / 10;
        count = count + 1;
    }
    count
}

proof fn lemma_decimal_len(n: nat)
    ensures
        1 <= chars::decimal(n).len() <= n + 1,
        n >= 10 ==> chars::decimal(n).len() == chars::decimal(n / 10).len() + 1,
        n > 0 ==> chars::decimal(n).len() <= n,
    decreases n,
{
    if n >= 10 {
        lemma_decimal_len(n / 10);
    }
}

/// A text with spaces before it, to fill a width.
pub open spec fn right_aligned(text: Seq<char>, width: nat) -> Seq<char> {
    if text.len() >= width {
        text
    } else {
        Seq::new((width - text.len()) as nat, |i: int| ' ') + text
    }
}

fn align_right(text: &str, width: usize) -> (aligned: String)
    ensures
        aligned@ == right_aligned(text@, width as nat),
{
    let characters = chars::chars_of(text);
    let mut aligned: String = String::new();
    let len: usize = characters.len();
    if len < width {
        let missing: usize = width - len;
        let mut i: usize = 0;
        while i < missing
            invariant
                i <= missing,
                aligned@ == Seq::new(i as nat, |j: int| ' '),
            decreases missing - i,
        {
            aligned.push(' ');
            i = i + 1;
            assert(aligned@ =~= Seq::new(i as nat, |j: int| ' '));
        }
    }
    aligned.append(text);
    assert(aligned@ =~= right_aligned(text@, width as nat));
    aligned
}

/// A line as it is shown.
pub open spec fn shown_line(
    number: nat,
    width: nat,
    line: Seq<char>,
    line_numbers: bool,
) -> Seq<char> {
    if line_numbers {
        right_aligned(chars::decimal(number), width) + ": "@ + line
    } else {
        line
    }
}

pub fn render_line(number: usize, width: usize, line: &str, line_numbers: bool) -> (text: String)
    ensures
        text@ == shown_line(number as nat, width as nat, line@, line_numbers),
{
    if line_numbers {
        let mut text = align_right(chars::format_decimal(number as u64).as_str(), width);
        text.append(": ");
        text.append(line);
        text
    } else {
        line.to_owned()
    }
}

/// Which line is read first.
pub open spec fn first_line(input: ReadInput) -> int {
    match input.offset {
        Some(offset) => offset as int,
        None => 1,
    }
}

/// How many lines are asked for.
pub open spec fn asked_lines(input: ReadInput, config: ReadToolConfig) -> int {
    match input.limit {
        Some(limit) => limit as int,
        None => config.max_line_limit as int,
    }
}

/// How many lines are shown at most: as many as asked for, but no more than the limit, which is at
/// least one.
pub open spec fn line_limit(input: ReadInput, config: ReadToolConfig) -> int {
    let most = if config.max_line_limit == 0 {
        1
    } else {
        config.max_line_limit as int
    };
    if asked_lines(input, config) <= most {
        asked_lines(input, config)
    } else {
        most
    }
}

/// The line after the last one that is shown of `total` lines.
pub open spec fn next_line(input: ReadInput, config: ReadToolConfig, total: nat) -> int {
    if first_line(input) + line_limit(input, config) <= total {
        first_line(input) + line_limit(input, config)
    } else {
        total as int + 1
    }
}

/// The lines `from` to `to`, the last one left out, as they are shown.
pub open spec fn shown_lines(
    lines: Seq<Seq<char>>,
    from: int,
    to: int,
    line_numbers: bool,
) -> Seq<Seq<char>> {
    Seq::new(
        (to - from) as nat,
        |i: int|
            shown_line(
                (from + i) as nat,
                chars::decimal(lines.len()).len(),
                lines[from + i - 1],
                line_numbers,
            ),
    )
}

/// What is told of a text, or why nothing is.
pub open spec fn page(text: Seq<char>, input: ReadInput, config: ReadToolConfig) -> Result<
    Seq<char>,
    Seq<char>,
> {
    let lines = chars::lines(text);
    if first_line(input) == 0 {
        Err("offset must be greater than or equal to 1"@)
    } else if asked_lines(input, config) == 0 {
        Err("limit must be greater than or equal to 1"@)
    } else if lines.len() == 0 {
        Ok(input.path@ + " — no content: file is empty"@)
    } else if first_line(input) > lines.len() {
        Ok(
            input.path@ + " — no content: offset "@ + chars::decimal(first_line(input) as nat)
                + " is past end ("@ + chars::decimal(lines.len()) + " lines)"@,
        )
    } else {
        let next = next_line(input, config, lines.len());
        let shown = input.path@ + "\n"@ + chars::join(
            shown_lines(lines, first_line(input), next, config.line_numbers),
            "\n"@,
        );
        if next <= lines.len() {
            Ok(
                shown + "\n[truncated: reached line limit; continue with offset="@
                    + chars::decimal(next as nat) + "]"@,
            )
        } else {
            Ok(shown)
        }
    }
}

pub fn render_text(text: &str, input: &ReadInput, config: &ReadToolConfig) -> (rendered: Result<
    String,
    String,
>)
    ensures
        match rendered {
            Ok(rendered) => page(text@, *input, *config) == Ok::<Seq<char>, Seq<char>>(rendered@),
            Err(message) => page(text@, *input, *config) == Err::<Seq<char>, Seq<char>>(message@),
        },
{
    let offset: usize = match input.offset {
        Some(offset) => offset,
        None => 1,
    };
    if offset == 0 {
        return Err("offset must be greater than or equal to 1".to_owned());
    }
    let asked: usize = match input.limit {
        Some(limit) => limit,
        None => config.max_line_limit,
    };
    if asked == 0 {
        return Err("limit must be greater than or equal to 1".to_owned());
    }
    let most: usize = if config.max_line_limit == 0 {
        1
    } else {
        config.max_line_limit
    };
    let limit: usize = if asked <= most {
        asked
    } else {
        most
    };
    let lines = chars::split_lines(text);
    let ghost views = chars::lines(text@);
    assert(views.len() == lines@.len());
    let total: usize = lines.len();
    if total == 0 {
        let mut message: String = input.path.clone();
        message.append(" — no content: file is empty");
        return Ok(message);
    }
    if offset > total {
        let mut message: String = input.path.clone();
        message.append(" — no content: offset ");
        message.append(chars::format_decimal(offset as u64).as_str());
        message.append(" is past end (");
        message.append(chars::format_decimal(total as u64).as_str());
        message.append(" lines)");
        return Ok(message);
    }
    let width: usize = digit_count(total);
    let left: usize = total - offset + 1;
    let count: usize = if limit <= left {
        limit
    } else {
        left
    };
    let mut shown: Vec<String> = Vec::new();
    let mut i: usize = 0;
    while i < count
        invariant
            i <= count <= total - offset + 1,
            1 <= offset <= total,
            total == lines@.len(),
            views == chars::texts(lines@),
            width == chars::decimal(views.len()).len(),
            shown@.len() == i,
            forall|j: int|
                0 <= j < i ==> #[trigger] shown@[j]@ == shown_line(
                    (offset + j) as nat,
                    width as nat,
                    views[offset + j - 1],
                    config.line_numbers,
                ),
        decreases count - i,
    {
        let index: usize = (offset - 1) + i;
        shown.push(render_line(index + 1, width, lines[index].as_str(), config.line_numbers));
        i = i + 1;
    }
    let ghost next = next_line(*input, *config, views.len());
    assert(next == offset + count);
    assert(chars::texts(shown@) =~= shown_lines(
        views,
        offset as int,
        next,
        config.line_numbers,
    ));
    let mut output: String = input.path.clone();
    output.append("\n");
    output.append(chars::join_texts(&shown, "\n").as_str());
    if count < left {
        output.append("\n[truncated: reached line limit; continue with offset=");
        output.append(chars::format_decimal((offset + count) as u64).as_str());
        output.append("]");
    }
    Ok(output)
}

/// What is told of a file that holds what it held when it was read last.
pub open spec fn unchanged_text(path: Seq<char>) -> Seq<char> {
    path + " — unchanged since last read"@
}

/// Reads files, and keeps what it read last of each.
#[derive(Debug)]
pub struct ReadTool {
    pub config: ReadToolConfig,
    pub description: String,
    pub cache: FileCache,
}

/// What the reading of a file gives, where it is not as it was read last.
pub open spec fn fresh_read(input: ReadInput, bytes: Seq<u8>, config: ReadToolConfig) -> Result<
    ContentView,
    Seq<char>,
> {
    match image_kind(input.path@) {
        Some(mime_type) => Ok(
            ContentView::Image(ImageView::Data { mime_type, data: bytes }),
        ),
        None => if valid_utf8(bytes) {
            match page(decode_utf8(bytes), input, config) {
                Ok(text) => Ok(ContentView::Text(text)),
                Err(message) => Err(message),
            }
        } else {
            Err(input.path@ + " is not valid UTF-8"@)
        },
    }
}

/// Whether a reading is the same as the last one of its file.
pub open spec fn read_before(
    cache: Map<Seq<char>, CacheView>,
    input: ReadInput,
    bytes: Seq<u8>,
) -> bool {
    cache.dom().contains(input.path@) && cache[input.path@] == entry_of(input, bytes)
}

pub open spec fn entry_of(input: ReadInput, bytes: Seq<u8>) -> CacheView {
    CacheView { offset: input.offset, limit: input.limit, bytes }
}

/// What the reading of a file gives.
pub open spec fn read_result(
    cache: Map<Seq<char>, CacheView>,
    input: ReadInput,
    bytes: Seq<u8>,
    config: ReadToolConfig,
) -> Result<ContentView, Seq<char>> {
    if read_before(cache, input, bytes) {
        Ok(ContentView::Text(unchanged_text(input.path@)))
    } else {
        fresh_read(input, bytes, config)
    }
}

/// What was read last of each file after a reading.
pub open spec fn cache_after(
    cache: Map<Seq<char>, CacheView>,
    input: ReadInput,
    bytes: Seq<u8>,
) -> Map<Seq<char>, CacheView> {
    cache.insert(input.path@, entry_of(input, bytes))
}

impl ReadTool {
    pub fn with_cache(config: ReadToolConfig, cache: FileCache) -> (tool: ReadTool)
        ensures
            tool.config == config,
            tool.description@ == description_of(config),
            tool.cache == cache,
    {
        let description = describe(&config);
        ReadTool { config, description, cache }
    }

    pub fn with_config(config: ReadToolConfig) -> (tool: ReadTool)
        ensures
            tool.config == config,
            tool.description@ == description_of(config),
            tool.cache@ == Map::<Seq<char>, CacheView>::empty(),
    {
        ReadTool::with_cache(config, FileCache::default())
    }

    pub fn new() -> (tool: ReadTool)
        ensures
            tool.config == (ReadToolConfig { max_line_limit: 2000, line_numbers: true }),
            tool.description@ == description_of(tool.config),
            tool.cache@ == Map::<Seq<char>, CacheView>::empty(),
    {
        ReadTool::with_config(ReadToolConfig::default())
    }

    /// Forgets what was read of all files.
    pub fn clear_cache(&mut self)
        ensures
            final(self).config == old(self).config,
            final(self).description == old(self).description,
            final(self).cache@ == Map::<Seq<char>, CacheView>::empty(),
    {
        self.cache.clear();
    }

    /// Forgets what was read of a file.
    pub fn invalidate(&mut self, path: &str)
        ensures
            final(self).config == old(self).config,
            final(self).description == old(self).description,
            final(self).cache@ == old(self).cache@.remove(path@),
    {
        self.cache.remove(path);
    }

    /// What the reading of a file with some bytes gives.
    pub fn read(&mut self, input: &ReadInput, bytes: Vec<u8>) -> (read: Result<ReadOutput, String>)
        ensures
            final(self).config == old(self).config,
            final(self).description == old(self).description,
            final(self).cache@ == cache_after(old(self).cache@, *input, bytes@),
            ({
                let result = read_result(old(self).cache@, *input, bytes@, old(self).config);
                match read {
                    Ok(output) => result == Ok::<ContentView, Seq<char>>(output@),
                    Err(message) => result == Err::<ContentView, Seq<char>>(message@),
                }
            }),
    {
        let ghost cache = self.cache@;
        let entry = CacheEntry {
            offset: input.offset,
            limit: input.limit,
            snapshot: FileSnapshot::from_bytes(&bytes),
        };
        let seen = match self.cache.get(input.path.as_str()) {
            Some(last) => last.is_same(&entry),
            None => false,
        };
        assert(seen == read_before(cache, *input, bytes@));
        if seen {
            assert(cache =~= cache_after(cache, *input, bytes@));
            let mut text: String = input.path.clone();
            text.append(" — unchanged since last read");
            return Ok(ReadOutput::Text(text));
        }
        self.cache.insert(input.path.clone(), entry);
        if let Some(mime_type) = image_mime_type(input.path.as_str()) {
            return Ok(ReadOutput::Image(ImageContent::Data { mime_type, data: Arc::new(bytes) }));
        }
        match validate_utf8(bytes, input.path.as_str()) {
            Ok(text) => match render_text(text.as_str(), input, &self.config) {
                Ok(text) => Ok(ReadOutput::Text(text)),
                Err(message) => Err(message),
            },
            Err(message) => Err(message),
        }
    }
}

/// A directory cannot be read.
pub fn check_is_file(path: &str, is_dir: bool) -> (checked: Result<(), String>)
    ensures
        match checked {
            Ok(_) => !is_dir,
            Err(message) => is_dir && message@ == "cannot read directory: "@ + path@,
        },
{
    if is_dir {
        let mut message: String = "cannot read directory: ".to_owned();
        message.append(path);
        Err(message)
    } else {
        Ok(())
    }
}

/// A file that is read again in the same way and holds the same tells only that it is unchanged.
pub proof fn law_second_read_is_short(
    cache: Map<Seq<char>, CacheView>,
    input: ReadInput,
    bytes: Seq<u8>,
    config: ReadToolConfig,
)
    ensures
        read_result(cache_after(cache, input, bytes), input, bytes, config) == Ok::<
            ContentView,
            Seq<char>,
        >(ContentView::Text(unchanged_text(input.path@))),
{
}

/// A file that changed, or of which something else is asked, is read anew.
pub proof fn law_changed_file_is_read_anew(
    cache: Map<Seq<char>, CacheView>,
    input: ReadInput,
    bytes: Seq<u8>,
    next: ReadInput,
    next_bytes: Seq<u8>,
    config: ReadToolConfig,
)
    requires
        next.path@ == input.path@,
        next_bytes != bytes || next.offset != input.offset || next.limit != input.limit,
    ensures
        read_result(cache_after(cache, input, bytes), next, next_bytes, config) == fresh_read(
            next,
            next_bytes,
            config,
        ),
{
}

/// A file that was forgotten is read anew.
pub proof fn law_forgotten_file_is_read_anew(
    cache: Map<Seq<char>, CacheView>,
    input: ReadInput,
    bytes: Seq<u8>,
    config: ReadToolConfig,
)
    ensures
        read_result(cache.remove(input.path@), input, bytes, config) == fresh_read(
            input,
            bytes,
            config,
        ),
        read_result(Map::empty(), input, bytes, config) == fresh_read(input, bytes, config),
{
}

/// Pages follow each other: what a page and the one that continues it show are the lines from the
/// first to the last of both, with none missing and none twice.
pub proof fn law_pages_follow(
    lines: Seq<Seq<char>>,
    input: ReadInput,
    next: ReadInput,
    config: ReadToolConfig,
)
    requires
        1 <= first_line(input) <= lines.len(),
        asked_lines(input, config) > 0,
        next_line(input, config, lines.len()) <= lines.len(),
        next.limit == input.limit,
        next.offset matches Some(offset) && offset == next_line(input, config, lines.len()),
    ensures
        ({
            let middle = first_line(next);
            let end = next_line(next, config, lines.len());
            &&& first_line(input) < middle < end <= lines.len() + 1
            &&& shown_lines(lines, first_line(input), middle, config.line_numbers) + shown_lines(
                lines,
                middle,
                end,
                config.line_numbers,
            ) == shown_lines(lines, first_line(input), end, config.line_numbers)
        }),
{
    let middle = first_line(next);
    let end = next_line(next, config, lines.len());
    assert(shown_lines(lines, first_line(input), middle, config.line_numbers) + shown_lines(
        lines,
        middle,
        end,
        config.line_numbers,
    ) =~= shown_lines(lines, first_line(input), end, config.line_numbers));
}

/// How many characters stand before a line that is shown with its number: the number, or the width
/// where that is more, a colon and a space.
pub open spec fn gutter(number: nat, width: nat) -> nat {
    if chars::decimal(number).len() < width {
        width + 2
    } else {
        chars::decimal(number).len() + 2
    }
}

/// Whether a text shows a line with its number before it, aligned to the right, and the line is
/// unchanged.
pub open spec fn shows(shown: Seq<char>, number: nat, width: nat, line: Seq<char>) -> bool {
    let before = gutter(number, width) as int;
    let digits = chars::decimal(number).len();
    &&& shown.len() == before + line.len()
    &&& shown.skip(before) == line
    &&& shown[before - 2] == ':'
    &&& shown[before - 1] == ' '
    &&& shown.subrange(before - 2 - digits, before - 2) == chars::decimal(number)
    &&& forall|i: int| 0 <= i < before - 2 - digits ==> #[trigger] shown[i] == ' '
}

/// A line is shown unchanged, behind its number where lines are numbered.
pub proof fn law_shown_line_ends_with_the_line(number: nat, width: nat, line: Seq<char>)
    ensures
        shows(shown_line(number, width, line, true), number, width, line),
        shown_line(number, width, line, false) == line,
{
    reveal_strlit(": ");
    chars::law_decimal_reads_back(number);
    let digits = chars::decimal(number);
    let before = gutter(number, width) as int;
    let shown = shown_line(number, width, line, true);
    assert(shown.skip(before) =~= line);
    assert(shown.subrange(before - 2 - digits.len(), before - 2) =~= digits);
}

/// How many lines a page shows: as many as are asked for, or as the tool allows where no number is
/// asked for, but no more than the tool allows, which is at least one, and no more than there are.
pub open spec fn page_size(input: ReadInput, config: ReadToolConfig, total: int, first: int) -> int {
    let most = if config.max_line_limit < 1 {
        1
    } else {
        config.max_line_limit as int
    };
    let wanted = match input.limit {
        Some(limit) if limit < most => limit as int,
        _ => most,
    };
    if wanted < total - first + 1 {
        wanted
    } else {
        total - first + 1
    }
}

/// A page is the path and, each in a line of its own, the lines of the file from the first one that
/// is asked for on, unchanged and with their own numbers. A note with the line to go on with stands
/// at the end just where lines of the file are left.
pub proof fn law_page_shows_lines_of_the_file(
    text: Seq<char>,
    input: ReadInput,
    config: ReadToolConfig,
)
    requires
        input.limit != Some(0usize),
        input.limit is None ==> config.max_line_limit > 0,
    ensures
        ({
            let lines = chars::lines(text);
            let total = lines.len() as int;
            let first = match input.offset {
                Some(offset) => offset as int,
                None => 1,
            };
            let size = page_size(input, config, total, first);
            1 <= first <= total ==> exists|shown: Seq<Seq<char>>|
                {
                    &&& shown.len() == size
                    &&& forall|i: int|
                        0 <= i < size ==> if config.line_numbers {
                            shows(
                                #[trigger] shown[i],
                                (first + i) as nat,
                                chars::decimal(total as nat).len(),
                                lines[first - 1 + i],
                            )
                        } else {
                            shown[i] == lines[first - 1 + i]
                        }
                    &&& page(text, input, config) == Ok::<Seq<char>, Seq<char>>(
                        input.path@ + "\n"@ + #[trigger] chars::join(shown, "\n"@) + if first + size
                            <= total {
                            "\n[truncated: reached line limit; continue with offset="@
                                + chars::decimal((first + size) as nat) + "]"@
                        } else {
                            Seq::empty()
                        },
                    )
                }
        }),
{
    let lines = chars::lines(text);
    let total = lines.len() as int;
    let first = first_line(input);
    if 1 <= first <= total {
        let size = page_size(input, config, total, first);
        let next = next_line(input, config, lines.len());
        assert(next == first + size);
        let shown = shown_lines(lines, first, next, config.line_numbers);
        assert forall|i: int| 0 <= i < size implies if config.line_numbers {
            shows(
                #[trigger] shown[i],
                (first + i) as nat,
                chars::decimal(total as nat).len(),
                lines[first - 1 + i],
            )
        } else {
            shown[i] == lines[first - 1 + i]
        } by {
            law_shown_line_ends_with_the_line(
                (first + i) as nat,
                chars::decimal(total as nat).len(),
                lines[first - 1 + i],
            );
        }
        let told = page(text, input, config)->Ok_0;
        let joined = chars::join(shown, "\n"@);
        if first + size <= total {
            assert(told =~= input.path@ + "\n"@ + joined + (
            "\n[truncated: reached line limit; continue with offset="@ + chars::decimal(
                (first + size) as nat,
            ) + "]"@));
        } else {
            assert(told =~= input.path@ + "\n"@ + joined + Seq::<char>::empty());
        }
    }
}

/// A page of no lines, or one from before the first line, is refused. A page behind the last line,
/// or of an empty file, tells that there is no content.
pub proof fn law_pages_without_lines_say_so(
    text: Seq<char>,
    input: ReadInput,
    config: ReadToolConfig,
)
    ensures
        page(text, input, config) is Err <==> input.offset == Some(0usize) || input.limit == Some(
            0usize,
        ) || (input.limit is None && config.max_line_limit == 0),
        input.offset == Some(0usize) ==> page(text, input, config) == Err::<Seq<char>, Seq<char>>(
            "offset must be greater than or equal to 1"@,
        ),
        input.offset != Some(0usize) && page(text, input, config) is Err ==> page(
            text,
            input,
            config,
        ) == Err::<Seq<char>, Seq<char>>("limit must be greater than or equal to 1"@),
        page(text, input, config) is Ok && chars::lines(text).len() == 0 ==> page(
            text,
            input,
            config,
        ) == Ok::<Seq<char>, Seq<char>>(input.path@ + " — no content: file is empty"@),
        page(text, input, config) is Ok && (input.offset matches Some(offset) && offset
            > chars::lines(text).len() > 0) ==> page(text, input, config) == Ok::<
            Seq<char>,
            Seq<char>,
        >(
            input.path@ + " — no content: offset "@ + chars::decimal(input.offset->0 as nat)
                + " is past end ("@ + chars::decimal(chars::lines(text).len()) + " lines)"@,
        ),
{
}

/// The first reading of a file gives an image as its bytes are, and anything else as a page of its
/// text; bytes that are no text are refused.
pub proof fn law_first_read_gives_the_content(
    cache: Map<Seq<char>, CacheView>,
    input: ReadInput,
    bytes: Seq<u8>,
    config: ReadToolConfig,
)
    requires
        !cache.contains_key(input.path@),
    ensures
        ({
            let result = read_result(cache, input, bytes, config);
            match image_kind(input.path@) {
                Some(mime_type) => result == Ok::<ContentView, Seq<char>>(
                    ContentView::Image(ImageView::Data { mime_type, data: bytes }),
                ),
                None => {
                    &&& !valid_utf8(bytes) ==> result == Err::<ContentView, Seq<char>>(
                        input.path@ + " is not valid UTF-8"@,
                    )
                    &&& valid_utf8(bytes) ==> match page(decode_utf8(bytes), input, config) {
                        Ok(text) => result == Ok::<ContentView, Seq<char>>(
                            ContentView::Text(text),
                        ),
                        Err(message) => result == Err::<ContentView, Seq<char>>(message),
                    }
                },
            }
        }),
{
}

/// A reading is kept for its own file alone, with what was asked for and what the file held.
pub proof fn law_each_file_has_its_own_last_read(
    cache: Map<Seq<char>, CacheView>,
    input: ReadInput,
    bytes: Seq<u8>,
    other: Seq<char>,
)
    ensures
        cache_after(cache, input, bytes)[input.path@].bytes == bytes,
        cache_after(cache, input, bytes)[input.path@].offset == input.offset,
        cache_after(cache, input, bytes)[input.path@].limit == input.limit,
        other != input.path@ ==> {
            &&& cache_after(cache, input, bytes).contains_key(other) == cache.contains_key(other)
            &&& cache.contains_key(other) ==> cache_after(cache, input, bytes)[other]
                == cache[other]
        },
{
}

proof fn lemma_last_slash_in_front(stem: Seq<char>, rest: Seq<char>, k: int)
    requires
        0 <= k <= rest.len(),
        forall|i: int| 0 <= i < rest.len() ==> #[trigger] rest[i] != '/',
    ensures
        paths::last_slash(stem + rest, stem.len() + k) == paths::last_slash(
            stem,
            stem.len() as int,
        ),
    decreases k,
{
    if k > 0 {
        lemma_last_slash_in_front(stem, rest, k - 1);
        assert((stem + rest)[stem.len() + k - 1] == rest[k - 1]);
    } else {
        lemma_last_slash_same(stem, stem + rest, stem.len() as int);
    }
}

proof fn lemma_last_slash_same(a: Seq<char>, b: Seq<char>, k: int)
    requires
        0 <= k <= a.len(),
        k <= b.len(),
        forall|i: int| 0 <= i < k ==> #[trigger] a[i] == b[i],
    ensures
        paths::last_slash(a, k) == paths::last_slash(b, k),
    decreases k,
{
    if k > 0 {
        lemma_last_slash_same(a, b, k - 1);
        assert(a[k - 1] == b[k - 1]);
    }
}

proof fn lemma_last_dot_is(name: Seq<char>, dot: int, k: int)
    requires
        0 <= dot < k <= name.len(),
        name[dot] == '.',
        forall|i: int| dot < i < k ==> #[trigger] name[i] != '.',
    ensures
        last_dot(name, k) == Some(dot),
    decreases k,
{
    if dot < k - 1 {
        assert(name[k - 1] != '.');
        lemma_last_dot_is(name, dot, k - 1);
    }
}

/// A file is an image by what stands behind the last dot of its name, in capitals or small letters,
/// wherever the file is.
pub proof fn law_images_are_known_by_extension(stem: Seq<char>, extension: Seq<char>)
    requires
        stem.len() > 0,
        stem.last() != '/',
        extension.len() > 0,
        forall|i: int|
            0 <= i < extension.len() ==> #[trigger] extension[i] != '/' && extension[i] != '.',
    ensures
        ({
            let kind = image_kind(stem + seq!['.'] + extension);
            let lower = chars::lowered(extension);
            &&& lower == "png"@ ==> kind == Some("image/png"@)
            &&& lower == "jpg"@ ==> kind == Some("image/jpeg"@)
            &&& lower == "jpeg"@ ==> kind == Some("image/jpeg"@)
            &&& lower == "gif"@ ==> kind == Some("image/gif"@)
            &&& lower == "webp"@ ==> kind == Some("image/webp"@)
            &&& kind is Some ==> lower == "png"@ || lower == "jpg"@ || lower == "jpeg"@ || lower
                == "gif"@ || lower == "webp"@
        }),
{
    reveal_strlit("png");
    reveal_strlit("jpg");
    reveal_strlit("jpeg");
    reveal_strlit("gif");
    reveal_strlit("webp");
    let rest = seq!['.'] + extension;
    let path = stem + seq!['.'] + extension;
    assert(path =~= stem + rest);
    assert forall|i: int| 0 <= i < rest.len() implies #[trigger] rest[i] != '/' by {
        if i > 0 {
            assert(rest[i] == extension[i - 1]);
        }
    }
    lemma_last_slash_in_front(stem, rest, rest.len() as int);
    assert(path[path.len() - 1] == extension[extension.len() - 1]);
    let name = named_part(path);
    assert(name == paths::file_name_of(path));
    paths::lemma_last_slash_bound(stem, stem.len() as int);
    let start = match paths::last_slash(stem, stem.len() as int) {
        Some(i) => i + 1,
        None => 0,
    };
    assert(start < stem.len()) by {
        if start == stem.len() {
            assert(stem[start - 1] == '/');
        }
    }
    assert(name =~= path.skip(start));
    let dot = stem.len() - start;
    assert(name[dot] == '.');
    assert forall|i: int| dot < i < name.len() implies #[trigger] name[i] != '.' by {
        assert(name[i] == extension[i - dot - 1]);
    }
    lemma_last_dot_is(name, dot, name.len() as int);
    assert(name != seq!['.', '.']) by {
        assert(name.last() == extension.last());
        assert(extension[extension.len() - 1] != '.');
    }
    assert(name.skip(dot + 1) =~= extension);
    assert(extension_of(path) == Some(extension));
    let lower = chars::lowered(extension);
    assert("jpg"@[0] != "png"@[0] && "jpg"@[0] != "gif"@[0] && "jpg"@[0] != "webp"@[0]);
    assert("jpeg"@[0] != "png"@[0] && "jpeg"@[0] != "gif"@[0] && "jpeg"@[0] != "webp"@[0]);
    assert("png"@[0] != "gif"@[0] && "png"@[0] != "webp"@[0] && "gif"@[0] != "webp"@[0]);
}

/// The description tells the greatest number of lines that a call gives, and that lines are numbered
/// just where they are.
pub proof fn law_description_tells_the_limit(config: ReadToolConfig)
    ensures
        config.line_numbers ==> exists|before: Seq<char>|
            description_of(config) == #[trigger] (before + "(max "@ + chars::decimal(
                config.max_line_limit as nat,
            ) + " lines per call)"@ + "; output is line-numbered"@ + "."@),
        !config.line_numbers ==> exists|before: Seq<char>|
            description_of(config) == #[trigger] (before + "(max "@ + chars::decimal(
                config.max_line_limit as nat,
            ) + " lines per call)"@ + "."@),
{
    reveal_strlit("(max ");
    reveal_strlit("Read a text or image file. Supports 1-based offset/limit pagination (max ");
    reveal_strlit("");
    let whole = "Read a text or image file. Supports 1-based offset/limit pagination (max "@;
    let before = whole.take(whole.len() - 5);
    assert(whole =~= before + "(max "@);
    let limit = chars::decimal(config.max_line_limit as nat);
    if config.line_numbers {
        assert(description_of(config) =~= before + "(max "@ + limit + " lines per call)"@
            + "; output is line-numbered"@ + "."@);
    } else {
        assert(description_of(config) =~= before + "(max "@ + limit + " lines per call)"@ + "."@);
    }
}

} // verus!
