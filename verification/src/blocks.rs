//! How the blocks of the conversation are shown: as lines of styled text and images.

use crate::chars;
use crate::fold;
use crate::fold::{FoldHint, FoldedText};
use crate::geometry::Padding;
use crate::images;
use crate::images::image_source;
use crate::markdown;
use crate::markdown::{MarkdownPreview, MarkdownStyles};
use crate::message;
use crate::message::{ContentView, ImageContent, ImageView, InputContent, ToolResultStatus};
use crate::state;
use crate::state::{AssistantItem, BlockKind, BlockState, ToolBlockState};
use crate::style;
use crate::style::{Color, Line, Span, SpanView, Style};
use syntect::easy::HighlightLines;
use syntect::highlighting::{FontStyle, Theme, ThemeSet};
use syntect::parsing::SyntaxSet;
use vstd::prelude::*;

verus! {

pub const MAX_COLLAPSED_LINES: usize = 14;

/// The padding of a block: one cell on each side.
pub open spec fn padding() -> Padding {
    Padding { left: 1, right: 1, top: 1, bottom: 1 }
}

pub fn block_padding() -> (padding: Padding)
    ensures
        padding == self::padding(),
{
    Padding { left: 1, right: 1, top: 1, bottom: 1 }
}

/// A line of a block; one that is not trimmed keeps the white space at the start of its rows.
#[derive(Debug)]
pub struct BlockLine {
    pub line: Line,
    pub trim: bool,
}

impl BlockLine {
    pub fn new(line: Line) -> (block_line: BlockLine)
        ensures
            block_line == (BlockLine { line, trim: true }),
    {
        BlockLine { line, trim: true }
    }

    pub fn preserve_whitespace(line: Line) -> (block_line: BlockLine)
        ensures
            block_line == (BlockLine { line, trim: false }),
    {
        BlockLine { line, trim: false }
    }

    pub fn line(&self) -> (line: &Line)
        ensures
            *line == self.line,
    {
        &self.line
    }

    pub fn trim(&self) -> (trim: bool)
        ensures
            trim == self.trim,
    {
        self.trim
    }
}

/// A part of a block.
#[derive(Debug)]
pub enum BlockSegment {
    Line(BlockLine),
    Image(ImageContent),
}

/// A part of a block, as plain values.
pub enum SegmentView {
    Line { line: Seq<SpanView>, trim: bool },
    Image(ImageView),
}

impl View for BlockSegment {
    type V = SegmentView;

    open spec fn view(&self) -> SegmentView {
        match self {
            BlockSegment::Line(line) => SegmentView::Line { line: line.line@, trim: line.trim },
            BlockSegment::Image(image) => SegmentView::Image(image@),
        }
    }
}

pub open spec fn segment_views(segments: Seq<BlockSegment>) -> Seq<SegmentView> {
    Seq::new(segments.len(), |i: int| segments[i]@)
}

proof fn lemma_segment_views_push(segments: Seq<BlockSegment>, segment: BlockSegment)
    ensures
        segment_views(segments.push(segment)) == segment_views(segments).push(segment@),
{
    assert(segment_views(segments.push(segment)) =~= segment_views(segments).push(segment@));
}

/// The line that stands for a part of a block: the line itself, or the placeholder of an image.
pub open spec fn segment_line(segment: SegmentView) -> Seq<SpanView> {
    match segment {
        SegmentView::Line { line, .. } => line,
        SegmentView::Image(image) => style::styled_line(
            images::image_placeholder(image),
            image_style_spec(),
        ),
    }
}

impl BlockSegment {
    fn line(line: Line) -> (segment: BlockSegment)
        ensures
            segment@ == (SegmentView::Line { line: line@, trim: true }),
    {
        BlockSegment::Line(BlockLine::new(line))
    }

    fn preformatted_line(line: Line) -> (segment: BlockSegment)
        ensures
            segment@ == (SegmentView::Line { line: line@, trim: false }),
    {
        BlockSegment::Line(BlockLine::preserve_whitespace(line))
    }

    pub fn into_line(self) -> (line: Line)
        ensures
            line@ == segment_line(self@),
    {
        match self {
            BlockSegment::Line(line) => line.line,
            BlockSegment::Image(image) => Line::styled(
                image_placeholder_text(&image),
                image_style(),
            ),
        }
    }
}

pub fn image_placeholder_text(image: &ImageContent) -> (text: String)
    ensures
        text@ == images::image_placeholder(image@),
{
    image_source(image).placeholder_text()
}

/// Appends parts to parts.
fn append_segments(segments: &mut Vec<BlockSegment>, more: Vec<BlockSegment>)
    ensures
        segment_views(final(segments)@) == segment_views(old(segments)@) + segment_views(more@),
{
    let ghost before = segments@;
    let ghost added = more@;
    let mut more = more;
    segments.append(&mut more);
    assert(segment_views(segments@) =~= segment_views(before) + segment_views(added));
}

/// Lines as parts of a block.
pub open spec fn line_segments(lines: Seq<Seq<SpanView>>, trim: bool) -> Seq<SegmentView> {
    Seq::new(lines.len(), |i: int| SegmentView::Line { line: lines[i], trim })
}

fn segments_of_lines(lines: Vec<Line>, trim: bool) -> (segments: Vec<BlockSegment>)
    ensures
        segment_views(segments@) == line_segments(style::line_views(lines@), trim),
{
    let ghost all = lines@;
    let ghost expected = line_segments(style::line_views(all), trim);
    let mut segments: Vec<BlockSegment> = Vec::new();
    assert(segment_views(segments@) =~= expected.take(0));
    for line in iter: lines
        invariant
            iter.seq() == all,
            expected == line_segments(style::line_views(all), trim),
            segment_views(segments@) == expected.take(iter.index() as int),
    {
        let ghost i = iter.index() as int;
        assert(line == all[i]);
        let segment = BlockSegment::Line(BlockLine { line, trim });
        proof {
            lemma_segment_views_push(segments@, segment);
        }
        segments.push(segment);
        assert(segment_views(segments@) =~= expected.take(i + 1));
    }
    assert(expected.take(expected.len() as int) =~= expected);
    segments
}

/// The name of a language: what stands before white space, a comma or a brace, without dots at its
/// ends.
pub open spec fn language_token_spec(language: Seq<char>) -> Option<Seq<char>> {
    let text = chars::trimmed(language);
    let piece = text.take(
        chars::leading(text, |c: char| !ends_language(c)) as int,
    );
    let token = chars::trimmed_of(piece, |c: char| c == '.');
    if token.len() > 0 {
        Some(token)
    } else {
        None
    }
}

pub open spec fn ends_language(c: char) -> bool {
    chars::is_white_space(c) || c == ',' || c == '{'
}

fn language_token(language: &str) -> (token: Option<Vec<char>>)
    ensures
        match token {
            Some(token) => language_token_spec(language@) == Some(token@),
            None => language_token_spec(language@) is None,
        },
{
    let text = chars::trim_chars(&chars::chars_of(language));
    let ghost inside = |c: char| !ends_language(c);
    let mut piece: Vec<char> = Vec::new();
    let mut i: usize = 0;
    assert(text@.skip(0) =~= text@);
    while i < text.len() && !(text[i].is_whitespace() || text[i] == ',' || text[i] == '{')
        invariant
            i <= text@.len(),
            inside == (|c: char| !ends_language(c)),
            piece@ == text@.take(i as int),
            chars::leading(text@, inside) == i + chars::leading(text@.skip(i as int), inside),
        decreases text@.len() - i,
    {
        piece.push(text[i]);
        assert(text@.skip(i as int).drop_first() =~= text@.skip(i + 1));
        i = i + 1;
        assert(piece@ =~= text@.take(i as int));
    }
    assert(chars::leading(text@, inside) == i) by {
        if i < text@.len() {
            assert(text@.skip(i as int)[0] == text@[i as int]);
        }
    }
    let is_dot = |c: char| -> (dot: bool)
        ensures
            (dot == (c == '.')),
        { c == '.' };
    let token = chars::trim_matching(&piece, is_dot, Ghost(|c: char| c == '.'));
    if token.len() > 0 {
        Some(token)
    } else {
        None
    }
}

/// Another name under which a language is known.
pub open spec fn language_alias_spec(token: Seq<char>) -> Option<Seq<char>> {
    let name = chars::lowered(token);
    if name == "shell"@ || name == "shell-script"@ || name == "sh"@ || name == "zsh"@ {
        Some("bash"@)
    } else if name == "js"@ || name == "jsx"@ {
        Some("javascript"@)
    } else if name == "ts"@ || name == "tsx"@ {
        Some("typescript"@)
    } else if name == "jsonc"@ {
        Some("json"@)
    } else if name == "yml"@ {
        Some("yaml"@)
    } else if name == "md"@ {
        Some("markdown"@)
    } else {
        None
    }
}

fn language_alias(token: &Vec<char>) -> (alias: Option<&'static str>)
    ensures
        match alias {
            Some(alias) => language_alias_spec(token@) == Some(alias@),
            None => language_alias_spec(token@) is None,
        },
{
    let lower = chars::lower_chars(token);
    let text = chars::text_of(lower.as_slice(), 0, lower.len());
    let name = text.as_str();
    assert(name@ =~= chars::lowered(token@));
    if chars::same_text(name, "shell") || chars::same_text(name, "shell-script")
        || chars::same_text(name, "sh") || chars::same_text(name, "zsh") {
        Some("bash")
    } else if chars::same_text(name, "js") || chars::same_text(name, "jsx") {
        Some("javascript")
    } else if chars::same_text(name, "ts") || chars::same_text(name, "tsx") {
        Some("typescript")
    } else if chars::same_text(name, "jsonc") {
        Some("json")
    } else if chars::same_text(name, "yml") {
        Some("yaml")
    } else if chars::same_text(name, "md") {
        Some("markdown")
    } else {
        None
    }
}

/// Whether a language is Markdown.
pub open spec fn is_markdown_spec(language: Seq<char>) -> bool {
    match language_token_spec(language) {
        Some(token) => chars::lowered(token) == "markdown"@ || chars::lowered(token) == "md"@,
        None => false,
    }
}

fn is_markdown_language(language: &str) -> (is_markdown: bool)
    ensures
        is_markdown == is_markdown_spec(language@),
{
    match language_token(language) {
        Some(token) => {
            let lower = chars::lower_chars(&token);
            let name = chars::text_of(lower.as_slice(), 0, lower.len());
            assert(name@ =~= chars::lowered(token@));
            chars::same_text(name.as_str(), "markdown") || chars::same_text(name.as_str(), "md")
        },
        None => false,
    }
}

/// A fence: a line of three backticks, perhaps with a language. Gives the language, if any.
pub open spec fn fence(line: Seq<char>) -> Option<Option<Seq<char>>> {
    let text = chars::trimmed(line);
    if !chars::occurs_at(text, seq!['`', '`', '`'], 0) {
        None
    } else {
        let rest = text.skip(3);
        if rest.len() > 0 && rest[0] == '`' {
            None
        } else {
            let language = chars::trimmed(rest);
            if language.len() > 0 {
                Some(Some(language))
            } else {
                Some(None)
            }
        }
    }
}

fn fence_language(line: &str) -> (found: Option<Option<String>>)
    ensures
        match found {
            Some(language) => fence(line@) == Some(state::optional_text(language)),
            None => fence(line@) is None,
        },
{
    let text = chars::trim_chars(&chars::chars_of(line));
    let mut ticks: Vec<char> = Vec::new();
    ticks.push('`');
    ticks.push('`');
    ticks.push('`');
    assert(ticks@ =~= seq!['`', '`', '`']);
    if !chars::matches_at(&text, &ticks, 0) {
        return None;
    }
    let mut rest: Vec<char> = Vec::new();
    let mut i: usize = 3;
    while i < text.len()
        invariant
            3 <= i <= text@.len(),
            rest@ == text@.subrange(3, i as int),
        decreases text@.len() - i,
    {
        rest.push(text[i]);
        i = i + 1;
        assert(rest@ =~= text@.subrange(3, i as int));
    }
    assert(rest@ =~= text@.skip(3));
    if rest.len() > 0 && rest[0] == '`' {
        return None;
    }
    let language = chars::trim_chars(&rest);
    if language.len() > 0 {
        let text = chars::text_of(language.as_slice(), 0, language.len());
        assert(text@ =~= language@);
        Some(Some(text))
    } else {
        Some(None)
    }
}

/// A part of an answer: Markdown text, a fenced piece of Markdown, or a fenced piece of code.
#[derive(Debug, PartialEq, Eq)]
pub enum FenceNode {
    MarkdownText(String),
    Markdown { children: Vec<FenceNode> },
    Code { language: Option<String>, text: String },
}

/// A part of an answer, as plain values.
pub enum NodeView {
    Text(Seq<char>),
    Markdown(Seq<NodeView>),
    Code { language: Option<Seq<char>>, text: Seq<char> },
}

pub open spec fn node_view(node: FenceNode) -> NodeView
    decreases node,
{
    match node {
        FenceNode::MarkdownText(text) => NodeView::Text(text@),
        FenceNode::Markdown { children } => NodeView::Markdown(
            Seq::new(
                children@.len(),
                |i: int|
                    if 0 <= i < children@.len() {
                        node_view(children@[i])
                    } else {
                        NodeView::Text(Seq::empty())
                    },
            ),
        ),
        FenceNode::Code { language, text } => NodeView::Code {
            language: state::optional_text(language),
            text: text@,
        },
    }
}

pub open spec fn node_views(nodes: Seq<FenceNode>) -> Seq<NodeView> {
    Seq::new(nodes.len(), |i: int| node_view(nodes[i]))
}

proof fn lemma_node_views_push(nodes: Seq<FenceNode>, node: FenceNode)
    ensures
        node_views(nodes.push(node)) == node_views(nodes).push(node_view(node)),
{
    assert(node_views(nodes.push(node)) =~= node_views(nodes).push(node_view(node)));
}

proof fn lemma_markdown_view(children: Vec<FenceNode>)
    ensures
        node_view(FenceNode::Markdown { children }) == NodeView::Markdown(
            node_views(children@),
        ),
{
    let view = node_view(FenceNode::Markdown { children });
    assert(view->Markdown_0 =~= node_views(children@));
}

/// The line after which a fenced piece of code ends, from line `from` on: a bare fence, or the end
/// of the text.
pub open spec fn code_end(lines: Seq<Seq<char>>, from: int) -> int
    decreases lines.len() - from,
{
    if from >= lines.len() {
        lines.len() as int
    } else if fence(lines[from]) == Some(None::<Seq<char>>) {
        from
    } else {
        code_end(lines, from + 1)
    }
}

/// The line after a piece of code whose fence is line `from` and which ends at line `end`.
pub open spec fn after_code(lines: Seq<Seq<char>>, from: int, end: int) -> int {
    if end >= lines.len() {
        lines.len() as int
    } else if end < from {
        from + 1
    } else {
        end + 1
    }
}

/// The nodes with the Markdown text that was gathered, if there is any.
pub open spec fn with_text(nodes: Seq<NodeView>, text: Seq<Seq<char>>) -> Seq<NodeView> {
    if text.len() > 0 {
        nodes.push(NodeView::Text(chars::join(text, "\n"@)))
    } else {
        nodes
    }
}

/// Reads Markdown from line `from` on, after `nodes` and the lines `text`; gives the nodes, and the
/// line after them. Inside a fence a bare fence ends it; elsewhere it starts a piece of code. A
/// fence with a language starts a piece of that language, and Markdown nests.
pub open spec fn read_markdown(
    lines: Seq<Seq<char>>,
    from: int,
    is_root: bool,
    nodes: Seq<NodeView>,
    text: Seq<Seq<char>>,
) -> (Seq<NodeView>, int)
    decreases
        (if lines.len() > from {
            lines.len() - from
        } else {
            0
        }),
{
    if from < 0 || from >= lines.len() {
        (with_text(nodes, text), from)
    } else {
        match fence(lines[from]) {
            None => read_markdown(lines, from + 1, is_root, nodes, text.push(lines[from])),
            Some(language) => if language is None && !is_root {
                (with_text(nodes, text), from + 1)
            } else if language matches Some(language) && is_markdown_spec(language) {
                let (children, after) = read_markdown(
                    lines,
                    from + 1,
                    false,
                    Seq::empty(),
                    Seq::empty(),
                );
                read_markdown(
                    lines,
                    if after > from {
                        after
                    } else {
                        from + 1
                    },
                    is_root,
                    with_text(nodes, text).push(NodeView::Markdown(children)),
                    Seq::empty(),
                )
            } else {
                let end = code_end(lines, from + 1);
                read_markdown(
                    lines,
                    after_code(lines, from, end),
                    is_root,
                    with_text(nodes, text).push(
                        NodeView::Code {
                            language,
                            text: chars::join(lines.subrange(from + 1, end), "\n"@),
                        },
                    ),
                    Seq::empty(),
                )
            },
        }
    }
}

/// The parts of an answer.
pub open spec fn fence_tree(text: Seq<char>) -> Seq<NodeView> {
    read_markdown(chars::lines(text), 0, true, Seq::empty(), Seq::empty()).0
}

proof fn lemma_code_end(lines: Seq<Seq<char>>, from: int)
    requires
        0 <= from <= lines.len(),
    ensures
        from <= code_end(lines, from) <= lines.len(),
    decreases lines.len() - from,
{
    if from < lines.len() && fence(lines[from]) != Some(None::<Seq<char>>) {
        lemma_code_end(lines, from + 1);
    }
}

proof fn lemma_read_markdown_advances(
    lines: Seq<Seq<char>>,
    from: int,
    is_root: bool,
    nodes: Seq<NodeView>,
    text: Seq<Seq<char>>,
)
    requires
        0 <= from,
    ensures
        from <= read_markdown(lines, from, is_root, nodes, text).1,
    decreases
        (if lines.len() > from {
            lines.len() - from
        } else {
            0
        }),
{
    if from < lines.len() {
        match fence(lines[from]) {
            None => {
                lemma_read_markdown_advances(
                    lines,
                    from + 1,
                    is_root,
                    nodes,
                    text.push(lines[from]),
                );
            },
            Some(language) => {
                if language is None && !is_root {
                } else if language matches Some(language) && is_markdown_spec(language) {
                    let (children, after) = read_markdown(
                        lines,
                        from + 1,
                        false,
                        Seq::empty(),
                        Seq::empty(),
                    );
                    let next = if after > from {
                        after
                    } else {
                        from + 1
                    };
                    lemma_read_markdown_advances(
                        lines,
                        next,
                        is_root,
                        with_text(nodes, text).push(NodeView::Markdown(children)),
                        Seq::empty(),
                    );
                } else {
                    let end = code_end(lines, from + 1);
                    lemma_code_end(lines, from + 1);
                    lemma_read_markdown_advances(
                        lines,
                        after_code(lines, from, end),
                        is_root,
                        with_text(nodes, text).push(
                            NodeView::Code {
                                language,
                                text: chars::join(lines.subrange(from + 1, end), "\n"@),
                            },
                        ),
                        Seq::empty(),
                    );
                }
            },
        }
    }
}

pub fn parse_fence_tree(text: &str) -> (nodes: Vec<FenceNode>)
    ensures
        node_views(nodes@) == fence_tree(text@),
{
    let lines = chars::split_lines(text);
    let (nodes, _) = parse_markdown_fence_nodes(&lines, 0, true);
    nodes
}

fn flush_markdown_text(nodes: &mut Vec<FenceNode>, text_lines: &mut Vec<String>)
    ensures
        node_views(final(nodes)@) == with_text(
            node_views(old(nodes)@),
            chars::texts(old(text_lines)@),
        ),
        final(text_lines)@ == Seq::<String>::empty(),
{
    if text_lines.len() == 0 {
        assert(text_lines@ =~= Seq::<String>::empty());
        return;
    }
    let node = FenceNode::MarkdownText(chars::join_texts(text_lines, "\n"));
    proof {
        lemma_node_views_push(nodes@, node);
    }
    nodes.push(node);
    text_lines.clear();
}

fn parse_markdown_fence_nodes(lines: &Vec<String>, from: usize, is_root: bool) -> (read: (
    Vec<FenceNode>,
    usize,
))
    requires
        from <= lines@.len(),
    ensures
        node_views(read.0@) == read_markdown(
            chars::texts(lines@),
            from as int,
            is_root,
            Seq::empty(),
            Seq::empty(),
        ).0,
        read.1 == read_markdown(
            chars::texts(lines@),
            from as int,
            is_root,
            Seq::empty(),
            Seq::empty(),
        ).1,
        from <= read.1 <= lines@.len(),
    decreases lines@.len() - from,
{
    let ghost views = chars::texts(lines@);
    let ghost expected = read_markdown(views, from as int, is_root, Seq::empty(), Seq::empty());
    let mut nodes: Vec<FenceNode> = Vec::new();
    let mut text_lines: Vec<String> = Vec::new();
    let mut cursor: usize = from;
    assert(node_views(nodes@) =~= Seq::<NodeView>::empty());
    assert(chars::texts(text_lines@) =~= Seq::<Seq<char>>::empty());
    while cursor < lines.len()
        invariant
            from <= cursor <= lines@.len(),
            views == chars::texts(lines@),
            expected == read_markdown(views, from as int, is_root, Seq::empty(), Seq::empty()),
            expected == read_markdown(
                views,
                cursor as int,
                is_root,
                node_views(nodes@),
                chars::texts(text_lines@),
            ),
        decreases lines@.len() - cursor,
    {
        assert(views[cursor as int] == lines@[cursor as int]@);
        match fence_language(lines[cursor].as_str()) {
            None => {
                let line = lines[cursor].clone();
                proof {
                    chars::lemma_texts_push(text_lines@, line);
                }
                text_lines.push(line);
                cursor = cursor + 1;
            },
            Some(language) => {
                if language.is_none() && !is_root {
                    flush_markdown_text(&mut nodes, &mut text_lines);
                    return (nodes, cursor + 1);
                }
                flush_markdown_text(&mut nodes, &mut text_lines);
                assert(chars::texts(text_lines@) =~= Seq::<Seq<char>>::empty());
                let nested = match &language {
                    Some(language) => is_markdown_language(language.as_str()),
                    None => false,
                };
                if nested {
                    let (children, after) = parse_markdown_fence_nodes(lines, cursor + 1, false);
                    proof {
                        lemma_markdown_view(children);
                    }
                    let node = FenceNode::Markdown { children };
                    proof {
                        lemma_node_views_push(nodes@, node);
                    }
                    nodes.push(node);
                    cursor = after;
                } else {
                    let (node, after) = parse_code_fence_node(lines, cursor + 1, language);
                    proof {
                        lemma_code_end(views, cursor + 1);
                        lemma_node_views_push(nodes@, node);
                    }
                    nodes.push(node);
                    cursor = after;
                }
            },
        }
    }
    flush_markdown_text(&mut nodes, &mut text_lines);
    (nodes, cursor)
}

fn parse_code_fence_node(lines: &Vec<String>, from: usize, language: Option<String>) -> (read: (
    FenceNode,
    usize,
))
    requires
        0 < from <= lines@.len(),
    ensures
        ({
            let views = chars::texts(lines@);
            let end = code_end(views, from as int);
            &&& node_view(read.0) == (NodeView::Code {
                language: state::optional_text(language),
                text: chars::join(views.subrange(from as int, end), "\n"@),
            })
            &&& read.1 == after_code(views, from - 1, end)
            &&& from <= read.1 <= lines@.len()
        }),
{
    let ghost views = chars::texts(lines@);
    let mut text_lines: Vec<String> = Vec::new();
    let mut cursor: usize = from;
    let mut after: usize = lines.len();
    proof {
        lemma_code_end(views, from as int);
    }
    assert(chars::texts(text_lines@) =~= views.subrange(from as int, from as int));
    while cursor < lines.len()
        invariant_except_break
            after == lines@.len(),
        invariant
            0 < from <= cursor <= lines@.len(),
            views == chars::texts(lines@),
            code_end(views, from as int) == code_end(views, cursor as int),
            chars::texts(text_lines@) == views.subrange(from as int, cursor as int),
        ensures
            cursor == code_end(views, from as int),
            after == after_code(views, from - 1, cursor as int),
        decreases lines@.len() - cursor,
    {
        assert(views[cursor as int] == lines@[cursor as int]@);
        let closes = match fence_language(lines[cursor].as_str()) {
            Some(language) => language.is_none(),
            None => false,
        };
        if closes {
            after = cursor + 1;
            break;
        }
        let line = lines[cursor].clone();
        proof {
            chars::lemma_texts_push(text_lines@, line);
        }
        text_lines.push(line);
        cursor = cursor + 1;
        assert(chars::texts(text_lines@) =~= views.subrange(from as int, cursor as int));
    }
    (FenceNode::Code { language, text: chars::join_texts(&text_lines, "\n") }, after)
}

pub open spec fn user_style_spec() -> Style {
    Style {
        fg: Some(Color::Gray),
        bg: Some(Color::Rgb(70, 70, 70)),
        ..style::plain()
    }
}

pub fn user_style() -> (style: Style)
    ensures
        style == user_style_spec(),
{
    Style::default().fg(Color::Gray).bg(Color::Rgb(70, 70, 70))
}

pub open spec fn thinking_style_spec() -> Style {
    Style { fg: Some(Color::DarkGray), italic: true, ..style::plain() }
}

fn thinking_style() -> (style: Style)
    ensures
        style == thinking_style_spec(),
{
    Style::default().fg(Color::DarkGray).italic()
}

pub open spec fn tool_block_style_spec(result: Option<ToolResultStatus>) -> Style {
    match result {
        Some(ToolResultStatus::Success) => Style {
            fg: Some(Color::White),
            bg: Some(Color::Rgb(45, 55, 45)),
            ..style::plain()
        },
        Some(ToolResultStatus::Error) => Style {
            fg: Some(Color::White),
            bg: Some(Color::Rgb(60, 45, 45)),
            ..style::plain()
        },
        None => Style {
            fg: Some(Color::Gray),
            bg: Some(Color::Rgb(24, 45, 48)),
            ..style::plain()
        },
    }
}

fn tool_block_style(result: Option<ToolResultStatus>) -> (style: Style)
    ensures
        style == tool_block_style_spec(result),
{
    match result {
        Some(ToolResultStatus::Success) => Style::default().fg(Color::White).bg(
            Color::Rgb(45, 55, 45),
        ),
        Some(ToolResultStatus::Error) => Style::default().fg(Color::White).bg(
            Color::Rgb(60, 45, 45),
        ),
        None => Style::default().fg(Color::Gray).bg(Color::Rgb(24, 45, 48)),
    }
}

pub open spec fn tool_header_style_spec() -> Style {
    Style { fg: Some(Color::Cyan), bold: true, ..style::plain() }
}

pub open spec fn error_block_style_spec() -> Style {
    Style { fg: Some(Color::White), bg: Some(Color::Rgb(70, 35, 35)), ..style::plain() }
}

pub open spec fn error_text_style_spec() -> Style {
    Style { fg: Some(Color::LightRed), ..style::plain() }
}

fn error_text_style() -> (style: Style)
    ensures
        style == error_text_style_spec(),
{
    Style::default().fg(Color::LightRed)
}

pub open spec fn command_block_style_spec(is_error: bool) -> Style {
    if is_error {
        Style { fg: Some(Color::White), bg: Some(Color::Rgb(52, 34, 34)), ..style::plain() }
    } else {
        Style { fg: Some(Color::Gray), bg: Some(Color::Rgb(28, 32, 36)), ..style::plain() }
    }
}

fn command_block_style(is_error: bool) -> (style: Style)
    ensures
        style == command_block_style_spec(is_error),
{
    if is_error {
        Style::default().fg(Color::White).bg(Color::Rgb(52, 34, 34))
    } else {
        Style::default().fg(Color::Gray).bg(Color::Rgb(28, 32, 36))
    }
}

pub open spec fn command_text_style_spec(is_error: bool) -> Style {
    if is_error {
        Style { fg: Some(Color::LightRed), ..style::plain() }
    } else {
        Style { fg: Some(Color::DarkGray), ..style::plain() }
    }
}

fn command_text_style(is_error: bool) -> (style: Style)
    ensures
        style == command_text_style_spec(is_error),
{
    if is_error {
        Style::default().fg(Color::LightRed)
    } else {
        Style::default().fg(Color::DarkGray)
    }
}

pub open spec fn tool_divider_style_spec() -> Style {
    Style { fg: Some(Color::Gray), ..style::plain() }
}

fn markdown_styles() -> (styles: MarkdownStyles)
    ensures
        styles == markdown::default_styles(),
{
    MarkdownStyles::default()
}

pub open spec fn image_style_spec() -> Style {
    Style { fg: Some(Color::DarkGray), italic: true, ..style::plain() }
}

fn image_style() -> (style: Style)
    ensures
        style == image_style_spec(),
{
    Style::default().fg(Color::DarkGray).italic()
}

pub open spec fn fold_hint_style_spec() -> Style {
    Style { fg: Some(Color::DarkGray), ..style::plain() }
}

/// The style of the area that a block covers.
pub open spec fn container_style(kind: state::KindView) -> Style {
    match kind {
        state::KindView::User { .. } => user_style_spec(),
        state::KindView::Thinking { .. } => thinking_style_spec(),
        state::KindView::Assistant { .. } => style::plain(),
        state::KindView::Error { .. } => error_block_style_spec(),
        state::KindView::Command { is_error, .. } => command_block_style_spec(is_error),
        state::KindView::Tool(tool) => tool_block_style_spec(
            match tool.result {
                Some(result) => Some(result.status),
                None => None,
            },
        ),
    }
}

pub fn block_container_style(block: &BlockState) -> (style: Style)
    ensures
        style == container_style(block@.kind),
{
    match &block.kind {
        BlockKind::User { .. } => user_style(),
        BlockKind::Thinking { .. } => thinking_style(),
        BlockKind::Assistant { .. } => Style::default(),
        BlockKind::Error { .. } => Style::default().fg(Color::White).bg(Color::Rgb(70, 35, 35)),
        BlockKind::Command { is_error, .. } => command_block_style(*is_error),
        BlockKind::Tool(tool) => match &tool.result {
            Some(result) => tool_block_style(Some(result.status)),
            None => tool_block_style(None),
        },
    }
}

/// `syntect`'s set of syntax definitions.
#[verifier::external_type_specification]
#[verifier::external_body]
pub struct ExSyntaxSet(syntect::parsing::SyntaxSet);

/// `syntect`'s colour theme.
#[verifier::external_type_specification]
#[verifier::external_body]
pub struct ExTheme(syntect::highlighting::Theme);

/// A piece of highlighted code.
#[derive(Debug)]
pub struct HighlightedSpan {
    pub r: u8,
    pub g: u8,
    pub b: u8,
    pub bold: bool,
    pub italic: bool,
    pub underline: bool,
    pub text: String,
}

/// A piece of highlighted code, as plain values.
pub struct HighlightView {
    pub r: u8,
    pub g: u8,
    pub b: u8,
    pub bold: bool,
    pub italic: bool,
    pub underline: bool,
    pub text: Seq<char>,
}

impl View for HighlightedSpan {
    type V = HighlightView;

    open spec fn view(&self) -> HighlightView {
        HighlightView {
            r: self.r,
            g: self.g,
            b: self.b,
            bold: self.bold,
            italic: self.italic,
            underline: self.underline,
            text: self.text@,
        }
    }
}

pub open spec fn highlight_views(spans: Seq<HighlightedSpan>) -> Seq<HighlightView> {
    Seq::new(spans.len(), |i: int| spans[i]@)
}

pub open spec fn highlight_lines_view(lines: Seq<Vec<HighlightedSpan>>) -> Seq<
    Seq<HighlightView>,
> {
    Seq::new(lines.len(), |i: int| highlight_views(lines[i]@))
}

/// Whether syntax definitions are the ones that come with `syntect`, for lines without line breaks.
pub uninterp spec fn is_default_set(set: SyntaxSet) -> bool;

/// The theme that code is shown in.
pub const CODE_THEME: &'static str = "base16-ocean.dark";

/// The name under which a theme comes with `syntect`.
pub uninterp spec fn theme_name(theme: Theme) -> Seq<char>;

/// Whether `syntect`'s default syntaxes hold one for a token.
pub uninterp spec fn has_syntax(token: Seq<char>) -> bool;

/// How `syntect` highlights consecutive lines in a theme and the syntax of a token; nothing where
/// there is no such syntax or a line cannot be highlighted.
pub uninterp spec fn highlighted(
    theme: Seq<char>,
    token: Seq<char>,
    lines: Seq<Seq<char>>,
) -> Option<Seq<Seq<HighlightView>>>;

/// `SyntaxSet::load_defaults_nonewlines`: the syntaxes that come with `syntect`.
#[verifier::external_body]
fn load_syntaxes() -> (set: SyntaxSet)
    ensures
        is_default_set(set),
{
    SyntaxSet::load_defaults_nonewlines()
}

/// Whether `syntect` lists a theme with a name among those that come with it.
pub open spec fn is_listed_theme(name: Seq<char>) -> bool {
    ||| name == "base16-ocean.dark"@
    ||| name == "base16-eighties.dark"@
    ||| name == "base16-mocha.dark"@
    ||| name == "base16-ocean.light"@
    ||| name == "InspiredGitHub"@
    ||| name == "Solarized (dark)"@
    ||| name == "Solarized (light)"@
}

/// `ThemeSet::load_defaults`: the theme with a name among those that come with `syntect`. There is
/// one for each name that is listed; of other names nothing is said.
#[verifier::external_body]
fn load_theme(name: &str) -> (theme: Option<Theme>)
    ensures
        theme matches Some(theme) ==> theme_name(theme) == name@,
        is_listed_theme(name@) ==> theme is Some,
{
    ThemeSet::load_defaults().themes.remove(name)
}

/// `SyntaxSet::find_syntax_by_token`: whether the default syntaxes hold one for a token.
#[verifier::external_body]
fn finds_syntax(set: &SyntaxSet, token: &str) -> (found: bool)
    requires
        is_default_set(*set),
    ensures
        found == has_syntax(token@),
{
    set.find_syntax_by_token(token).is_some()
}

/// `HighlightLines::highlight_line`, line after line in the syntax of a token, with the default
/// syntaxes and a theme that comes with `syntect`: the pieces of each line with their colours. There
/// is a result for each of the lines, or none at all.
#[verifier::external_body]
fn highlight_lines(set: &SyntaxSet, theme: &Theme, token: &str, lines: &Vec<String>) -> (result: Option<
    Vec<Vec<HighlightedSpan>>,
>)
    requires
        is_default_set(*set),
    ensures
        match result {
            Some(result) => highlighted(theme_name(*theme), token@, chars::texts(lines@)) == Some(
                highlight_lines_view(result@),
            ) && result@.len() == lines@.len(),
            None => highlighted(theme_name(*theme), token@, chars::texts(lines@)) is None,
        },
{
    let mut highlighter = HighlightLines::new(set.find_syntax_by_token(token)?, theme);
    let span = |(style, text): (syntect::highlighting::Style, &str)| HighlightedSpan {
        r: style.foreground.r,
        g: style.foreground.g,
        b: style.foreground.b,
        bold: style.font_style.contains(FontStyle::BOLD),
        italic: style.font_style.contains(FontStyle::ITALIC),
        underline: style.font_style.contains(FontStyle::UNDERLINE),
        text: text.to_string() };
    lines.iter().map(|line| highlighter.highlight_line(line, set).ok()
        .map(|ranges| ranges.into_iter().map(span).collect())).collect()
}

/// Colours for code: the default syntaxes, for lines without line breaks, and a dark theme.
pub struct CodeHighlighter {
    syntax_set: SyntaxSet,
    theme: Theme,
}

impl CodeHighlighter {
    #[verifier::type_invariant]
    closed spec fn inv(self) -> bool {
        is_default_set(self.syntax_set) && theme_name(self.theme) == CODE_THEME@
    }

    pub closed spec fn spec_syntaxes(self) -> SyntaxSet {
        self.syntax_set
    }

    pub closed spec fn spec_theme(self) -> Theme {
        self.theme
    }

    /// The colours that the program uses.
    pub fn new() -> (highlighter: CodeHighlighter)
        ensures
            is_default_set(highlighter.spec_syntaxes()),
            theme_name(highlighter.spec_theme()) == CODE_THEME@,
    {
        let theme = load_theme(CODE_THEME).unwrap();
        CodeHighlighter { syntax_set: load_syntaxes(), theme }
    }

    /// Whether there is a syntax for a token.
    fn knows(&self, token: &str) -> (known: bool)
        ensures
            known == has_syntax(token@),
    {
        proof {
            use_type_invariant(self);
        }
        finds_syntax(&self.syntax_set, token)
    }

    /// The pieces of lines in the syntax of a token, with their colours.
    fn highlight(&self, token: &str, lines: &Vec<String>) -> (result: Option<
        Vec<Vec<HighlightedSpan>>,
    >)
        ensures
            match result {
                Some(result) => highlighted(CODE_THEME@, token@, chars::texts(lines@)) == Some(
                    highlight_lines_view(result@),
                ) && result@.len() == lines@.len(),
                None => highlighted(CODE_THEME@, token@, chars::texts(lines@)) is None,
            },
    {
        proof {
            use_type_invariant(self);
        }
        highlight_lines(&self.syntax_set, &self.theme, token, lines)
    }
}

/// The token under which a language has a syntax: its name, else another name it is known under.
pub open spec fn syntax_token(language: Seq<char>) -> Option<Seq<char>> {
    match language_token_spec(language) {
        Some(token) => if has_syntax(token) {
            Some(token)
        } else {
            match language_alias_spec(token) {
                Some(alias) => if has_syntax(alias) {
                    Some(alias)
                } else {
                    None
                },
                None => None,
            }
        },
        None => None,
    }
}

/// The lines among the first `count` that are not empty.
pub open spec fn filled_lines(lines: Seq<Seq<char>>, count: int) -> Seq<Seq<char>>
    decreases count,
{
    if count <= 0 {
        Seq::empty()
    } else if lines[count - 1].len() > 0 {
        filled_lines(lines, count - 1).push(lines[count - 1])
    } else {
        filled_lines(lines, count - 1)
    }
}

/// The style of a highlighted piece, over a style that it builds on.
pub open spec fn highlight_style(span: HighlightView, fallback: Style) -> Style {
    Style {
        fg: Some(Color::Rgb(span.r, span.g, span.b)),
        bg: fallback.bg,
        bold: fallback.bold || span.bold,
        italic: fallback.italic || span.italic,
        underlined: fallback.underlined || span.underline,
    }
}

pub open spec fn highlighted_line(spans: Seq<HighlightView>, fallback: Style) -> Seq<SpanView> {
    Seq::new(
        spans.len(),
        |i: int| SpanView { content: spans[i].text, style: highlight_style(spans[i], fallback) },
    )
}

/// The first `count` lines of code, of which those that are not empty have been highlighted.
pub open spec fn highlighted_lines(
    raw: Seq<Seq<char>>,
    filled: Seq<Seq<HighlightView>>,
    fallback: Style,
    count: int,
) -> Seq<Seq<SpanView>>
    decreases count,
{
    if count <= 0 {
        Seq::empty()
    } else {
        highlighted_lines(raw, filled, fallback, count - 1).push(
            if raw[count - 1].len() == 0 {
                style::styled_line(Seq::empty(), fallback)
            } else {
                highlighted_line(
                    filled[filled_lines(raw, count - 1).len() as int],
                    fallback,
                )
            },
        )
    }
}

fn span_of_highlight(span: &HighlightedSpan, fallback: Style) -> (styled: Span)
    ensures
        styled@ == (SpanView {
            content: span@.text,
            style: highlight_style(span@, fallback),
        }),
{
    let mut output = fallback.fg(Color::Rgb(span.r, span.g, span.b));
    if span.bold {
        output = output.bold();
    }
    if span.italic {
        output = output.italic();
    }
    if span.underline {
        output = output.underlined();
    }
    Span::styled(span.text.clone(), output)
}

fn line_of_highlights(spans: &Vec<HighlightedSpan>, fallback: Style) -> (line: Line)
    ensures
        line@ == highlighted_line(highlight_views(spans@), fallback),
{
    let ghost expected = highlighted_line(highlight_views(spans@), fallback);
    let mut styled: Vec<Span> = Vec::new();
    let mut i: usize = 0;
    while i < spans.len()
        invariant
            i <= spans@.len(),
            expected == highlighted_line(highlight_views(spans@), fallback),
            styled@.len() == i,
            forall|j: int| 0 <= j < i ==> (#[trigger] styled@[j])@ == expected[j],
        decreases spans@.len() - i,
    {
        styled.push(span_of_highlight(&spans[i], fallback));
        i = i + 1;
    }
    let line = Line { spans: styled };
    assert(line@ =~= expected);
    line
}

/// Lines of code whose lines that are not empty have been highlighted.
pub fn lines_of_highlights(
    raw_lines: &Vec<String>,
    filled: &Vec<Vec<HighlightedSpan>>,
    fallback: Style,
) -> (lines: Vec<Line>)
    requires
        filled@.len() == filled_lines(
            chars::texts(raw_lines@),
            raw_lines@.len() as int,
        ).len(),
    ensures
        style::line_views(lines@) == highlighted_lines(
            chars::texts(raw_lines@),
            highlight_lines_view(filled@),
            fallback,
            raw_lines@.len() as int,
        ),
{
    let ghost raw = chars::texts(raw_lines@);
    let ghost views = highlight_lines_view(filled@);
    let mut lines: Vec<Line> = Vec::new();
    let total: usize = filled.len();
    let mut next: usize = 0;
    let mut i: usize = 0;
    assert(style::line_views(lines@) =~= highlighted_lines(raw, views, fallback, 0));
    while i < raw_lines.len()
        invariant
            i <= raw_lines@.len(),
            raw == chars::texts(raw_lines@),
            views == highlight_lines_view(filled@),
            total == filled@.len(),
            total == filled_lines(raw, raw.len() as int).len(),
            next == filled_lines(raw, i as int).len(),
            style::line_views(lines@) == highlighted_lines(raw, views, fallback, i as int),
        decreases raw_lines@.len() - i,
    {
        assert(raw[i as int] == raw_lines@[i as int]@);
        let line = if raw_lines[i].as_str().is_empty() {
            Line::styled(String::new(), fallback)
        } else {
            proof {
                lemma_filled_lines_len(raw, i + 1, raw.len() as int);
            }
            let line = line_of_highlights(&filled[next], fallback);
            next = next + 1;
            line
        };
        proof {
            style::lemma_line_views_push(lines@, line);
        }
        lines.push(line);
        i = i + 1;
    }
    lines
}

proof fn lemma_filled_lines_len(lines: Seq<Seq<char>>, i: int, j: int)
    requires
        0 <= i <= j,
    ensures
        filled_lines(lines, i).len() <= filled_lines(lines, j).len(),
    decreases j,
{
    if i < j {
        lemma_filled_lines_len(lines, i, j - 1);
    }
}

/// Lines of code in the colours of their language, or all in one style where there are none.
pub open spec fn code_lines(
    raw: Seq<Seq<char>>,
    language: Option<Seq<char>>,
    fallback: Style,
) -> Seq<Seq<SpanView>> {
    let result = match language {
        Some(language) => match syntax_token(language) {
            Some(token) => highlighted(CODE_THEME@, token, filled_lines(raw, raw.len() as int)),
            None => None,
        },
        None => None,
    };
    match result {
        Some(filled) => highlighted_lines(raw, filled, fallback, raw.len() as int),
        None => Seq::new(raw.len(), |i: int| style::styled_line(raw[i], fallback)),
    }
}

impl CodeHighlighter {
    fn syntax_for_language(&self, language: &str) -> (token: Option<String>)
        ensures
            match token {
                Some(token) => syntax_token(language@) == Some(token@),
                None => syntax_token(language@) is None,
            },
    {
        let token = match language_token(language) {
            Some(token) => token,
            None => {
                return None;
            },
        };
        let name = chars::text_of(token.as_slice(), 0, token.len());
        assert(name@ =~= token@);
        if self.knows(name.as_str()) {
            return Some(name);
        }
        match language_alias(&token) {
            Some(alias) => if self.knows(alias) {
                Some(alias.to_owned())
            } else {
                None
            },
            None => None,
        }
    }

    fn highlight_lines(
        &self,
        language: Option<&str>,
        raw_lines: &Vec<String>,
        fallback: Style,
    ) -> (lines: Vec<Line>)
        ensures
            style::line_views(lines@) == code_lines(
                chars::texts(raw_lines@),
                match language {
                    Some(language) => Some(language@),
                    None => None,
                },
                fallback,
            ),
    {
        let ghost raw = chars::texts(raw_lines@);
        if let Some(language) = language {
            if let Some(token) = self.syntax_for_language(language) {
                let mut filled: Vec<String> = Vec::new();
                let mut i: usize = 0;
                assert(chars::texts(filled@) =~= filled_lines(raw, 0));
                while i < raw_lines.len()
                    invariant
                        i <= raw_lines@.len(),
                        raw == chars::texts(raw_lines@),
                        chars::texts(filled@) == filled_lines(raw, i as int),
                    decreases raw_lines@.len() - i,
                {
                    assert(raw[i as int] == raw_lines@[i as int]@);
                    if !raw_lines[i].as_str().is_empty() {
                        let line = raw_lines[i].clone();
                        proof {
                            chars::lemma_texts_push(filled@, line);
                        }
                        filled.push(line);
                    }
                    i = i + 1;
                }
                if let Some(result) = self.highlight(token.as_str(), &filled) {
                    return lines_of_highlights(raw_lines, &result, fallback);
                }
            }
        }
        let lines = markdown::plain_lines(raw_lines, fallback);
        assert(style::line_views(lines@) =~= Seq::new(
            raw.len(),
            |i: int| style::styled_line(raw[i], fallback),
        ));
        lines
    }
}

/// Text as parts of a block, a line each; an empty text is one empty line.
pub open spec fn text_segments(text: Seq<char>, style: Style, trim: bool) -> Seq<SegmentView> {
    if text.len() == 0 {
        seq![SegmentView::Line { line: style::styled_line(Seq::empty(), style), trim }]
    } else {
        line_segments(
            Seq::new(
                chars::lines(text).len(),
                |i: int| style::styled_line(chars::lines(text)[i], style),
            ),
            trim,
        )
    }
}

fn render_text(text: &str, text_style: Style, trim: bool) -> (segments: Vec<BlockSegment>)
    ensures
        segment_views(segments@) == text_segments(text@, text_style, trim),
{
    if text.is_empty() {
        let mut segments: Vec<BlockSegment> = Vec::new();
        segments.push(
            BlockSegment::Line(BlockLine { line: Line::styled(String::new(), text_style), trim }),
        );
        assert(segment_views(segments@) =~= text_segments(text@, text_style, trim));
        return segments;
    }
    let raw_lines = chars::split_lines(text);
    let lines = markdown::plain_lines(&raw_lines, text_style);
    assert(style::line_views(lines@) =~= Seq::new(
        chars::lines(text@).len(),
        |i: int| style::styled_line(chars::lines(text@)[i], text_style),
    )) by {
        assert(chars::texts(raw_lines@) == chars::lines(text@));
        assert forall|i: int| 0 <= i < raw_lines@.len() implies raw_lines@[i]@ == chars::lines(
            text@,
        )[i] by {
            assert(chars::texts(raw_lines@)[i] == raw_lines@[i]@);
        }
    }
    segments_of_lines(lines, trim)
}

/// Code as parts of a block.
pub open spec fn code_segments(
    text: Seq<char>,
    language: Option<Seq<char>>,
    style: Style,
) -> Seq<SegmentView> {
    if text.len() == 0 {
        seq![SegmentView::Line { line: style::styled_line(Seq::empty(), style), trim: false }]
    } else {
        line_segments(code_lines(chars::lines(text), language, style), false)
    }
}

fn render_highlighted_text_segments(
    text: &str,
    language: Option<&str>,
    code_style: Style,
    highlighter: &CodeHighlighter,
) -> (segments: Vec<BlockSegment>)
    ensures
        segment_views(segments@) == code_segments(
            text@,
            match language {
                Some(language) => Some(language@),
                None => None,
            },
            code_style,
        ),
{
    if text.is_empty() {
        let mut segments: Vec<BlockSegment> = Vec::new();
        segments.push(BlockSegment::preformatted_line(Line::styled(String::new(), code_style)));
        assert(segment_views(segments@) =~= seq![
            SegmentView::Line {
                line: style::styled_line(Seq::empty(), code_style),
                trim: false,
            },
        ]);
        return segments;
    }
    let raw_lines = chars::split_lines(text);
    segments_of_lines(highlighter.highlight_lines(language, &raw_lines, code_style), false)
}

/// Markdown text as parts of a block.
pub open spec fn markdown_segments(text: Seq<char>) -> Seq<SegmentView> {
    if text.len() == 0 {
        Seq::empty()
    } else {
        line_segments(markdown::preview_lines(text, markdown::default_styles()), true)
    }
}

fn render_markdown_preview_segments(text: &str) -> (segments: Vec<BlockSegment>)
    ensures
        segment_views(segments@) == markdown_segments(text@),
{
    if text.is_empty() {
        let segments: Vec<BlockSegment> = Vec::new();
        assert(segment_views(segments@) =~= markdown_segments(text@));
        return segments;
    }
    segments_of_lines(MarkdownPreview::new(text).styles(markdown_styles()).lines(), true)
}

/// Whether a line of a block shows nothing.
pub open spec fn segment_is_blank(segment: SegmentView) -> bool {
    match segment {
        SegmentView::Line { line, .. } => forall|i: int|
            0 <= i < line.len() ==> (#[trigger] line[i]).content.len() == 0,
        SegmentView::Image(_) => false,
    }
}

fn block_segment_is_blank(segment: &BlockSegment) -> (blank: bool)
    ensures
        blank == segment_is_blank(segment@),
{
    match segment {
        BlockSegment::Line(line) => {
            let spans = &line.line.spans;
            let mut i: usize = 0;
            while i < spans.len()
                invariant
                    i <= spans@.len(),
                    *spans == line.line.spans,
                    segment@ == (SegmentView::Line { line: line.line@, trim: line.trim }),
                    forall|j: int|
                        0 <= j < i ==> (#[trigger] line.line@[j]).content.len() == 0,
                decreases spans@.len() - i,
            {
                assert(line.line@[i as int] == spans@[i as int]@);
                if !spans[i].content.as_str().is_empty() {
                    return false;
                }
                i = i + 1;
            }
            true
        },
        BlockSegment::Image(_) => false,
    }
}

/// The parts that show one part of an answer.
pub open spec fn node_segments(node: NodeView) -> Seq<SegmentView>
    decreases node, 0int,
{
    match node {
        NodeView::Text(text) => markdown_segments(text),
        NodeView::Markdown(children) => nodes_segments(children, children.len() as int),
        NodeView::Code { language, text } => code_segments(text, language, style::plain()),
    }
}

/// The parts that show the first `count` parts of an answer, with an empty line between two of them
/// unless there is one already.
pub open spec fn nodes_segments(nodes: Seq<NodeView>, count: int) -> Seq<SegmentView>
    decreases nodes, count,
{
    if count <= 0 || count > nodes.len() {
        Seq::empty()
    } else {
        let before = nodes_segments(nodes, count - 1);
        let more = node_segments(nodes[count - 1]);
        if more.len() == 0 {
            before
        } else if before.len() > 0 && !segment_is_blank(before.last()) {
            before.push(blank_segment()) + more
        } else {
            before + more
        }
    }
}

/// An empty line of a block.
pub open spec fn blank_segment() -> SegmentView {
    SegmentView::Line { line: Seq::empty(), trim: true }
}

fn render_fence_node(node: &FenceNode, highlighter: &CodeHighlighter) -> (segments: Vec<
    BlockSegment,
>)
    ensures
        segment_views(segments@) == node_segments(node_view(*node)),
    decreases node, 0int,
{
    match node {
        FenceNode::MarkdownText(text) => render_markdown_preview_segments(text.as_str()),
        FenceNode::Markdown { children } => {
            proof {
                lemma_markdown_view(*children);
            }
            render_fence_nodes(children, highlighter)
        },
        FenceNode::Code { language, text } => match language {
            Some(language) => render_highlighted_text_segments(
                text.as_str(),
                Some(language.as_str()),
                Style::default(),
                highlighter,
            ),
            None => render_highlighted_text_segments(
                text.as_str(),
                None,
                Style::default(),
                highlighter,
            ),
        },
    }
}

fn render_fence_nodes(nodes: &Vec<FenceNode>, highlighter: &CodeHighlighter) -> (segments: Vec<
    BlockSegment,
>)
    ensures
        segment_views(segments@) == nodes_segments(node_views(nodes@), nodes@.len() as int),
    decreases nodes, nodes@.len() + 1,
{
    let ghost views = node_views(nodes@);
    let mut segments: Vec<BlockSegment> = Vec::new();
    let mut i: usize = 0;
    assert(segment_views(segments@) =~= nodes_segments(views, 0));
    while i < nodes.len()
        invariant
            i <= nodes@.len(),
            views == node_views(nodes@),
            segment_views(segments@) == nodes_segments(views, i as int),
        decreases nodes@.len() - i,
    {
        let more = render_fence_node(&nodes[i], highlighter);
        if more.len() > 0 {
            if segments.len() > 0 && !block_segment_is_blank(&segments[segments.len() - 1]) {
                let blank = BlockSegment::line(Line::blank());
                proof {
                    lemma_segment_views_push(segments@, blank);
                }
                segments.push(blank);
            }
            append_segments(&mut segments, more);
        }
        i = i + 1;
    }
    segments
}

/// Parts of a block, of which there is at least one.
pub open spec fn non_empty_spec(segments: Seq<SegmentView>) -> Seq<SegmentView> {
    if segments.len() == 0 {
        seq![blank_segment()]
    } else {
        segments
    }
}

fn non_empty(segments: Vec<BlockSegment>) -> (filled: Vec<BlockSegment>)
    ensures
        segment_views(filled@) == non_empty_spec(segment_views(segments@)),
{
    let mut segments = segments;
    if segments.len() == 0 {
        segments.push(BlockSegment::line(Line::blank()));
        assert(segment_views(segments@) =~= seq![blank_segment()]);
    }
    segments
}

/// The parts that show the first `count` parts of an answer.
pub open spec fn items_segments(items: Seq<state::ItemView>, count: int) -> Seq<SegmentView>
    decreases count,
{
    if count <= 0 {
        Seq::empty()
    } else {
        items_segments(items, count - 1) + match items[count - 1] {
            state::ItemView::Text(text) => {
                let nodes = fence_tree(text);
                nodes_segments(nodes, nodes.len() as int)
            },
            state::ItemView::Image(image) => seq![SegmentView::Image(image)],
        }
    }
}

fn render_assistant_items(items: &Vec<AssistantItem>, highlighter: &CodeHighlighter) -> (segments:
    Vec<BlockSegment>)
    ensures
        segment_views(segments@) == non_empty_spec(
            items_segments(state::item_views(items@), items@.len() as int),
        ),
{
    let ghost views = state::item_views(items@);
    let mut segments: Vec<BlockSegment> = Vec::new();
    let mut i: usize = 0;
    assert(segment_views(segments@) =~= items_segments(views, 0));
    while i < items.len()
        invariant
            i <= items@.len(),
            views == state::item_views(items@),
            segment_views(segments@) == items_segments(views, i as int),
        decreases items@.len() - i,
    {
        let ghost before = segment_views(segments@);
        match &items[i] {
            AssistantItem::Text(text) => {
                let nodes = parse_fence_tree(text.as_str());
                let more = render_fence_nodes(&nodes, highlighter);
                append_segments(&mut segments, more);
            },
            AssistantItem::Image(image) => {
                let segment = BlockSegment::Image(image.clone());
                proof {
                    lemma_segment_views_push(segments@, segment);
                }
                segments.push(segment);
                assert(before.push(SegmentView::Image(image@)) =~= before + seq![
                    SegmentView::Image(image@),
                ]);
            },
        }
        i = i + 1;
    }
    non_empty(segments)
}

/// The parts that show the first `count` pieces of input.
pub open spec fn content_segments(
    content: Seq<ContentView>,
    count: int,
    style: Style,
    trim: bool,
) -> Seq<SegmentView>
    decreases count,
{
    if count <= 0 {
        Seq::empty()
    } else {
        content_segments(content, count - 1, style, trim) + match content[count - 1] {
            ContentView::Text(text) => text_segments(text, style, trim),
            ContentView::Image(image) => seq![SegmentView::Image(image)],
        }
    }
}

fn render_content(content: &Vec<InputContent>, text_style: Style, trim: bool) -> (segments: Vec<
    BlockSegment,
>)
    ensures
        segment_views(segments@) == non_empty_spec(
            content_segments(
                message::content_views(content@),
                content@.len() as int,
                text_style,
                trim,
            ),
        ),
{
    let ghost views = message::content_views(content@);
    let mut segments: Vec<BlockSegment> = Vec::new();
    let mut i: usize = 0;
    assert(segment_views(segments@) =~= content_segments(views, 0, text_style, trim));
    while i < content.len()
        invariant
            i <= content@.len(),
            views == message::content_views(content@),
            segment_views(segments@) == content_segments(views, i as int, text_style, trim),
        decreases content@.len() - i,
    {
        let ghost before = segment_views(segments@);
        assert(views[i as int] == content@[i as int]@);
        match &content[i] {
            InputContent::Text(text) => {
                let more = render_text(text.as_str(), text_style, trim);
                append_segments(&mut segments, more);
            },
            InputContent::Image(image) => {
                let segment = BlockSegment::Image(image.clone());
                proof {
                    lemma_segment_views_push(segments@, segment);
                }
                segments.push(segment);
                assert(before.push(SegmentView::Image(image@)) =~= before + seq![
                    SegmentView::Image(image@),
                ]);
            },
        }
        i = i + 1;
    }
    non_empty(segments)
}

/// The parts that show a tool call: its name, its arguments if there are any, and its result if it
/// has come, after a divider where there are arguments.
pub open spec fn tool_segments(tool: state::ToolView) -> Seq<SegmentView> {
    let name = if tool.name.len() == 0 {
        "unknown"@
    } else {
        tool.name
    };
    let header = seq![
        SegmentView::Line {
            line: style::styled_line(name, tool_header_style_spec()),
            trim: true,
        },
    ];
    let call = if tool.arguments.len() == 0 {
        header
    } else {
        header + text_segments(tool.arguments, style::plain(), true)
    };
    match tool.result {
        Some(result) => {
            let divided = if call.len() > 1 {
                call.push(
                    SegmentView::Line {
                        line: style::styled_line("─"@, tool_divider_style_spec()),
                        trim: true,
                    },
                )
            } else {
                call
            };
            divided + non_empty_spec(
                content_segments(
                    result.content,
                    result.content.len() as int,
                    style::plain(),
                    false,
                ),
            )
        },
        None => call,
    }
}

fn render_tool_segments(tool: &ToolBlockState) -> (segments: Vec<BlockSegment>)
    ensures
        segment_views(segments@) == tool_segments(tool@),
{
    let mut segments: Vec<BlockSegment> = Vec::new();
    let name: String = if tool.name.as_str().is_empty() {
        "unknown".to_owned()
    } else {
        tool.name.clone()
    };
    segments.push(BlockSegment::line(Line::styled(name, Style::default().fg(Color::Cyan).bold())));
    assert(segment_views(segments@) =~= seq![
        SegmentView::Line {
            line: style::styled_line(name@, tool_header_style_spec()),
            trim: true,
        },
    ]);
    if !tool.arguments.as_str().is_empty() {
        let arguments = render_text(tool.arguments.as_str(), Style::default(), true);
        append_segments(&mut segments, arguments);
    }
    if let Some(result) = &tool.result {
        if segments.len() > 1 {
            let divider = BlockSegment::line(
                Line::styled("─".to_owned(), Style::default().fg(Color::Gray)),
            );
            proof {
                lemma_segment_views_push(segments@, divider);
            }
            segments.push(divider);
        }
        let content = render_content(&result.content, Style::default(), false);
        append_segments(&mut segments, content);
    }
    segments
}

/// The parts that show all of a block.
pub open spec fn unfolded_segments(kind: state::KindView) -> Seq<SegmentView> {
    match kind {
        state::KindView::User { content } => non_empty_spec(
            content_segments(content, content.len() as int, style::plain(), true),
        ),
        state::KindView::Thinking { text } => text_segments(text, thinking_style_spec(), true),
        state::KindView::Assistant { items } => non_empty_spec(
            items_segments(items, items.len() as int),
        ),
        state::KindView::Error { text } => text_segments(text, error_text_style_spec(), true),
        state::KindView::Command { text, is_error } => text_segments(
            text,
            command_text_style_spec(is_error),
            true,
        ),
        state::KindView::Tool(tool) => tool_segments(tool),
    }
}

pub open spec fn segment_lines(segments: Seq<SegmentView>) -> Seq<Seq<SpanView>> {
    Seq::new(segments.len(), |i: int| segment_line(segments[i]))
}

/// Whether white space of one of the parts is kept.
pub open spec fn keeps_whitespace(segments: Seq<SegmentView>) -> bool {
    exists|i: int|
        0 <= i < segments.len() && (#[trigger] segments[i] matches SegmentView::Line {
            trim,
            ..
        } && !trim)
}

/// The parts of a block as they are shown: a block that is folded shows its first lines and a hint.
pub open spec fn block_segments(block: state::BlockView) -> Seq<SegmentView> {
    let segments = unfolded_segments(block.kind);
    if !block.foldable || block.expanded {
        segments
    } else {
        line_segments(
            fold::folded(
                segment_lines(segments),
                MAX_COLLAPSED_LINES as nat,
                "Ctrl+O expand all · {count} lines hidden"@,
                fold_hint_style_spec(),
            ),
            !keeps_whitespace(segments),
        )
    }
}

fn any_keeps_whitespace(segments: &Vec<BlockSegment>) -> (keeps: bool)
    ensures
        keeps == keeps_whitespace(segment_views(segments@)),
{
    let ghost views = segment_views(segments@);
    let mut i: usize = 0;
    while i < segments.len()
        invariant
            i <= segments@.len(),
            views == segment_views(segments@),
            forall|j: int|
                0 <= j < i ==> !(#[trigger] views[j] matches SegmentView::Line { trim, .. }
                    && !trim),
        decreases segments@.len() - i,
    {
        assert(views[i as int] == segments@[i as int]@);
        if let BlockSegment::Line(line) = &segments[i] {
            if !line.trim {
                return true;
            }
        }
        i = i + 1;
    }
    false
}

fn lines_of_segments(segments: Vec<BlockSegment>) -> (lines: Vec<Line>)
    ensures
        style::line_views(lines@) == segment_lines(segment_views(segments@)),
{
    let ghost all = segments@;
    let ghost expected = segment_lines(segment_views(all));
    let mut lines: Vec<Line> = Vec::new();
    assert(style::line_views(lines@) =~= expected.take(0));
    for segment in iter: segments
        invariant
            iter.seq() == all,
            expected == segment_lines(segment_views(all)),
            style::line_views(lines@) == expected.take(iter.index() as int),
    {
        let ghost i = iter.index() as int;
        assert(segment == all[i]);
        assert(segment_views(all)[i] == all[i]@);
        let line = segment.into_line();
        proof {
            style::lemma_line_views_push(lines@, line);
        }
        lines.push(line);
        assert(style::line_views(lines@) =~= expected.take(i + 1));
    }
    assert(expected.take(expected.len() as int) =~= expected);
    lines
}

fn apply_block_fold(block: &BlockState, segments: Vec<BlockSegment>) -> (shown: Vec<BlockSegment>)
    requires
        segment_views(segments@) == unfolded_segments(block@.kind),
    ensures
        segment_views(shown@) == block_segments(block@),
{
    if !block.is_foldable() || block.is_expanded() {
        return segments;
    }
    let preserve_whitespace = any_keeps_whitespace(&segments);
    let lines = lines_of_segments(segments);
    let visible = FoldedText::new(lines, MAX_COLLAPSED_LINES).hint(
        FoldHint::new(
            "Ctrl+O expand all · {count} lines hidden".to_owned(),
            Style::default().fg(Color::DarkGray),
        ),
    ).lines();
    segments_of_lines(visible, !preserve_whitespace)
}

pub fn render_block_segments(block: &BlockState, highlighter: &CodeHighlighter) -> (segments: Vec<
    BlockSegment,
>)
    ensures
        segment_views(segments@) == block_segments(block@),
{
    let raw = match &block.kind {
        BlockKind::User { content } => render_content(content, Style::default(), true),
        BlockKind::Thinking { text } => render_text(text.as_str(), thinking_style(), true),
        BlockKind::Assistant { items } => render_assistant_items(items, highlighter),
        BlockKind::Error { text } => render_text(text.as_str(), error_text_style(), true),
        BlockKind::Command { text, is_error } => render_text(
            text.as_str(),
            command_text_style(*is_error),
            true,
        ),
        BlockKind::Tool(tool) => render_tool_segments(tool),
    };
    apply_block_fold(block, raw)
}

pub fn render_block_lines(block: &BlockState, highlighter: &CodeHighlighter) -> (lines: Vec<Line>)
    ensures
        style::line_views(lines@) == segment_lines(block_segments(block@)),
{
    lines_of_segments(render_block_segments(block, highlighter))
}

/// A block that is folded shows at most one line more than the limit, and one that is expanded, or
/// cannot be folded, shows everything.
pub proof fn law_fold_limits_block(block: state::BlockView)
    ensures
        block.foldable && !block.expanded ==> block_segments(block).len() <= MAX_COLLAPSED_LINES
            + 1,
        !block.foldable || block.expanded ==> block_segments(block) == unfolded_segments(
            block.kind,
        ),
{
}

/// Text is shown line by line, each line whole and in the style that is given; an empty text is shown
/// as one empty line.
pub proof fn law_text_is_shown_line_by_line(text: Seq<char>, style: Style, trim: bool, i: int)
    ensures
        text.len() > 0 ==> text_segments(text, style, trim).len() == chars::lines(text).len(),
        text.len() > 0 && 0 <= i < chars::lines(text).len() ==> {
            let segment = text_segments(text, style, trim)[i];
            &&& segment is Line
            &&& style::plain_text(segment->line) == chars::lines(text)[i]
            &&& segment->line.len() == 1 && segment->line[0].style == style
            &&& segment->trim == trim
        },
        text.len() == 0 ==> text_segments(text, style, trim).len() == 1 && style::plain_text(
            segment_line(text_segments(text, style, trim)[0]),
        ).len() == 0,
{
    style::law_line_text_joins_its_spans(Seq::empty(), SpanView { content: text, style });
    style::law_line_text_joins_its_spans(
        Seq::empty(),
        SpanView { content: chars::lines(text)[i], style },
    );
    style::law_line_text_joins_its_spans(
        Seq::empty(),
        SpanView { content: Seq::empty(), style },
    );
}

proof fn lemma_content_prefix(
    a: Seq<ContentView>,
    b: Seq<ContentView>,
    count: int,
    style: Style,
    trim: bool,
)
    requires
        0 <= count <= a.len(),
        count <= b.len(),
        forall|i: int| 0 <= i < count ==> #[trigger] a[i] == b[i],
    ensures
        content_segments(a, count, style, trim) == content_segments(b, count, style, trim),
    decreases count,
{
    if count > 0 {
        lemma_content_prefix(a, b, count - 1, style, trim);
        assert(a[count - 1] == b[count - 1]);
    }
}

/// Input is shown piece after piece: each text line by line and each image as that image, behind what
/// comes before it.
pub proof fn law_input_is_shown_piece_by_piece(
    content: Seq<ContentView>,
    text: Seq<char>,
    image: ImageView,
    style: Style,
    trim: bool,
)
    ensures
        ({
            let n = content.len() as int;
            let before = content_segments(content, n, style, trim);
            &&& content_segments(content.push(ContentView::Text(text)), n + 1, style, trim)
                == before + text_segments(text, style, trim)
            &&& content_segments(content.push(ContentView::Image(image)), n + 1, style, trim)
                == before.push(SegmentView::Image(image))
        }),
        content_segments(Seq::empty(), 0, style, trim).len() == 0,
{
    let n = content.len() as int;
    lemma_content_prefix(content, content.push(ContentView::Text(text)), n, style, trim);
    lemma_content_prefix(content, content.push(ContentView::Image(image)), n, style, trim);
    let before = content_segments(content, n, style, trim);
    assert(before + seq![SegmentView::Image(image)] =~= before.push(SegmentView::Image(image)));
}

proof fn lemma_items_prefix(a: Seq<state::ItemView>, b: Seq<state::ItemView>, count: int)
    requires
        0 <= count <= a.len(),
        count <= b.len(),
        forall|i: int| 0 <= i < count ==> #[trigger] a[i] == b[i],
    ensures
        items_segments(a, count) == items_segments(b, count),
    decreases count,
{
    if count > 0 {
        lemma_items_prefix(a, b, count - 1);
        assert(a[count - 1] == b[count - 1]);
    }
}

/// An answer is shown part after part: each image as that image and each text as its fenced pieces,
/// behind what comes before it.
pub proof fn law_answers_are_shown_part_by_part(
    items: Seq<state::ItemView>,
    text: Seq<char>,
    image: ImageView,
)
    ensures
        ({
            let n = items.len() as int;
            let before = items_segments(items, n);
            let nodes = fence_tree(text);
            &&& items_segments(items.push(state::ItemView::Text(text)), n + 1) == before
                + nodes_segments(nodes, nodes.len() as int)
            &&& items_segments(items.push(state::ItemView::Image(image)), n + 1) == before.push(
                SegmentView::Image(image),
            )
        }),
        items_segments(Seq::empty(), 0).len() == 0,
{
    let n = items.len() as int;
    lemma_items_prefix(items, items.push(state::ItemView::Text(text)), n);
    lemma_items_prefix(items, items.push(state::ItemView::Image(image)), n);
    let before = items_segments(items, n);
    assert(before + seq![SegmentView::Image(image)] =~= before.push(SegmentView::Image(image)));
}

/// A block shows what it holds: the whole of its text or content, or one empty line where it holds
/// nothing.
pub proof fn law_blocks_show_what_they_hold(
    text: Seq<char>,
    content: Seq<ContentView>,
    items: Seq<state::ItemView>,
    is_error: bool,
    i: int,
)
    ensures
        content_segments(content, content.len() as int, style::plain(), true).len() > 0
            ==> unfolded_segments(state::KindView::User { content }) == content_segments(
            content,
            content.len() as int,
            style::plain(),
            true,
        ),
        items_segments(items, items.len() as int).len() > 0 ==> unfolded_segments(
            state::KindView::Assistant { items },
        ) == items_segments(items, items.len() as int),
        unfolded_segments(state::KindView::User { content: Seq::empty() }).len() == 1,
        unfolded_segments(state::KindView::Assistant { items: Seq::empty() }).len() == 1,
        text.len() > 0 ==> {
            let thinking = unfolded_segments(state::KindView::Thinking { text });
            let error = unfolded_segments(state::KindView::Error { text });
            let command = unfolded_segments(state::KindView::Command { text, is_error });
            &&& thinking.len() == chars::lines(text).len()
            &&& error.len() == chars::lines(text).len()
            &&& command.len() == chars::lines(text).len()
            &&& 0 <= i < chars::lines(text).len() ==> {
                &&& style::plain_text(segment_line(thinking[i])) == chars::lines(text)[i]
                &&& style::plain_text(segment_line(error[i])) == chars::lines(text)[i]
                &&& style::plain_text(segment_line(command[i])) == chars::lines(text)[i]
            }
        },
{
    law_text_is_shown_line_by_line(text, thinking_style_spec(), true, i);
    law_text_is_shown_line_by_line(text, error_text_style_spec(), true, i);
    law_text_is_shown_line_by_line(text, command_text_style_spec(is_error), true, i);
}

/// A tool call shows its name first, or that it is unknown, and then its arguments line by line. Once
/// the result is there it follows whole, with its white space, behind a line that divides it from
/// arguments.
pub proof fn law_tool_calls_show_name_arguments_result(tool: state::ToolView, i: int)
    ensures
        ({
            let segments = tool_segments(tool);
            let args = if tool.arguments.len() == 0 {
                0
            } else {
                chars::lines(tool.arguments).len() as int
            };
            &&& tool.name.len() > 0 ==> style::plain_text(segment_line(segments[0])) == tool.name
            &&& tool.name.len() == 0 ==> style::plain_text(segment_line(segments[0]))
                == "unknown"@
            &&& segments.len() >= 1 + args
            &&& 0 <= i < args ==> style::plain_text(segment_line(segments[1 + i])) == chars::lines(
                tool.arguments,
            )[i]
            &&& tool.result is None ==> segments.len() == 1 + args
            &&& tool.result matches Some(result) ==> {
                let shown = content_segments(
                    result.content,
                    result.content.len() as int,
                    style::plain(),
                    false,
                );
                let from = if args > 0 {
                    args + 2
                } else {
                    1
                };
                &&& args > 0 ==> style::plain_text(segment_line(segments[1 + args])) == "─"@
                &&& shown.len() > 0 ==> segments.skip(from) == shown
                &&& shown.len() == 0 ==> segments.len() == from + 1
            }
        }),
{
    let name = if tool.name.len() == 0 {
        "unknown"@
    } else {
        tool.name
    };
    style::law_line_text_joins_its_spans(
        Seq::empty(),
        SpanView { content: name, style: tool_header_style_spec() },
    );
    style::law_line_text_joins_its_spans(
        Seq::empty(),
        SpanView { content: "─"@, style: tool_divider_style_spec() },
    );
    law_text_is_shown_line_by_line(tool.arguments, style::plain(), true, i);
    let segments = tool_segments(tool);
    if let Some(result) = tool.result {
        let shown = content_segments(
            result.content,
            result.content.len() as int,
            style::plain(),
            false,
        );
        if shown.len() > 0 {
            assert(segments.skip(segments.len() - shown.len()) =~= shown);
        }
    }
}

/// A folded block shows its first lines as they are, up to fourteen. Where it has more, one more line
/// follows that tells how many are hidden and how to see them.
pub proof fn law_folded_blocks_show_their_start(block: state::BlockView, i: int)
    requires
        block.foldable,
        !block.expanded,
    ensures
        ({
            let all = unfolded_segments(block.kind);
            let shown = block_segments(block);
            &&& all.len() <= 14 ==> shown.len() == all.len()
            &&& all.len() > 14 ==> shown.len() == 15
            &&& 0 <= i < all.len() && i < 14 ==> segment_line(shown[i]) == segment_line(all[i])
            &&& all.len() > 14 ==> style::plain_text(segment_line(shown[14]))
                == "Ctrl+O expand all · "@ + chars::decimal((all.len() - 14) as nat)
                + " lines hidden"@
        }),
{
    let all = unfolded_segments(block.kind);
    let lines = segment_lines(all);
    if all.len() > 14 {
        let before = "Ctrl+O expand all · "@;
        let after = " lines hidden"@;
        let template = "Ctrl+O expand all · {count} lines hidden"@;
        reveal_strlit("Ctrl+O expand all · ");
        reveal_strlit(" lines hidden");
        reveal_strlit("{count}");
        reveal_strlit("Ctrl+O expand all · {count} lines hidden");
        assert(template =~= before + "{count}"@ + after);
        let mark = "{count}"@;
        assert forall|j: int| 0 <= j < template.len() && j != before.len() implies !(
        #[trigger] chars::occurs_at(template, mark, j)) by {
            if chars::occurs_at(template, mark, j) {
                assert(template.subrange(j, j + mark.len())[0] == mark[0]);
                assert(template[j] == '{');
            }
        }
        fold::law_fold_counts_what_it_hides(lines, 14, before, after, fold_hint_style_spec());
        let hint = before + chars::decimal((lines.len() - 14) as nat) + after;
        style::law_line_text_joins_its_spans(
            Seq::empty(),
            SpanView { content: hint, style: fold_hint_style_spec() },
        );
        let shown = block_segments(block);
        assert(segment_line(shown[14]) =~= seq![
            SpanView { content: hint, style: fold_hint_style_spec() },
        ]);
    }
}

proof fn lemma_filled_lines_filter(lines: Seq<Seq<char>>, count: int)
    requires
        0 <= count <= lines.len(),
    ensures
        filled_lines(lines, count) == lines.take(count).filter(|line: Seq<char>| line.len() > 0),
    decreases count,
{
    reveal(Seq::filter);
    if count > 0 {
        lemma_filled_lines_filter(lines, count - 1);
        assert(lines.take(count).drop_last() =~= lines.take(count - 1));
        assert(lines.take(count).last() == lines[count - 1]);
    }
}

proof fn lemma_highlighted_line_at(
    raw: Seq<Seq<char>>,
    filled: Seq<Seq<HighlightView>>,
    fallback: Style,
    count: int,
    i: int,
)
    requires
        0 <= i < count <= raw.len(),
    ensures
        highlighted_lines(raw, filled, fallback, count).len() == count,
        highlighted_lines(raw, filled, fallback, count)[i] == if raw[i].len() == 0 {
            style::styled_line(Seq::empty(), fallback)
        } else {
            highlighted_line(filled[filled_lines(raw, i).len() as int], fallback)
        },
    decreases count,
{
    if i < count - 1 {
        lemma_highlighted_line_at(raw, filled, fallback, count - 1, i);
    } else if count > 1 {
        lemma_highlighted_line_at(raw, filled, fallback, count - 1, 0);
    } else {
        assert(highlighted_lines(raw, filled, fallback, 0).len() == 0);
    }
}

/// Each line of code is shown as a line. Without a language, or with one that is not known, it is
/// shown as it is; in the colours of a language its pieces are those that were found for it, which is
/// the one with its place among the lines that are not empty. An empty line stays empty.
pub proof fn law_code_is_shown_line_by_line(
    raw: Seq<Seq<char>>,
    language: Seq<char>,
    fallback: Style,
    i: int,
    j: int,
)
    requires
        0 <= i < raw.len(),
    ensures
        code_lines(raw, None, fallback).len() == raw.len(),
        style::plain_text(code_lines(raw, None, fallback)[i]) == raw[i],
        code_lines(raw, Some(language), fallback).len() == raw.len(),
        raw[i].len() == 0 ==> style::plain_text(code_lines(raw, Some(language), fallback)[i]).len()
            == 0,
        syntax_token(language) is None ==> style::plain_text(
            code_lines(raw, Some(language), fallback)[i],
        ) == raw[i],
        syntax_token(language) matches Some(token) ==> {
            let told = highlighted(
                CODE_THEME@,
                token,
                raw.filter(|line: Seq<char>| line.len() > 0),
            );
            &&& told is None ==> style::plain_text(code_lines(raw, Some(language), fallback)[i])
                == raw[i]
            &&& told matches Some(filled) ==> raw[i].len() > 0 ==> {
                let place = raw.take(i).filter(|line: Seq<char>| line.len() > 0).len() as int;
                let line = code_lines(raw, Some(language), fallback)[i];
                &&& line.len() == filled[place].len()
                &&& 0 <= j < line.len() ==> {
                    let piece = filled[place][j];
                    &&& line[j].content == piece.text
                    &&& line[j].style.fg == Some(Color::Rgb(piece.r, piece.g, piece.b))
                    &&& line[j].style.bg == fallback.bg
                    &&& line[j].style.bold <==> fallback.bold || piece.bold
                    &&& line[j].style.italic <==> fallback.italic || piece.italic
                    &&& line[j].style.underlined <==> fallback.underlined || piece.underline
                }
            }
        },
{
    style::law_line_text_joins_its_spans(
        Seq::empty(),
        SpanView { content: raw[i], style: fallback },
    );
    style::law_line_text_joins_its_spans(
        Seq::empty(),
        SpanView { content: Seq::empty(), style: fallback },
    );
    assert(raw.take(raw.len() as int) =~= raw);
    lemma_filled_lines_filter(raw, raw.len() as int);
    lemma_filled_lines_filter(raw, i);
    if let Some(token) = syntax_token(language) {
        let told = highlighted(CODE_THEME@, token, filled_lines(raw, raw.len() as int));
        if let Some(filled) = told {
            lemma_highlighted_line_at(raw, filled, fallback, raw.len() as int, i);
        }
    }
}

/// A line of three backticks is a fence, whatever white space stands round it, and names the language
/// that stands behind them.
pub proof fn law_fences_name_their_language(
    before: Seq<char>,
    gap: Seq<char>,
    language: Seq<char>,
    after: Seq<char>,
)
    requires
        forall|i: int| 0 <= i < before.len() ==> chars::is_white_space(#[trigger] before[i]),
        forall|i: int| 0 <= i < gap.len() ==> chars::is_white_space(#[trigger] gap[i]),
        forall|i: int| 0 <= i < after.len() ==> chars::is_white_space(#[trigger] after[i]),
        language.len() > 0 ==> !chars::is_white_space(language[0]) && !chars::is_white_space(
            language.last(),
        ),
    ensures
        fence(before + seq!['`', '`', '`'] + after) == Some(None::<Seq<char>>),
        language.len() > 0 && (gap.len() > 0 || language[0] != '`') ==> fence(
            before + (seq!['`', '`', '`'] + gap + language) + after,
        ) == Some(Some(language)),
        fence(before + seq!['`', '`', '`', '`'] + after) is None,
{
    assert(!chars::is_white_space('`'));
    let ticks = seq!['`', '`', '`'];
    chars::law_trimming_gives_the_middle(before, ticks, after);
    assert(ticks.subrange(0, 3) =~= ticks);
    assert(ticks.skip(3) =~= Seq::<char>::empty());
    chars::law_trimming_gives_the_middle(Seq::empty(), Seq::empty(), Seq::empty());
    assert(Seq::<char>::empty() + Seq::<char>::empty() + Seq::<char>::empty() =~= Seq::<
        char,
    >::empty());
    let four = seq!['`', '`', '`', '`'];
    chars::law_trimming_gives_the_middle(before, four, after);
    assert(four.subrange(0, 3) =~= ticks);
    assert(four.skip(3)[0] == '`');
    if language.len() > 0 && (gap.len() > 0 || language[0] != '`') {
        let named = ticks + gap + language;
        assert(named[0] == '`');
        assert(named.last() == language.last());
        chars::law_trimming_gives_the_middle(before, named, after);
        assert(named.subrange(0, 3) =~= ticks);
        let rest = named.skip(3);
        assert(rest =~= gap + language + Seq::<char>::empty());
        chars::law_trimming_gives_the_middle(gap, language, Seq::empty());
        if gap.len() > 0 {
            assert(rest[0] == gap[0]);
        } else {
            assert(rest[0] == language[0]);
        }
    }
}

/// Three backticks.
pub open spec fn backticks() -> Seq<char> {
    seq!['`', '`', '`']
}

/// A line that does not start with three backticks behind white space is no fence.
pub proof fn law_other_lines_are_no_fences(line: Seq<char>)
    requires
        fence(line) is Some,
    ensures
        exists|before: Seq<char>, rest: Seq<char>|
            {
                &&& line == #[trigger] (before + backticks() + rest)
                &&& forall|i: int|
                    0 <= i < before.len() ==> chars::is_white_space(#[trigger] before[i])
                &&& rest.len() == 0 || rest[0] != '`'
            },
{
    assert(!chars::is_white_space('`'));
    let ticks = seq!['`', '`', '`'];
    let text = chars::trimmed(line);
    chars::law_trimming_takes_only_white_space(line);
    let (before, after) = choose|before: Seq<char>, after: Seq<char>|
        {
            &&& line == #[trigger] (before + text + after)
            &&& forall|i: int| 0 <= i < before.len() ==> chars::is_white_space(#[trigger] before[i])
            &&& forall|i: int| 0 <= i < after.len() ==> chars::is_white_space(#[trigger] after[i])
        };
    let rest = text.skip(3) + after;
    assert(text =~= text.subrange(0, 3) + text.skip(3));
    assert(line =~= before + backticks() + rest);
    if rest.len() > 0 {
        if text.len() > 3 {
            assert(rest[0] == text.skip(3)[0]);
        } else {
            assert(rest[0] == after[0]);
        }
    }
}

proof fn lemma_code_end_behind(head: Seq<Seq<char>>, lines: Seq<Seq<char>>, from: int)
    requires
        0 <= from <= lines.len(),
    ensures
        code_end(head + lines, head.len() + from) == head.len() + code_end(lines, from),
    decreases lines.len() - from,
{
    if from < lines.len() {
        assert((head + lines)[head.len() + from] == lines[from]);
        lemma_code_end_behind(head, lines, from + 1);
    }
}

proof fn lemma_node_behind(
    nodes: Seq<NodeView>,
    text: Seq<Seq<char>>,
    node: NodeView,
    rest: Seq<NodeView>,
)
    ensures
        with_text(nodes, text).push(node) + rest == nodes + (with_text(Seq::empty(), text).push(
            node,
        ) + rest),
{
    assert(with_text(nodes, text).push(node) + rest =~= nodes + (with_text(
        Seq::empty(),
        text,
    ).push(node) + rest));
}

/// Whether reading from a line on goes on behind lines and nodes before it as it does alone.
spec fn reads_behind(
    head: Seq<Seq<char>>,
    lines: Seq<Seq<char>>,
    from: int,
    is_root: bool,
    nodes: Seq<NodeView>,
    text: Seq<Seq<char>>,
) -> bool {
    let read = read_markdown(lines, from, is_root, Seq::empty(), text);
    let behind = read_markdown(head + lines, head.len() + from, is_root, nodes, text);
    &&& behind.0 == nodes + read.0
    &&& behind.1 == head.len() + read.1
    &&& from <= read.1 <= lines.len()
}

proof fn lemma_read_markdown_node(
    lines: Seq<Seq<char>>,
    from: int,
    is_root: bool,
    nodes: Seq<NodeView>,
    text: Seq<Seq<char>>,
    language: Seq<char>,
)
    requires
        0 <= from < lines.len(),
        fence(lines[from]) == Some(Some(language)),
        is_markdown_spec(language),
    ensures
        ({
            let (children, after) = read_markdown(
                lines,
                from + 1,
                false,
                Seq::empty(),
                Seq::empty(),
            );
            after > from ==> read_markdown(lines, from, is_root, nodes, text) == read_markdown(
                lines,
                after,
                is_root,
                with_text(nodes, text).push(NodeView::Markdown(children)),
                Seq::empty(),
            )
        }),
{
}

proof fn lemma_read_code_node(
    lines: Seq<Seq<char>>,
    from: int,
    is_root: bool,
    nodes: Seq<NodeView>,
    text: Seq<Seq<char>>,
    language: Option<Seq<char>>,
)
    requires
        0 <= from < lines.len(),
        fence(lines[from]) == Some(language),
        language is None ==> is_root,
        language is Some ==> !is_markdown_spec(language->Some_0),
    ensures
        ({
            let end = code_end(lines, from + 1);
            read_markdown(lines, from, is_root, nodes, text) == read_markdown(
                lines,
                after_code(lines, from, end),
                is_root,
                with_text(nodes, text).push(
                    NodeView::Code {
                        language,
                        text: chars::join(lines.subrange(from + 1, end), "\n"@),
                    },
                ),
                Seq::empty(),
            )
        }),
{
}

proof fn lemma_read_behind(
    head: Seq<Seq<char>>,
    lines: Seq<Seq<char>>,
    from: int,
    is_root: bool,
    nodes: Seq<NodeView>,
    text: Seq<Seq<char>>,
)
    requires
        0 <= from <= lines.len(),
    ensures
        reads_behind(head, lines, from, is_root, nodes, text),
    decreases lines.len() - from,
{
    let all = head + lines;
    let at = head.len() + from;
    let none = Seq::<Seq<char>>::empty();
    if from >= lines.len() {
        assert(nodes + with_text(Seq::empty(), text) =~= with_text(nodes, text));
    } else {
        assert(all[at] == lines[from]);
        let found = fence(lines[from]);
        if found is None {
            lemma_read_behind(head, lines, from + 1, is_root, nodes, text.push(lines[from]));
        } else if found->Some_0 is None && !is_root {
            assert(nodes + with_text(Seq::empty(), text) =~= with_text(nodes, text));
        } else if found->Some_0 is Some && is_markdown_spec(found->Some_0->Some_0) {
            lemma_read_behind(head, lines, from + 1, false, Seq::empty(), Seq::empty());
            lemma_nested_behind(head, lines, from, is_root, nodes, text);
            let (children, after) = read_markdown(
                lines,
                from + 1,
                false,
                Seq::empty(),
                Seq::empty(),
            );
            let node = NodeView::Markdown(children);
            let inner = with_text(Seq::empty(), text).push(node);
            lemma_read_behind(
                head,
                lines,
                after,
                is_root,
                with_text(nodes, text).push(node),
                Seq::empty(),
            );
            lemma_read_behind(none, lines, after, is_root, inner, Seq::empty());
            lemma_behind_alone(lines, after, is_root, inner);
            let rest = read_markdown(lines, after, is_root, Seq::empty(), Seq::empty());
            lemma_node_behind(nodes, text, node, rest.0);
        } else {
            lemma_code_behind(head, lines, from, is_root, nodes, text);
            lemma_code_end(lines, from + 1);
            let end = code_end(lines, from + 1);
            let after = after_code(lines, from, end);
            let node = NodeView::Code {
                language: found->Some_0,
                text: chars::join(lines.subrange(from + 1, end), "\n"@),
            };
            let inner = with_text(Seq::empty(), text).push(node);
            lemma_read_behind(
                head,
                lines,
                after,
                is_root,
                with_text(nodes, text).push(node),
                Seq::empty(),
            );
            lemma_read_behind(none, lines, after, is_root, inner, Seq::empty());
            lemma_behind_alone(lines, after, is_root, inner);
            let rest = read_markdown(lines, after, is_root, Seq::empty(), Seq::empty());
            lemma_node_behind(nodes, text, node, rest.0);
        }
    }
}

proof fn lemma_behind_alone(
    lines: Seq<Seq<char>>,
    from: int,
    is_root: bool,
    nodes: Seq<NodeView>,
)
    requires
        reads_behind(Seq::empty(), lines, from, is_root, nodes, Seq::empty()),
    ensures
        ({
            let read = read_markdown(lines, from, is_root, Seq::empty(), Seq::empty());
            let behind = read_markdown(lines, from, is_root, nodes, Seq::empty());
            behind.0 == nodes + read.0 && behind.1 == read.1
        }),
{
    assert(Seq::<Seq<char>>::empty() + lines =~= lines);
}

proof fn lemma_nested_behind(
    head: Seq<Seq<char>>,
    lines: Seq<Seq<char>>,
    from: int,
    is_root: bool,
    nodes: Seq<NodeView>,
    text: Seq<Seq<char>>,
)
    requires
        0 <= from < lines.len(),
        fence(lines[from]) matches Some(Some(language)) && is_markdown_spec(language),
        reads_behind(head, lines, from + 1, false, Seq::empty(), Seq::empty()),
    ensures
        ({
            let (children, after) = read_markdown(
                lines,
                from + 1,
                false,
                Seq::empty(),
                Seq::empty(),
            );
            let node = NodeView::Markdown(children);
            &&& read_markdown(lines, from, is_root, Seq::empty(), text) == read_markdown(
                lines,
                after,
                is_root,
                with_text(Seq::empty(), text).push(node),
                Seq::empty(),
            )
            &&& read_markdown(head + lines, head.len() + from, is_root, nodes, text)
                == read_markdown(
                head + lines,
                head.len() + after,
                is_root,
                with_text(nodes, text).push(node),
                Seq::empty(),
            )
        }),
{
    let language = fence(lines[from])->Some_0->Some_0;
    let (children, after) = read_markdown(lines, from + 1, false, Seq::empty(), Seq::empty());
    assert((head + lines)[head.len() + from] == lines[from]);
    assert(Seq::<NodeView>::empty() + children =~= children);
    lemma_read_markdown_node(lines, from, is_root, Seq::empty(), text, language);
    lemma_read_markdown_node(head + lines, head.len() + from, is_root, nodes, text, language);
    assert(head.len() + from + 1 == head.len() + (from + 1));
}

proof fn lemma_code_behind(
    head: Seq<Seq<char>>,
    lines: Seq<Seq<char>>,
    from: int,
    is_root: bool,
    nodes: Seq<NodeView>,
    text: Seq<Seq<char>>,
)
    requires
        0 <= from < lines.len(),
        fence(lines[from]) is Some,
        fence(lines[from])->Some_0 is None ==> is_root,
        fence(lines[from])->Some_0 is Some ==> !is_markdown_spec(fence(lines[from])->Some_0->Some_0),
    ensures
        ({
            let end = code_end(lines, from + 1);
            let after = after_code(lines, from, end);
            let node = NodeView::Code {
                language: fence(lines[from])->Some_0,
                text: chars::join(lines.subrange(from + 1, end), "\n"@),
            };
            &&& read_markdown(lines, from, is_root, Seq::empty(), text) == read_markdown(
                lines,
                after,
                is_root,
                with_text(Seq::empty(), text).push(node),
                Seq::empty(),
            )
            &&& read_markdown(head + lines, head.len() + from, is_root, nodes, text)
                == read_markdown(
                head + lines,
                head.len() + after,
                is_root,
                with_text(nodes, text).push(node),
                Seq::empty(),
            )
        }),
{
    let all = head + lines;
    let at = head.len() + from;
    let language = fence(lines[from])->Some_0;
    assert(all[at] == lines[from]);
    lemma_code_end_behind(head, lines, from + 1);
    lemma_code_end(lines, from + 1);
    let end = code_end(lines, from + 1);
    assert(at + 1 == head.len() + (from + 1));
    assert(all.subrange(at + 1, head.len() + end) =~= lines.subrange(from + 1, end));
    lemma_read_code_node(lines, from, is_root, Seq::empty(), text, language);
    lemma_read_code_node(all, at, is_root, nodes, text, language);
    assert(after_code(all, at, head.len() + end) == head.len() + after_code(lines, from, end));
}

proof fn lemma_read_text(
    lines: Seq<Seq<char>>,
    from: int,
    to: int,
    is_root: bool,
    text: Seq<Seq<char>>,
)
    requires
        0 <= from <= to <= lines.len(),
        forall|i: int| from <= i < to ==> fence(#[trigger] lines[i]) is None,
    ensures
        read_markdown(lines, from, is_root, Seq::empty(), text) == read_markdown(
            lines,
            to,
            is_root,
            Seq::empty(),
            text + lines.subrange(from, to),
        ),
    decreases to - from,
{
    if from < to {
        lemma_read_text(lines, from + 1, to, is_root, text.push(lines[from]));
        assert(text.push(lines[from]) + lines.subrange(from + 1, to) =~= text + lines.subrange(
            from,
            to,
        ));
    } else {
        assert(text + lines.subrange(from, to) =~= text);
    }
}

/// Lines without a fence among them are one text, whole and in their order.
pub proof fn law_lines_without_fences_are_one_text(lines: Seq<Seq<char>>, is_root: bool)
    requires
        lines.len() > 0,
        forall|i: int| 0 <= i < lines.len() ==> fence(#[trigger] lines[i]) is None,
    ensures
        read_markdown(lines, 0, is_root, Seq::empty(), Seq::empty()).0 == seq![
            NodeView::Text(chars::join(lines, "\n"@)),
        ],
{
    let n = lines.len() as int;
    lemma_read_text(lines, 0, n, is_root, Seq::empty());
    assert(Seq::<Seq<char>>::empty() + lines.subrange(0, n) =~= lines);
    assert(with_text(Seq::empty(), lines) =~= seq![NodeView::Text(chars::join(lines, "\n"@))]);
}

/// The text before a fence, as a part of an answer.
pub open spec fn text_before(text: Seq<Seq<char>>) -> Seq<NodeView> {
    if text.len() > 0 {
        seq![NodeView::Text(chars::join(text, "\n"@))]
    } else {
        Seq::empty()
    }
}

proof fn lemma_code_end_is(lines: Seq<Seq<char>>, from: int, end: int)
    requires
        0 <= from <= end <= lines.len(),
        forall|i: int|
            from <= i < end ==> fence(#[trigger] lines[i]) != Some(None::<Seq<char>>),
        end < lines.len() ==> fence(lines[end]) == Some(None::<Seq<char>>),
    ensures
        code_end(lines, from) == end,
    decreases end - from,
{
    if from < end {
        lemma_code_end_is(lines, from + 1, end);
    }
}

/// What stands between a fence and the next bare one is code in the language of the fence, whole and
/// in its order; the text before it and all that follows are read as without it. Code that no fence
/// ends reaches to the end.
pub proof fn law_code_between_fences_is_read(
    text: Seq<Seq<char>>,
    fence_line: Seq<char>,
    language: Option<Seq<char>>,
    code: Seq<Seq<char>>,
    end_line: Seq<char>,
    rest: Seq<Seq<char>>,
)
    requires
        forall|i: int| 0 <= i < text.len() ==> fence(#[trigger] text[i]) is None,
        fence(fence_line) == Some(language),
        language is Some ==> !is_markdown_spec(language->Some_0),
        forall|i: int|
            0 <= i < code.len() ==> fence(#[trigger] code[i]) != Some(None::<Seq<char>>),
        fence(end_line) == Some(None::<Seq<char>>),
    ensures
        read_markdown(
            text.push(fence_line) + code.push(end_line) + rest,
            0,
            true,
            Seq::empty(),
            Seq::empty(),
        ).0 == text_before(text).push(
            NodeView::Code { language, text: chars::join(code, "\n"@) },
        ) + read_markdown(rest, 0, true, Seq::empty(), Seq::empty()).0,
        read_markdown(text.push(fence_line) + code, 0, true, Seq::empty(), Seq::empty()).0
            == text_before(text).push(NodeView::Code { language, text: chars::join(code, "\n"@) }),
{
    let node = NodeView::Code { language, text: chars::join(code, "\n"@) };
    let at = text.len() as int;
    let head = text.push(fence_line) + code.push(end_line);
    let lines = head + rest;
    assert(lines[at] == fence_line);
    assert forall|i: int| 0 <= i < at implies fence(#[trigger] lines[i]) is None by {
        assert(lines[i] == text[i]);
    }
    lemma_read_text(lines, 0, at, true, Seq::empty());
    assert(Seq::<Seq<char>>::empty() + lines.subrange(0, at) =~= text);
    let end = at + 1 + code.len();
    assert(lines[end] == end_line);
    assert forall|i: int| at + 1 <= i < end implies fence(#[trigger] lines[i]) != Some(
        None::<Seq<char>>,
    ) by {
        assert(lines[i] == code[i - at - 1]);
    }
    lemma_code_end_is(lines, at + 1, end);
    assert(lines.subrange(at + 1, end) =~= code);
    assert(with_text(Seq::empty(), text) =~= text_before(text));
    let nodes = text_before(text).push(node);
    lemma_read_behind(head, rest, 0, true, nodes, Seq::empty());
    let open = text.push(fence_line) + code;
    assert(open[at] == fence_line);
    assert forall|i: int| 0 <= i < at implies fence(#[trigger] open[i]) is None by {
        assert(open[i] == text[i]);
    }
    lemma_read_text(open, 0, at, true, Seq::empty());
    assert(Seq::<Seq<char>>::empty() + open.subrange(0, at) =~= text);
    assert forall|i: int| at + 1 <= i < end implies fence(#[trigger] open[i]) != Some(
        None::<Seq<char>>,
    ) by {
        assert(open[i] == code[i - at - 1]);
    }
    lemma_code_end_is(open, at + 1, end);
    assert(open.subrange(at + 1, end) =~= code);
    assert(read_markdown(open, end, true, nodes, Seq::empty()).0 =~= nodes);
}

/// What stands between a fence of Markdown and the bare fence that ends it is Markdown of its own.
pub proof fn law_fenced_markdown_nests(
    text: Seq<Seq<char>>,
    fence_line: Seq<char>,
    language: Seq<char>,
    inner: Seq<Seq<char>>,
    end_line: Seq<char>,
    rest: Seq<Seq<char>>,
)
    requires
        forall|i: int| 0 <= i < text.len() ==> fence(#[trigger] text[i]) is None,
        fence(fence_line) == Some(Some(language)),
        is_markdown_spec(language),
        forall|i: int| 0 <= i < inner.len() ==> fence(#[trigger] inner[i]) is None,
        fence(end_line) == Some(None::<Seq<char>>),
    ensures
        read_markdown(
            text.push(fence_line) + inner.push(end_line) + rest,
            0,
            true,
            Seq::empty(),
            Seq::empty(),
        ).0 == text_before(text).push(NodeView::Markdown(text_before(inner))) + read_markdown(
            rest,
            0,
            true,
            Seq::empty(),
            Seq::empty(),
        ).0,
{
    let at = text.len() as int;
    let head = text.push(fence_line) + inner.push(end_line);
    let lines = head + rest;
    assert(lines[at] == fence_line);
    assert forall|i: int| 0 <= i < at implies fence(#[trigger] lines[i]) is None by {
        assert(lines[i] == text[i]);
    }
    lemma_read_text(lines, 0, at, true, Seq::empty());
    assert(Seq::<Seq<char>>::empty() + lines.subrange(0, at) =~= text);
    let end = at + 1 + inner.len();
    assert(lines[end] == end_line);
    assert forall|i: int| at + 1 <= i < end implies fence(#[trigger] lines[i]) is None by {
        assert(lines[i] == inner[i - at - 1]);
    }
    lemma_read_text(lines, at + 1, end, false, Seq::empty());
    assert(Seq::<Seq<char>>::empty() + lines.subrange(at + 1, end) =~= inner);
    assert(with_text(Seq::empty(), inner) =~= text_before(inner));
    assert(with_text(Seq::empty(), text) =~= text_before(text));
    let nodes = text_before(text).push(NodeView::Markdown(text_before(inner)));
    lemma_read_behind(head, rest, 0, true, nodes, Seq::empty());
}

proof fn lemma_nodes_prefix(nodes: Seq<NodeView>, last: NodeView, count: int)
    requires
        0 <= count <= nodes.len(),
    ensures
        nodes_segments(nodes.push(last), count) == nodes_segments(nodes, count),
    decreases count,
{
    if count > 0 {
        lemma_nodes_prefix(nodes, last, count - 1);
        assert(nodes.push(last)[count - 1] == nodes[count - 1]);
    }
}

/// The parts of an answer are shown one after the other, with an empty line between two of them unless
/// what comes before ends with one.
pub proof fn law_parts_of_answers_are_shown_in_order(nodes: Seq<NodeView>, last: NodeView)
    ensures
        ({
            let n = nodes.len() as int;
            let before = nodes_segments(nodes, n);
            let more = node_segments(last);
            let after = nodes_segments(nodes.push(last), n + 1);
            &&& before.is_prefix_of(after)
            &&& after.skip(after.len() - more.len()) == more
            &&& more.len() == 0 ==> after == before
            &&& more.len() > 0 && before.len() > 0 && !segment_is_blank(before.last())
                ==> after.len() == before.len() + 1 + more.len() && segment_is_blank(
                after[before.len() as int],
            )
            &&& more.len() > 0 && (before.len() == 0 || segment_is_blank(before.last()))
                ==> after.len() == before.len() + more.len()
        }),
{
    let n = nodes.len() as int;
    lemma_nodes_prefix(nodes, last, n);
    let before = nodes_segments(nodes, n);
    let more = node_segments(last);
    let after = nodes_segments(nodes.push(last), n + 1);
    assert(nodes.push(last)[n] == last);
    assert(after.skip(after.len() - more.len()) =~= more);
    assert(before =~= after.subrange(0, before.len() as int));
}

/// The style of a block tells what became of it: a tool call that succeeded, one that failed and one
/// that runs look different, and so do a command and its error.
pub proof fn law_outcomes_look_different(tool: state::ToolView, result: message::ResultView, text: Seq<char>)
    ensures
        ({
            let running = container_style(
                state::KindView::Tool(state::ToolView { result: None, ..tool }),
            );
            let done = container_style(
                state::KindView::Tool(
                    state::ToolView {
                        result: Some(
                            message::ResultView { status: ToolResultStatus::Success, ..result },
                        ),
                        ..tool
                    },
                ),
            );
            let failed = container_style(
                state::KindView::Tool(
                    state::ToolView {
                        result: Some(
                            message::ResultView { status: ToolResultStatus::Error, ..result },
                        ),
                        ..tool
                    },
                ),
            );
            &&& running != done && done != failed && running != failed
            &&& container_style(state::KindView::Command { text, is_error: true })
                != container_style(state::KindView::Command { text, is_error: false })
        }),
{
}

/// Code is shown line by line as its lines in the colours of its language, with the white space at
/// their start; no code is shown as one empty line.
pub proof fn law_fenced_code_is_shown(
    text: Seq<char>,
    language: Option<Seq<char>>,
    style: Style,
    i: int,
)
    ensures
        text.len() > 0 ==> {
            let lines = code_lines(chars::lines(text), language, style);
            &&& node_segments(NodeView::Code { language, text }).len() == code_lines(
                chars::lines(text),
                language,
                style::plain(),
            ).len()
            &&& code_segments(text, language, style).len() == lines.len()
            &&& 0 <= i < lines.len() ==> code_segments(text, language, style)[i] == (
            SegmentView::Line { line: lines[i], trim: false })
        },
        text.len() == 0 ==> code_segments(text, language, style).len() == 1 && style::plain_text(
            segment_line(code_segments(text, language, style)[0]),
        ).len() == 0,
{
    style::law_line_text_joins_its_spans(
        Seq::empty(),
        SpanView { content: Seq::empty(), style },
    );
}

/// Markdown text is shown as the lines of its preview, and what stands in a fence of Markdown as its
/// parts.
pub proof fn law_markdown_is_shown_as_its_preview(text: Seq<char>, children: Seq<NodeView>, i: int)
    requires
        text.len() > 0,
    ensures
        ({
            let lines = markdown::preview_lines(text, markdown::default_styles());
            let shown = node_segments(NodeView::Text(text));
            &&& shown.len() == lines.len()
            &&& 0 <= i < lines.len() ==> segment_line(shown[i]) == lines[i]
        }),
        node_segments(NodeView::Markdown(children)) == nodes_segments(
            children,
            children.len() as int,
        ),
{
}

/// A line is blank just if it shows no character; an image is not.
pub proof fn law_blank_lines_show_nothing(line: Seq<SpanView>, trim: bool, image: ImageView)
    ensures
        segment_is_blank(SegmentView::Line { line, trim }) <==> style::plain_text(line).len() == 0,
        !segment_is_blank(SegmentView::Image(image)),
        segment_is_blank(blank_segment()),
{
    lemma_blank_spans(line, line.len() as int);
}

proof fn lemma_blank_spans(line: Seq<SpanView>, count: int)
    requires
        0 <= count <= line.len(),
    ensures
        style::spans_text(line, count).len() == 0 <==> forall|i: int|
            0 <= i < count ==> (#[trigger] line[i]).content.len() == 0,
    decreases count,
{
    if count > 0 {
        lemma_blank_spans(line, count - 1);
    }
}

/// Text of the user and what the application tells is trimmed where it is wrapped; what a tool gave
/// keeps its white space.
pub proof fn law_only_results_keep_their_white_space(
    text: Seq<char>,
    is_error: bool,
    i: int,
)
    requires
        text.len() > 0,
        0 <= i < chars::lines(text).len(),
    ensures
        ({
            let content = seq![ContentView::Text(text)];
            let user = unfolded_segments(state::KindView::User { content });
            let result = content_segments(content, 1, style::plain(), false);
            &&& user.len() == chars::lines(text).len()
            &&& user[i] == (SegmentView::Line {
                line: style::styled_line(chars::lines(text)[i], style::plain()),
                trim: true,
            })
            &&& result[i] == (SegmentView::Line {
                line: style::styled_line(chars::lines(text)[i], style::plain()),
                trim: false,
            })
            &&& trims_all(unfolded_segments(state::KindView::Thinking { text }))
            &&& trims_all(unfolded_segments(state::KindView::Error { text }))
            &&& trims_all(unfolded_segments(state::KindView::Command { text, is_error }))
        }),
{
    let content = seq![ContentView::Text(text)];
    law_input_is_shown_piece_by_piece(
        Seq::empty(),
        text,
        ImageView::Url(Seq::empty()),
        style::plain(),
        true,
    );
    law_input_is_shown_piece_by_piece(
        Seq::empty(),
        text,
        ImageView::Url(Seq::empty()),
        style::plain(),
        false,
    );
    assert(Seq::<ContentView>::empty().push(ContentView::Text(text)) =~= content);
    let none = Seq::<SegmentView>::empty();
    assert(none + text_segments(text, style::plain(), true) =~= text_segments(
        text,
        style::plain(),
        true,
    ));
    assert(none + text_segments(text, style::plain(), false) =~= text_segments(
        text,
        style::plain(),
        false,
    ));
}

/// Whether all lines of a block are trimmed.
pub open spec fn trims_all(segments: Seq<SegmentView>) -> bool {
    forall|i: int|
        0 <= i < segments.len() ==> (#[trigger] segments[i] matches SegmentView::Line {
            trim,
            ..
        } ==> trim)
}

/// The name of a language is what stands before white space, a comma or a brace, without dots round
/// it; where nothing is left there is none.
pub proof fn law_languages_are_named_by_their_first_word(name: Seq<char>, rest: Seq<char>, end: char)
    requires
        name.len() > 0,
        forall|i: int|
            0 <= i < name.len() ==> !chars::is_white_space(#[trigger] name[i]) && name[i] != ','
                && name[i] != '{' && name[i] != '.',
        end == ',' || end == '{',
        rest.len() > 0 ==> !chars::is_white_space(rest.last()),
    ensures
        language_token_spec(name) == Some(name),
        language_token_spec(name + seq![end] + rest) == Some(name),
        language_token_spec(Seq::empty()) is None,
{
    let none = Seq::<char>::empty();
    let word = |c: char| !ends_language(c);
    let dot = |c: char| c == '.';
    assert(none + name + none =~= name);
    chars::law_trimming_gives_the_middle(none, name, none);
    lemma_leading_all(name, name, word);
    assert(name.take(name.len() as int) =~= name);
    lemma_no_dots(name, dot);
    let more = name + seq![end] + rest;
    assert(!chars::is_white_space(','));
    assert(!chars::is_white_space('{'));
    assert(none + more + none =~= more);
    assert(more[0] == name[0]);
    if rest.len() > 0 {
        assert(more.last() == rest.last());
    } else {
        assert(more.last() == end);
    }
    chars::law_trimming_gives_the_middle(none, more, none);
    assert(more[name.len() as int] == end);
    assert forall|i: int| 0 <= i < name.len() implies more[i] == name[i] by {}
    lemma_leading_all(more, name, word);
    assert(more.take(name.len() as int) =~= name);
    assert(none + none + none =~= none);
    chars::law_trimming_gives_the_middle(none, none, none);
    assert(none.take(0) =~= none);
    assert(chars::trimmed_of(none, dot).len() == 0);
}

proof fn lemma_leading_all(text: Seq<char>, start: Seq<char>, inside: spec_fn(char) -> bool)
    requires
        start.len() <= text.len(),
        forall|i: int| 0 <= i < start.len() ==> text[i] == #[trigger] start[i],
        forall|i: int| 0 <= i < start.len() ==> inside(#[trigger] start[i]),
        start.len() < text.len() ==> !inside(text[start.len() as int]),
    ensures
        chars::leading(text, inside) == start.len(),
    decreases start.len(),
{
    if start.len() > 0 {
        assert(text[0] == start[0]);
        let fewer = start.drop_first();
        assert forall|i: int| 0 <= i < fewer.len() implies text.drop_first()[i]
            == #[trigger] fewer[i] by {
            assert(text[i + 1] == start[i + 1]);
        }
        assert forall|i: int| 0 <= i < fewer.len() implies inside(#[trigger] fewer[i]) by {
            assert(inside(start[i + 1]));
        }
        lemma_leading_all(text.drop_first(), fewer, inside);
    }
}

proof fn lemma_no_dots(name: Seq<char>, dot: spec_fn(char) -> bool)
    requires
        name.len() > 0,
        !dot(name[0]),
        !dot(name.last()),
    ensures
        chars::trimmed_of(name, dot) == name,
{
    assert(name.skip(0) =~= name);
    assert(chars::trimmed_of(name, dot) =~= name);
}

} // verus!
