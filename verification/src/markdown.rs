//! Markdown as styled lines: the blocks of a document, built from the events of a parser, and how
//! they are shown.

use crate::chars;
use crate::style;
use crate::style::{Color, Line, Span, SpanView, Style};
use pulldown_cmark::{Event, Parser, TagEnd};
use vstd::prelude::*;

verus! {

/// The parts of a document that the preview tells apart.
#[derive(Debug, Clone, Copy, PartialEq, Eq, Structural)]
pub enum MarkdownTag {
    Quote,
    Item,
    Paragraph,
    Heading,
    CodeBlock,
    Other,
}

/// What a parser finds on its way through a document.
#[derive(Debug)]
pub enum MarkdownEvent {
    Open(MarkdownTag),
    Close(MarkdownTag),
    Text(String),
    Code(String),
    SoftBreak,
    HardBreak,
    Other,
}

/// An event, with its text.
pub enum EventView {
    Open(MarkdownTag),
    Close(MarkdownTag),
    Text(Seq<char>),
    Code(Seq<char>),
    SoftBreak,
    HardBreak,
    Other,
}

impl View for MarkdownEvent {
    type V = EventView;

    open spec fn view(&self) -> EventView {
        match self {
            MarkdownEvent::Open(tag) => EventView::Open(*tag),
            MarkdownEvent::Close(tag) => EventView::Close(*tag),
            MarkdownEvent::Text(text) => EventView::Text(text@),
            MarkdownEvent::Code(text) => EventView::Code(text@),
            MarkdownEvent::SoftBreak => EventView::SoftBreak,
            MarkdownEvent::HardBreak => EventView::HardBreak,
            MarkdownEvent::Other => EventView::Other,
        }
    }
}

pub open spec fn event_views(events: Seq<MarkdownEvent>) -> Seq<EventView> {
    Seq::new(events.len(), |i: int| events[i]@)
}

/// The events that `pulldown_cmark` finds in a document, without any of its extensions.
pub uninterp spec fn parsed_events(markdown: Seq<char>) -> Seq<EventView>;

/// `pulldown_cmark::Parser`, as an iterator: the events of a document. Tags and events that the
/// preview does not tell apart are all `Other`.
#[verifier::external_body]
fn parse_events(markdown: &str) -> (events: Vec<MarkdownEvent>)
    ensures
        event_views(events@) == parsed_events(markdown@),
{
    let kind = |tag| match tag {
        TagEnd::BlockQuote(_) => MarkdownTag::Quote,
        TagEnd::Item => MarkdownTag::Item,
        TagEnd::Paragraph => MarkdownTag::Paragraph,
        TagEnd::Heading(_) => MarkdownTag::Heading,
        TagEnd::CodeBlock => MarkdownTag::CodeBlock,
        _ => MarkdownTag::Other };
    Parser::new(markdown).map(|event| match event {
        Event::Start(tag) => MarkdownEvent::Open(kind(tag.to_end())),
        Event::End(tag) => MarkdownEvent::Close(kind(tag)),
        Event::Text(text) => MarkdownEvent::Text(text.to_string()),
        Event::Code(text) => MarkdownEvent::Code(text.to_string()),
        Event::SoftBreak => MarkdownEvent::SoftBreak,
        Event::HardBreak => MarkdownEvent::HardBreak,
        _ => MarkdownEvent::Other }).collect()
}

#[derive(Debug, PartialEq, Eq)]
pub enum MarkdownSpan {
    Text(String),
    Code(String),
}

/// A run of text or of inline code.
pub enum PartView {
    Text(Seq<char>),
    Code(Seq<char>),
}

impl View for MarkdownSpan {
    type V = PartView;

    open spec fn view(&self) -> PartView {
        match self {
            MarkdownSpan::Text(text) => PartView::Text(text@),
            MarkdownSpan::Code(text) => PartView::Code(text@),
        }
    }
}

pub open spec fn part_views(spans: Seq<MarkdownSpan>) -> Seq<PartView> {
    Seq::new(spans.len(), |i: int| spans[i]@)
}

pub open spec fn part_lines(lines: Seq<Vec<MarkdownSpan>>) -> Seq<Seq<PartView>> {
    Seq::new(lines.len(), |i: int| part_views(lines[i]@))
}

/// A block of a document.
#[derive(Debug, PartialEq, Eq)]
pub enum MarkdownBlock {
    Paragraph { lines: Vec<Vec<MarkdownSpan>> },
    Heading { lines: Vec<Vec<MarkdownSpan>> },
    Code { lines: Vec<String> },
    Quote { lines: Vec<Vec<MarkdownSpan>> },
    Bullet { lines: Vec<Vec<MarkdownSpan>> },
}

/// A block of a document, as plain values.
pub enum BlockView {
    Spans { kind: MarkdownBlockKind, lines: Seq<Seq<PartView>> },
    Code { lines: Seq<Seq<char>> },
}

impl View for MarkdownBlock {
    type V = BlockView;

    open spec fn view(&self) -> BlockView {
        match self {
            MarkdownBlock::Paragraph { lines } => BlockView::Spans {
                kind: MarkdownBlockKind::Paragraph,
                lines: part_lines(lines@),
            },
            MarkdownBlock::Heading { lines } => BlockView::Spans {
                kind: MarkdownBlockKind::Heading,
                lines: part_lines(lines@),
            },
            MarkdownBlock::Code { lines } => BlockView::Code { lines: chars::texts(lines@) },
            MarkdownBlock::Quote { lines } => BlockView::Spans {
                kind: MarkdownBlockKind::Quote,
                lines: part_lines(lines@),
            },
            MarkdownBlock::Bullet { lines } => BlockView::Spans {
                kind: MarkdownBlockKind::Bullet,
                lines: part_lines(lines@),
            },
        }
    }
}

pub open spec fn block_views(blocks: Seq<MarkdownBlock>) -> Seq<BlockView> {
    Seq::new(blocks.len(), |i: int| blocks[i]@)
}

#[derive(Debug, Clone, Copy, PartialEq, Eq, Structural)]
pub enum MarkdownBlockKind {
    Paragraph,
    Heading,
    Quote,
    Bullet,
}

impl MarkdownBlockKind {
    fn block(self, lines: Vec<Vec<MarkdownSpan>>) -> (block: MarkdownBlock)
        ensures
            block@ == (BlockView::Spans { kind: self, lines: part_lines(lines@) }),
    {
        match self {
            MarkdownBlockKind::Paragraph => MarkdownBlock::Paragraph { lines },
            MarkdownBlockKind::Heading => MarkdownBlock::Heading { lines },
            MarkdownBlockKind::Quote => MarkdownBlock::Quote { lines },
            MarkdownBlockKind::Bullet => MarkdownBlock::Bullet { lines },
        }
    }
}

/// A document being read: the blocks that have ended, and the one that is open.
pub struct BuilderView {
    pub blocks: Seq<BlockView>,
    pub lines: Seq<Seq<PartView>>,
    pub kind: Option<MarkdownBlockKind>,
    pub quote_depth: nat,
    pub item_depth: nat,
    pub in_code_block: bool,
    pub code_block: Seq<char>,
}

/// The start of a document.
pub open spec fn empty_builder() -> BuilderView {
    BuilderView {
        blocks: Seq::empty(),
        lines: Seq::empty(),
        kind: None,
        quote_depth: 0,
        item_depth: 0,
        in_code_block: false,
        code_block: Seq::empty(),
    }
}

/// The lines of a block, of which there is at least one.
pub open spec fn with_line(lines: Seq<Seq<PartView>>) -> Seq<Seq<PartView>> {
    if lines.len() == 0 {
        seq![Seq::empty()]
    } else {
        lines
    }
}

/// A line with one more run, which joins the one before it where both are text or both are code.
pub open spec fn with_part(line: Seq<PartView>, part: PartView) -> Seq<PartView> {
    if line.len() == 0 {
        line.push(part)
    } else {
        match (line.last(), part) {
            (PartView::Text(a), PartView::Text(b)) => line.update(
                line.len() - 1,
                PartView::Text(a + b),
            ),
            (PartView::Code(a), PartView::Code(b)) => line.update(
                line.len() - 1,
                PartView::Code(a + b),
            ),
            _ => line.push(part),
        }
    }
}

impl BuilderView {
    /// The kind of a block that starts here: within an item, within a quote, or neither.
    pub open spec fn active_kind(self) -> MarkdownBlockKind {
        if self.item_depth > 0 {
            MarkdownBlockKind::Bullet
        } else if self.quote_depth > 0 {
            MarkdownBlockKind::Quote
        } else {
            MarkdownBlockKind::Paragraph
        }
    }

    /// The open block, if there is one, ended.
    pub open spec fn flushed(self) -> BuilderView {
        match self.kind {
            Some(kind) => BuilderView {
                blocks: self.blocks.push(BlockView::Spans { kind, lines: self.lines }),
                lines: Seq::empty(),
                kind: None,
                ..self
            },
            None => self,
        }
    }

    /// A block of the given kind open, unless one is open already.
    pub open spec fn started(self, kind: MarkdownBlockKind) -> BuilderView {
        BuilderView {
            kind: match self.kind {
                Some(open) => Some(open),
                None => Some(kind),
            },
            lines: with_line(self.lines),
            ..self
        }
    }

    /// One more run of text on the open block's last line.
    pub open spec fn appended(self, part: PartView) -> BuilderView {
        let lines = with_line(self.lines);
        BuilderView {
            kind: match self.kind {
                Some(open) => Some(open),
                None => Some(self.active_kind()),
            },
            lines: lines.update(lines.len() - 1, with_part(lines.last(), part)),
            ..self
        }
    }

    /// The document after one more event.
    pub open spec fn step(self, event: EventView) -> BuilderView {
        match event {
            EventView::Open(MarkdownTag::Quote) => BuilderView {
                quote_depth: self.quote_depth + 1,
                ..self
            },
            EventView::Close(MarkdownTag::Quote) => BuilderView {
                quote_depth: if self.quote_depth > 0 {
                    (self.quote_depth - 1) as nat
                } else {
                    0
                },
                ..self.flushed()
            },
            EventView::Open(MarkdownTag::Item) => BuilderView {
                item_depth: self.item_depth + 1,
                ..self
            },
            EventView::Close(MarkdownTag::Item) => BuilderView {
                item_depth: if self.item_depth > 0 {
                    (self.item_depth - 1) as nat
                } else {
                    0
                },
                ..self.flushed()
            },
            EventView::Open(MarkdownTag::Paragraph) => self.started(self.active_kind()),
            EventView::Close(MarkdownTag::Paragraph) => self.flushed(),
            EventView::Open(MarkdownTag::Heading) => self.started(MarkdownBlockKind::Heading),
            EventView::Close(MarkdownTag::Heading) => self.flushed(),
            EventView::Open(MarkdownTag::CodeBlock) => BuilderView {
                in_code_block: true,
                code_block: Seq::empty(),
                ..self.flushed()
            },
            EventView::Close(MarkdownTag::CodeBlock) => BuilderView {
                blocks: self.blocks.push(
                    BlockView::Code { lines: chars::lines(self.code_block) },
                ),
                in_code_block: false,
                code_block: Seq::empty(),
                ..self
            },
            EventView::Open(MarkdownTag::Other) => self,
            EventView::Close(MarkdownTag::Other) => self,
            EventView::Text(text) => if self.in_code_block {
                BuilderView { code_block: self.code_block + text, ..self }
            } else {
                self.appended(PartView::Text(text))
            },
            EventView::Code(text) => self.appended(PartView::Code(text)),
            EventView::SoftBreak | EventView::HardBreak => if self.in_code_block {
                BuilderView { code_block: self.code_block.push('\n'), ..self }
            } else if self.kind is Some {
                BuilderView { lines: self.lines.push(Seq::empty()), ..self }
            } else {
                self
            },
            EventView::Other => self,
        }
    }
}

/// The document after the first `k` events.
pub open spec fn built(events: Seq<EventView>, k: int) -> BuilderView
    decreases k,
{
    if k <= 0 {
        empty_builder()
    } else {
        built(events, k - 1).step(events[k - 1])
    }
}

/// The blocks of a document. One that holds something but no block is a paragraph of its text.
pub open spec fn blocks_of(events: Seq<EventView>, markdown: Seq<char>) -> Seq<BlockView> {
    let blocks = built(events, events.len() as int).flushed().blocks;
    if blocks.len() == 0 && markdown.len() > 0 {
        seq![
            BlockView::Spans {
                kind: MarkdownBlockKind::Paragraph,
                lines: seq![seq![PartView::Text(markdown)]],
            },
        ]
    } else {
        blocks
    }
}

struct MarkdownBuilder {
    blocks: Vec<MarkdownBlock>,
    lines: Vec<Vec<MarkdownSpan>>,
    kind: Option<MarkdownBlockKind>,
    quote_depth: usize,
    item_depth: usize,
    in_code_block: bool,
    code_block: String,
}

impl View for MarkdownBuilder {
    type V = BuilderView;

    closed spec fn view(&self) -> BuilderView {
        BuilderView {
            blocks: block_views(self.blocks@),
            lines: part_lines(self.lines@),
            kind: self.kind,
            quote_depth: self.quote_depth as nat,
            item_depth: self.item_depth as nat,
            in_code_block: self.in_code_block,
            code_block: self.code_block@,
        }
    }
}

impl MarkdownBuilder {
    fn new() -> (builder: MarkdownBuilder)
        ensures
            builder@ == empty_builder(),
    {
        let builder = MarkdownBuilder {
            blocks: Vec::new(),
            lines: Vec::new(),
            kind: None,
            quote_depth: 0,
            item_depth: 0,
            in_code_block: false,
            code_block: String::new(),
        };
        assert(builder@.blocks =~= Seq::<BlockView>::empty());
        assert(builder@.lines =~= Seq::<Seq<PartView>>::empty());
        builder
    }

    fn active_kind(&self) -> (kind: MarkdownBlockKind)
        ensures
            kind == self@.active_kind(),
    {
        if self.item_depth > 0 {
            MarkdownBlockKind::Bullet
        } else if self.quote_depth > 0 {
            MarkdownBlockKind::Quote
        } else {
            MarkdownBlockKind::Paragraph
        }
    }

    fn ensure_line(&mut self)
        ensures
            final(self)@ == (BuilderView { lines: with_line(old(self)@.lines), ..old(self)@ }),
            final(self).lines@.len() > 0,
    {
        if self.lines.len() == 0 {
            let line: Vec<MarkdownSpan> = Vec::new();
            assert(part_views(line@) =~= Seq::<PartView>::empty());
            self.lines.push(line);
            assert(self@.lines =~= with_line(old(self)@.lines));
        }
    }

    fn start_block(&mut self, kind: MarkdownBlockKind)
        ensures
            final(self)@ == old(self)@.started(kind),
    {
        if self.kind.is_none() {
            self.kind = Some(kind);
        }
        self.ensure_line();
    }

    fn append_span(&mut self, span: MarkdownSpan)
        ensures
            final(self)@ == old(self)@.appended(span@),
    {
        if self.kind.is_none() {
            self.kind = Some(self.active_kind());
        }
        self.ensure_line();
        let ghost lines = self@.lines;
        let ghost part = span@;
        let mut line = self.lines.pop().unwrap();
        let ghost line_before = part_views(line@);
        assert(line_before == lines.last());
        push_span(&mut line, span);
        self.lines.push(line);
        assert(self@.lines =~= lines.update(lines.len() - 1, with_part(lines.last(), part)));
    }

    fn flush_current(&mut self)
        ensures
            final(self)@ == old(self)@.flushed(),
    {
        if let Some(kind) = self.kind.take() {
            let mut lines: Vec<Vec<MarkdownSpan>> = Vec::new();
            core::mem::swap(&mut lines, &mut self.lines);
            self.blocks.push(kind.block(lines));
            assert(self@.lines =~= Seq::<Seq<PartView>>::empty());
            assert(self@.blocks =~= old(self)@.flushed().blocks);
        }
    }

    fn close_code_block(&mut self)
        ensures
            final(self)@ == old(self)@.step(EventView::Close(MarkdownTag::CodeBlock)),
    {
        let lines = chars::split_lines(self.code_block.as_str());
        self.blocks.push(MarkdownBlock::Code { lines });
        self.in_code_block = false;
        self.code_block = String::new();
        assert(self@.blocks =~= old(self)@.step(
            EventView::Close(MarkdownTag::CodeBlock),
        ).blocks);
    }

    fn apply(&mut self, event: &MarkdownEvent)
        requires
            old(self)@.quote_depth < usize::MAX,
            old(self)@.item_depth < usize::MAX,
        ensures
            final(self)@ == old(self)@.step(event@),
    {
        match event {
            MarkdownEvent::Open(tag) => match tag {
                MarkdownTag::Quote => {
                    self.quote_depth = self.quote_depth + 1;
                },
                MarkdownTag::Item => {
                    self.item_depth = self.item_depth + 1;
                },
                MarkdownTag::Paragraph => {
                    let kind = self.active_kind();
                    self.start_block(kind);
                },
                MarkdownTag::Heading => {
                    self.start_block(MarkdownBlockKind::Heading);
                },
                MarkdownTag::CodeBlock => {
                    self.flush_current();
                    self.in_code_block = true;
                    self.code_block = String::new();
                },
                MarkdownTag::Other => {},
            },
            MarkdownEvent::Close(tag) => match tag {
                MarkdownTag::Quote => {
                    self.flush_current();
                    self.quote_depth = self.quote_depth.saturating_sub(1);
                },
                MarkdownTag::Item => {
                    self.flush_current();
                    self.item_depth = self.item_depth.saturating_sub(1);
                },
                MarkdownTag::Paragraph => {
                    self.flush_current();
                },
                MarkdownTag::Heading => {
                    self.flush_current();
                },
                MarkdownTag::CodeBlock => {
                    self.close_code_block();
                },
                MarkdownTag::Other => {},
            },
            MarkdownEvent::Text(text) => {
                if self.in_code_block {
                    self.code_block.append(text.as_str());
                } else {
                    self.append_span(MarkdownSpan::Text(text.clone()));
                }
            },
            MarkdownEvent::Code(text) => {
                self.append_span(MarkdownSpan::Code(text.clone()));
            },
            MarkdownEvent::SoftBreak | MarkdownEvent::HardBreak => {
                if self.in_code_block {
                    self.code_block.push('\n');
                } else if self.kind.is_some() {
                    let line: Vec<MarkdownSpan> = Vec::new();
                    assert(part_views(line@) =~= Seq::<PartView>::empty());
                    self.lines.push(line);
                    assert(self@.lines =~= old(self)@.lines.push(Seq::empty()));
                }
            },
            MarkdownEvent::Other => {},
        }
    }
}

fn push_span(line: &mut Vec<MarkdownSpan>, span: MarkdownSpan)
    ensures
        part_views(final(line)@) == with_part(part_views(old(line)@), span@),
{
    let ghost before = part_views(line@);
    let ghost part = span@;
    if line.len() == 0 {
        line.push(span);
        assert(part_views(line@) =~= with_part(before, part));
        return;
    }
    let last = line.pop().unwrap();
    match (last, span) {
        (MarkdownSpan::Text(existing), MarkdownSpan::Text(text)) => {
            let mut existing = existing;
            existing.append(text.as_str());
            line.push(MarkdownSpan::Text(existing));
        },
        (MarkdownSpan::Code(existing), MarkdownSpan::Code(text)) => {
            let mut existing = existing;
            existing.append(text.as_str());
            line.push(MarkdownSpan::Code(existing));
        },
        (last, span) => {
            line.push(last);
            line.push(span);
        },
    }
    assert(part_views(line@) =~= with_part(before, part));
}

/// How deep a document nests after some events: at most as deep as there were events.
proof fn lemma_built_depth(events: Seq<EventView>, k: int)
    requires
        0 <= k,
    ensures
        built(events, k).quote_depth <= k,
        built(events, k).item_depth <= k,
    decreases k,
{
    if k > 0 {
        lemma_built_depth(events, k - 1);
    }
}

/// Blocks that have ended stay as they are, whatever the rest of the document holds.
pub proof fn law_ended_blocks_stay(events: Seq<EventView>, k: int, n: int)
    requires
        0 <= k <= n <= events.len(),
    ensures
        built(events, k).blocks.is_prefix_of(built(events, n).blocks),
        built(events, k).blocks.is_prefix_of(built(events, n).flushed().blocks),
    decreases n,
{
    if k < n {
        law_ended_blocks_stay(events, k, n - 1);
    }
}

/// The blocks of a document whose parser events are given.
pub fn blocks_of_events(events: &Vec<MarkdownEvent>, markdown: &str) -> (blocks: Vec<MarkdownBlock>)
    ensures
        block_views(blocks@) == blocks_of(event_views(events@), markdown@),
{
    let ghost views = event_views(events@);
    let mut builder = MarkdownBuilder::new();
    let count: usize = events.len();
    let mut i: usize = 0;
    while i < count
        invariant
            i <= count == events@.len(),
            views == event_views(events@),
            builder@ == built(views, i as int),
        decreases count - i,
    {
        proof {
            lemma_built_depth(views, i as int);
        }
        builder.apply(&events[i]);
        i = i + 1;
    }
    builder.flush_current();
    let mut blocks = builder.blocks;
    if blocks.len() == 0 && !markdown.is_empty() {
        let mut line: Vec<MarkdownSpan> = Vec::new();
        line.push(MarkdownSpan::Text(markdown.to_owned()));
        assert(part_views(line@) =~= seq![PartView::Text(markdown@)]);
        let mut lines: Vec<Vec<MarkdownSpan>> = Vec::new();
        lines.push(line);
        assert(part_lines(lines@) =~= seq![seq![PartView::Text(markdown@)]]);
        blocks.push(MarkdownBlock::Paragraph { lines });
        assert(block_views(blocks@) =~= blocks_of(views, markdown@));
    }
    blocks
}

pub fn parse_markdown_blocks(markdown: &str) -> (blocks: Vec<MarkdownBlock>)
    ensures
        block_views(blocks@) == blocks_of(parsed_events(markdown@), markdown@),
{
    let events = parse_events(markdown);
    blocks_of_events(&events, markdown)
}

#[derive(Debug, Clone, Copy, PartialEq, Eq, Structural)]
pub struct MarkdownStyles {
    pub text: Style,
    pub heading: Style,
    pub code: Style,
    pub quote_marker: Style,
    pub quote: Style,
    pub bullet_marker: Style,
}

pub open spec fn default_styles() -> MarkdownStyles {
    MarkdownStyles {
        text: style::plain(),
        heading: Style { bold: true, ..style::plain() },
        code: Style { fg: Some(Color::Cyan), ..style::plain() },
        quote_marker: Style { fg: Some(Color::DarkGray), ..style::plain() },
        quote: Style { fg: Some(Color::Gray), ..style::plain() },
        bullet_marker: Style { fg: Some(Color::Cyan), ..style::plain() },
    }
}

impl Default for MarkdownStyles {
    fn default() -> (styles: MarkdownStyles)
        ensures
            styles == default_styles(),
    {
        MarkdownStyles {
            text: Style::default(),
            heading: Style::default().bold(),
            code: Style::default().fg(Color::Cyan),
            quote_marker: Style::default().fg(Color::DarkGray),
            quote: Style::default().fg(Color::Gray),
            bullet_marker: Style::default().fg(Color::Cyan),
        }
    }
}

/// A run of text in the style of text or of code.
pub open spec fn styled_part(part: PartView, text_style: Style, code_style: Style) -> SpanView {
    match part {
        PartView::Text(text) => SpanView { content: text, style: text_style },
        PartView::Code(text) => SpanView { content: text, style: code_style },
    }
}

/// A line of runs, after a marker if the block has one.
pub open spec fn parts_line(
    parts: Seq<PartView>,
    marker: Option<SpanView>,
    text_style: Style,
    code_style: Style,
) -> Seq<SpanView> {
    let spans = Seq::new(
        parts.len(),
        |i: int| styled_part(parts[i], text_style, code_style),
    );
    match marker {
        Some(marker) => seq![marker] + spans,
        None => spans,
    }
}

/// The marker in front of each line of a block.
pub open spec fn block_marker(kind: MarkdownBlockKind, styles: MarkdownStyles) -> Option<SpanView> {
    match kind {
        MarkdownBlockKind::Quote => Some(
            SpanView { content: "│ "@, style: styles.quote_marker },
        ),
        MarkdownBlockKind::Bullet => Some(
            SpanView { content: "• "@, style: styles.bullet_marker },
        ),
        _ => None,
    }
}

pub open spec fn block_text_style(kind: MarkdownBlockKind, styles: MarkdownStyles) -> Style {
    match kind {
        MarkdownBlockKind::Paragraph => styles.text,
        MarkdownBlockKind::Heading => styles.heading,
        MarkdownBlockKind::Quote => styles.quote,
        MarkdownBlockKind::Bullet => styles.text,
    }
}

/// The lines that show a block.
pub open spec fn block_lines(block: BlockView, styles: MarkdownStyles) -> Seq<Seq<SpanView>> {
    match block {
        BlockView::Spans { kind, lines } => Seq::new(
            lines.len(),
            |i: int|
                parts_line(
                    lines[i],
                    block_marker(kind, styles),
                    block_text_style(kind, styles),
                    styles.code,
                ),
        ),
        BlockView::Code { lines } => Seq::new(
            lines.len(),
            |i: int| style::styled_line(lines[i], styles.code),
        ),
    }
}

/// Whether two blocks follow each other without an empty line: two bullets, or two quotes.
pub open spec fn no_gap(previous: BlockView, next: BlockView) -> bool {
    match (previous, next) {
        (BlockView::Spans { kind: a, .. }, BlockView::Spans { kind: b, .. }) => a == b && (a
            == MarkdownBlockKind::Bullet || a == MarkdownBlockKind::Quote),
        _ => false,
    }
}

/// A line that holds nothing.
pub open spec fn blank_line() -> Seq<SpanView> {
    Seq::empty()
}

/// The lines that show the first `count` blocks.
pub open spec fn document_lines(
    blocks: Seq<BlockView>,
    count: int,
    styles: MarkdownStyles,
) -> Seq<Seq<SpanView>>
    decreases count,
{
    if count <= 0 {
        Seq::empty()
    } else {
        let before = document_lines(blocks, count - 1, styles);
        let separated = if count > 1 && !no_gap(blocks[count - 2], blocks[count - 1]) {
            before.push(blank_line())
        } else {
            before
        };
        separated + block_lines(blocks[count - 1], styles)
    }
}

fn blocks_touch(previous: &MarkdownBlock, next: &MarkdownBlock) -> (touch: bool)
    ensures
        touch == no_gap(previous@, next@),
{
    match (previous, next) {
        (MarkdownBlock::Bullet { .. }, MarkdownBlock::Bullet { .. }) => true,
        (MarkdownBlock::Quote { .. }, MarkdownBlock::Quote { .. }) => true,
        _ => false,
    }
}

fn span_line(
    spans: &Vec<MarkdownSpan>,
    marker: Option<&Span>,
    text_style: Style,
    code_style: Style,
) -> (line: Line)
    ensures
        line@ == parts_line(
            part_views(spans@),
            match marker {
                Some(marker) => Some(marker@),
                None => None,
            },
            text_style,
            code_style,
        ),
{
    let ghost marker_view = match marker {
        Some(marker) => Some(marker@),
        None => None,
    };
    let mut styled: Vec<Span> = Vec::new();
    if let Some(marker) = marker {
        styled.push(marker.clone());
    }
    let ghost start = style::span_views(styled@);
    let ghost parts = part_views(spans@);
    let ghost expected = Seq::new(
        parts.len(),
        |j: int| styled_part(parts[j], text_style, code_style),
    );
    let mut i: usize = 0;
    assert(start + expected.take(0) =~= start);
    while i < spans.len()
        invariant
            i <= spans@.len(),
            parts == part_views(spans@),
            expected.len() == spans@.len(),
            forall|j: int|
                0 <= j < expected.len() ==> #[trigger] expected[j] == styled_part(
                    parts[j],
                    text_style,
                    code_style,
                ),
            style::span_views(styled@) == start + expected.take(i as int),
        decreases spans@.len() - i,
    {
        let ghost before = style::span_views(styled@);
        let span = match &spans[i] {
            MarkdownSpan::Text(text) => Span::styled(text.clone(), text_style),
            MarkdownSpan::Code(text) => Span::styled(text.clone(), code_style),
        };
        assert(span@ == expected[i as int]);
        let ghost view = span@;
        styled.push(span);
        i = i + 1;
        assert(style::span_views(styled@) =~= before.push(view));
        assert(style::span_views(styled@) =~= start + expected.take(i as int));
    }
    assert(expected.take(expected.len() as int) =~= expected);
    let line = Line { spans: styled };
    assert(line@ =~= parts_line(parts, marker_view, text_style, code_style));
    line
}

fn span_lines(
    lines: &Vec<Vec<MarkdownSpan>>,
    kind: MarkdownBlockKind,
    styles: MarkdownStyles,
) -> (shown: Vec<Line>)
    ensures
        style::line_views(shown@) == block_lines(
            BlockView::Spans { kind, lines: part_lines(lines@) },
            styles,
        ),
{
    let ghost expected = block_lines(
        BlockView::Spans { kind, lines: part_lines(lines@) },
        styles,
    );
    let text_style = match kind {
        MarkdownBlockKind::Paragraph => styles.text,
        MarkdownBlockKind::Heading => styles.heading,
        MarkdownBlockKind::Quote => styles.quote,
        MarkdownBlockKind::Bullet => styles.text,
    };
    let mut shown: Vec<Line> = Vec::new();
    let mut i: usize = 0;
    assert(style::line_views(shown@) =~= expected.take(0));
    while i < lines.len()
        invariant
            i <= lines@.len(),
            text_style == block_text_style(kind, styles),
            expected == block_lines(
                BlockView::Spans { kind, lines: part_lines(lines@) },
                styles,
            ),
            style::line_views(shown@) == expected.take(i as int),
        decreases lines@.len() - i,
    {
        let marker = match kind {
            MarkdownBlockKind::Quote => Some(
                Span::styled("│ ".to_owned(), styles.quote_marker),
            ),
            MarkdownBlockKind::Bullet => Some(
                Span::styled("• ".to_owned(), styles.bullet_marker),
            ),
            _ => None,
        };
        let line = span_line(&lines[i], marker.as_ref(), text_style, styles.code);
        assert(line@ == expected[i as int]);
        proof {
            style::lemma_line_views_push(shown@, line);
        }
        shown.push(line);
        i = i + 1;
        assert(style::line_views(shown@) =~= expected.take(i as int));
    }
    assert(expected.take(expected.len() as int) =~= expected);
    shown
}

/// Lines of plain text in one style.
pub(crate) fn plain_lines(texts: &Vec<String>, line_style: Style) -> (shown: Vec<Line>)
    ensures
        style::line_views(shown@) == Seq::new(
            texts@.len(),
            |i: int| style::styled_line(texts@[i]@, line_style),
        ),
{
    let ghost expected = Seq::new(
        texts@.len(),
        |i: int| style::styled_line(texts@[i]@, line_style),
    );
    let mut shown: Vec<Line> = Vec::new();
    let mut i: usize = 0;
    assert(style::line_views(shown@) =~= expected.take(0));
    while i < texts.len()
        invariant
            i <= texts@.len(),
            expected == Seq::new(
                texts@.len(),
                |i: int| style::styled_line(texts@[i]@, line_style),
            ),
            style::line_views(shown@) == expected.take(i as int),
        decreases texts@.len() - i,
    {
        let line = Line::styled(texts[i].clone(), line_style);
        proof {
            style::lemma_line_views_push(shown@, line);
        }
        shown.push(line);
        i = i + 1;
        assert(style::line_views(shown@) =~= expected.take(i as int));
    }
    assert(expected.take(expected.len() as int) =~= expected);
    shown
}

fn markdown_block_lines(block: &MarkdownBlock, styles: MarkdownStyles) -> (shown: Vec<Line>)
    ensures
        style::line_views(shown@) == block_lines(block@, styles),
{
    match block {
        MarkdownBlock::Paragraph { lines } => span_lines(
            lines,
            MarkdownBlockKind::Paragraph,
            styles,
        ),
        MarkdownBlock::Heading { lines } => span_lines(lines, MarkdownBlockKind::Heading, styles),
        MarkdownBlock::Code { lines } => {
            let shown = plain_lines(lines, styles.code);
            assert(style::line_views(shown@) =~= block_lines(block@, styles));
            shown
        },
        MarkdownBlock::Quote { lines } => span_lines(lines, MarkdownBlockKind::Quote, styles),
        MarkdownBlock::Bullet { lines } => span_lines(lines, MarkdownBlockKind::Bullet, styles),
    }
}

/// The lines that show the blocks of a document.
pub fn lines_of_blocks(blocks: &Vec<MarkdownBlock>, styles: MarkdownStyles) -> (shown: Vec<Line>)
    ensures
        style::line_views(shown@) == document_lines(
            block_views(blocks@),
            blocks@.len() as int,
            styles,
        ),
{
    let ghost views = block_views(blocks@);
    let mut shown: Vec<Line> = Vec::new();
    let mut i: usize = 0;
    assert(style::line_views(shown@) =~= document_lines(views, 0, styles));
    while i < blocks.len()
        invariant
            i <= blocks@.len(),
            views == block_views(blocks@),
            style::line_views(shown@) == document_lines(views, i as int, styles),
        decreases blocks@.len() - i,
    {
        if i > 0 && !blocks_touch(&blocks[i - 1], &blocks[i]) {
            let blank = Line::blank();
            proof {
                style::lemma_line_views_push(shown@, blank);
            }
            shown.push(blank);
        }
        let lines = markdown_block_lines(&blocks[i], styles);
        style::append_lines(&mut shown, lines);
        i = i + 1;
    }
    shown
}

/// A document to be shown.
#[derive(Debug, Clone, Copy)]
pub struct MarkdownPreview<'a> {
    pub markdown: &'a str,
    pub styles: MarkdownStyles,
    pub wrap: bool,
}

/// The lines that show a document.
pub open spec fn preview_lines(markdown: Seq<char>, styles: MarkdownStyles) -> Seq<Seq<SpanView>> {
    let blocks = blocks_of(parsed_events(markdown), markdown);
    document_lines(blocks, blocks.len() as int, styles)
}

impl<'a> MarkdownPreview<'a> {
    pub fn new(markdown: &'a str) -> (preview: Self)
        ensures
            preview.markdown == markdown,
            preview.styles == default_styles(),
            preview.wrap,
    {
        MarkdownPreview { markdown, styles: MarkdownStyles::default(), wrap: true }
    }

    pub fn styles(self, styles: MarkdownStyles) -> (preview: Self)
        ensures
            preview == (MarkdownPreview { styles, ..self }),
    {
        MarkdownPreview { styles, ..self }
    }

    pub fn wrap(self, wrap: bool) -> (preview: Self)
        ensures
            preview == (MarkdownPreview { wrap, ..self }),
    {
        MarkdownPreview { wrap, ..self }
    }

    pub fn lines(&self) -> (shown: Vec<Line>)
        ensures
            style::line_views(shown@) == preview_lines(self.markdown@, self.styles),
    {
        let blocks = parse_markdown_blocks(self.markdown);
        lines_of_blocks(&blocks, self.styles)
    }
}

/// The text of a run.
pub open spec fn part_text(part: PartView) -> Seq<char> {
    match part {
        PartView::Text(text) => text,
        PartView::Code(text) => text,
    }
}

/// The texts of the runs of a line one after the other.
pub open spec fn parts_text(parts: Seq<PartView>) -> Seq<char>
    decreases parts.len(),
{
    if parts.len() == 0 {
        Seq::empty()
    } else {
        parts_text(parts.drop_last()) + part_text(parts.last())
    }
}

/// Text that is found goes behind the text of the last line of the open block, whether it is plain
/// or code, and changes nothing else. Where no block is open one starts with it.
pub proof fn law_found_text_goes_on_the_last_line(builder: BuilderView, text: Seq<char>, code: bool)
    requires
        code || !builder.in_code_block,
    ensures
        ({
            let after = builder.step(
                if code {
                    EventView::Code(text)
                } else {
                    EventView::Text(text)
                },
            );
            &&& after.lines.len() > 0
            &&& after.lines.last().len() > 0
            &&& after.lines.last().last() is Code <==> code
            &&& builder.lines.len() > 0 ==> after.lines.drop_last() == builder.lines.drop_last()
                && parts_text(after.lines.last()) == parts_text(builder.lines.last()) + text
            &&& builder.lines.len() == 0 ==> after.lines.len() == 1 && parts_text(
                after.lines.last(),
            ) == text
            &&& after.blocks == builder.blocks
            &&& after.kind is Some
            &&& builder.kind is Some ==> after.kind == builder.kind
        }),
{
    let part = if code {
        PartView::Code(text)
    } else {
        PartView::Text(text)
    };
    let lines = with_line(builder.lines);
    let line = lines.last();
    let grown = with_part(line, part);
    let after = builder.appended(part);
    assert(after.lines.drop_last() =~= lines.drop_last());
    assert(after.lines.last() == grown);
    assert(grown.drop_last() =~= if grown.len() == line.len() {
        line.drop_last()
    } else {
        line
    });
    if grown.len() == line.len() {
        assert(part_text(grown.last()) =~= part_text(line.last()) + text);
        assert(parts_text(grown) =~= parts_text(line.drop_last()) + part_text(line.last()) + text);
    } else {
        assert(parts_text(grown) =~= parts_text(line) + text);
    }
    if builder.lines.len() == 0 {
        assert(parts_text(line) =~= Seq::<char>::empty());
        assert(parts_text(grown) =~= text);
    }
}

/// A line break in an open block starts a new line and leaves the others as they are; one outside of
/// any block is nothing.
pub proof fn law_line_breaks_start_lines(builder: BuilderView)
    requires
        !builder.in_code_block,
    ensures
        builder.kind is Some ==> builder.step(EventView::SoftBreak) == (BuilderView {
            lines: builder.lines.push(Seq::empty()),
            ..builder
        }),
        builder.kind is None ==> builder.step(EventView::SoftBreak) == builder,
        builder.step(EventView::HardBreak) == builder.step(EventView::SoftBreak),
{
}

/// A paragraph is a block with its text: in an item of a list it is a bullet, else in a quotation it
/// is a quote. A heading is one wherever it stands.
pub proof fn law_paragraphs_are_blocks(builder: BuilderView, text: Seq<char>)
    requires
        builder.kind is None,
        builder.lines.len() == 0,
        !builder.in_code_block,
    ensures
        ({
            let paragraph = builder.step(EventView::Open(MarkdownTag::Paragraph)).step(
                EventView::Text(text),
            ).step(EventView::Close(MarkdownTag::Paragraph));
            let heading = builder.step(EventView::Open(MarkdownTag::Heading)).step(
                EventView::Text(text),
            ).step(EventView::Close(MarkdownTag::Heading));
            let lines = seq![seq![PartView::Text(text)]];
            &&& paragraph.blocks.drop_last() == builder.blocks
            &&& builder.item_depth > 0 ==> paragraph.blocks.last() == (BlockView::Spans {
                kind: MarkdownBlockKind::Bullet,
                lines,
            })
            &&& builder.item_depth == 0 && builder.quote_depth > 0 ==> paragraph.blocks.last() == (
            BlockView::Spans { kind: MarkdownBlockKind::Quote, lines })
            &&& builder.item_depth == 0 && builder.quote_depth == 0 ==> paragraph.blocks.last()
                == (BlockView::Spans { kind: MarkdownBlockKind::Paragraph, lines })
            &&& paragraph.kind is None && paragraph.lines.len() == 0
            &&& heading.blocks.drop_last() == builder.blocks
            &&& heading.blocks.last() == (BlockView::Spans {
                kind: MarkdownBlockKind::Heading,
                lines,
            })
            &&& heading.kind is None && heading.lines.len() == 0
        }),
{
    let lines = seq![seq![PartView::Text(text)]];
    let opened = builder.step(EventView::Open(MarkdownTag::Paragraph));
    let told = opened.step(EventView::Text(text));
    assert(opened.lines =~= seq![Seq::<PartView>::empty()]);
    assert(with_part(Seq::empty(), PartView::Text(text)) =~= seq![PartView::Text(text)]);
    assert(told.lines =~= lines);
    assert(told.flushed().blocks.drop_last() =~= builder.blocks);
    let headed = builder.step(EventView::Open(MarkdownTag::Heading)).step(EventView::Text(text));
    assert(headed.lines =~= lines);
    assert(headed.flushed().blocks.drop_last() =~= builder.blocks);
}

/// What stands in a code block are the texts found in it one after the other, as lines; a block that
/// was open before it ends before it.
pub proof fn law_code_blocks_hold_their_text(
    builder: BuilderView,
    first: Seq<char>,
    second: Seq<char>,
)
    ensures
        ({
            let open = builder.step(EventView::Open(MarkdownTag::CodeBlock));
            let after = open.step(EventView::Text(first)).step(EventView::Text(second)).step(
                EventView::Close(MarkdownTag::CodeBlock),
            );
            &&& after.blocks.last() == (BlockView::Code { lines: chars::lines(first + second) })
            &&& after.blocks.drop_last() == builder.flushed().blocks
            &&& after.lines == builder.flushed().lines
            &&& after.kind is None
            &&& !after.in_code_block
            &&& open.step(EventView::SoftBreak).code_block == open.code_block.push('\n')
            &&& open.step(EventView::SoftBreak).lines == open.lines
        }),
{
    let open = builder.step(EventView::Open(MarkdownTag::CodeBlock));
    let after = open.step(EventView::Text(first)).step(EventView::Text(second)).step(
        EventView::Close(MarkdownTag::CodeBlock),
    );
    assert(Seq::<char>::empty() + first + second =~= first + second);
    assert(after.blocks.drop_last() =~= builder.flushed().blocks);
}

/// To leave a quotation or an item leads back to the depth before it; an open block ends there with
/// all of its lines.
pub proof fn law_nesting_is_left_again(builder: BuilderView)
    ensures
        ({
            let quote = builder.step(EventView::Open(MarkdownTag::Quote));
            let item = builder.step(EventView::Open(MarkdownTag::Item));
            &&& quote.quote_depth == builder.quote_depth + 1 && quote.item_depth
                == builder.item_depth
            &&& item.item_depth == builder.item_depth + 1 && item.quote_depth
                == builder.quote_depth
            &&& quote.lines == builder.lines && item.lines == builder.lines
            &&& quote.step(EventView::Close(MarkdownTag::Quote)) == builder.flushed()
            &&& item.step(EventView::Close(MarkdownTag::Item)) == builder.flushed()
        }),
        builder.kind matches Some(kind) ==> {
            &&& builder.flushed().blocks.len() == builder.blocks.len() + 1
            &&& builder.flushed().blocks.last() == (BlockView::Spans {
                kind,
                lines: builder.lines,
            })
            &&& builder.flushed().blocks.drop_last() == builder.blocks
            &&& builder.flushed().kind is None && builder.flushed().lines.len() == 0
        },
        builder.kind is None ==> builder.flushed() == builder,
{
    assert(builder.kind is Some ==> builder.flushed().blocks.drop_last() =~= builder.blocks);
}

/// A document in which no block is found is shown as its text.
pub proof fn law_documents_without_blocks_show_their_text(markdown: Seq<char>)
    requires
        markdown.len() > 0,
    ensures
        blocks_of(Seq::empty(), markdown).len() == 1,
        blocks_of(Seq::empty(), markdown)[0] == (BlockView::Spans {
            kind: MarkdownBlockKind::Paragraph,
            lines: seq![seq![PartView::Text(markdown)]],
        }),
        blocks_of(Seq::empty(), Seq::empty()).len() == 0,
{
}

proof fn lemma_document_prefix(
    a: Seq<BlockView>,
    b: Seq<BlockView>,
    count: int,
    styles: MarkdownStyles,
)
    requires
        0 <= count <= a.len(),
        count <= b.len(),
        forall|i: int| 0 <= i < count ==> #[trigger] a[i] == b[i],
    ensures
        document_lines(a, count, styles) == document_lines(b, count, styles),
    decreases count,
{
    if count > 0 {
        lemma_document_prefix(a, b, count - 1, styles);
        assert(a[count - 1] == b[count - 1]);
        if count > 1 {
            assert(a[count - 2] == b[count - 2]);
        }
    }
}

/// A document is shown block after block, with an empty line before each block but the first; only
/// bullets behind bullets and quotes behind quotes follow without one.
pub proof fn law_blocks_are_shown_in_order(
    blocks: Seq<BlockView>,
    last: BlockView,
    styles: MarkdownStyles,
)
    ensures
        ({
            let before = document_lines(blocks, blocks.len() as int, styles);
            let after = document_lines(blocks.push(last), blocks.len() as int + 1, styles);
            let own = block_lines(last, styles);
            &&& before.is_prefix_of(after)
            &&& after.skip(after.len() - own.len()) == own
            &&& blocks.len() == 0 ==> after == own
            &&& blocks.len() > 0 ==> {
                let touching = match (blocks.last(), last) {
                    (BlockView::Spans { kind: a, .. }, BlockView::Spans { kind: b, .. }) => (a
                        is Bullet && b is Bullet) || (a is Quote && b is Quote),
                    _ => false,
                };
                &&& touching ==> after.len() == before.len() + own.len()
                &&& !touching ==> after.len() == before.len() + 1 + own.len()
                    && after[before.len() as int].len() == 0
            }
        }),
{
    let all = blocks.push(last);
    let count = blocks.len() as int;
    lemma_document_prefix(blocks, all, count, styles);
    let before = document_lines(blocks, count, styles);
    let after = document_lines(all, count + 1, styles);
    let own = block_lines(last, styles);
    assert(after.skip(after.len() - own.len()) =~= own);
    assert(before =~= after.subrange(0, before.len() as int));
    if count == 0 {
        assert(after =~= own);
    }
}

proof fn lemma_parts_line_text(parts: Seq<PartView>, text_style: Style, code_style: Style, k: int)
    requires
        0 <= k <= parts.len(),
    ensures
        style::spans_text(parts_line(parts, None, text_style, code_style), k) == parts_text(
            parts.take(k),
        ),
    decreases k,
{
    if k > 0 {
        lemma_parts_line_text(parts, text_style, code_style, k - 1);
        assert(parts.take(k).drop_last() =~= parts.take(k - 1));
        assert(parts.take(k).last() == parts[k - 1]);
    } else {
        assert(parts_text(parts.take(0)) =~= Seq::<char>::empty());
    }
}

proof fn lemma_marked_line_text(
    parts: Seq<PartView>,
    marker: SpanView,
    text_style: Style,
    code_style: Style,
    k: int,
)
    requires
        0 <= k <= parts.len(),
    ensures
        style::spans_text(parts_line(parts, Some(marker), text_style, code_style), k + 1)
            == marker.content + parts_text(parts.take(k)),
    decreases k,
{
    let line = parts_line(parts, Some(marker), text_style, code_style);
    if k > 0 {
        lemma_marked_line_text(parts, marker, text_style, code_style, k - 1);
        assert(parts.take(k).drop_last() =~= parts.take(k - 1));
        assert(parts.take(k).last() == parts[k - 1]);
        assert(line[k] == styled_part(parts[k - 1], text_style, code_style));
        assert(style::spans_text(line, k + 1) =~= marker.content + parts_text(parts.take(k)));
    } else {
        reveal_with_fuel(style::spans_text, 2);
        assert(line[0] == marker);
        assert(parts_text(parts.take(0)) =~= Seq::<char>::empty());
        assert(style::spans_text(line, 1) =~= marker.content + parts_text(parts.take(0)));
    }
}

/// Each line of a block is shown as a line with its text; a line of a quote or of a bullet has the
/// mark of its block before it. Lines of code are shown as they are.
pub proof fn law_lines_of_blocks_keep_their_text(
    lines: Seq<Seq<PartView>>,
    code: Seq<Seq<char>>,
    styles: MarkdownStyles,
    i: int,
)
    ensures
        forall|kind: MarkdownBlockKind|
            (#[trigger] block_lines(BlockView::Spans { kind, lines }, styles)).len()
                == lines.len(),
        block_lines(BlockView::Code { lines: code }, styles).len() == code.len(),
        0 <= i < lines.len() ==> {
            let paragraph = BlockView::Spans { kind: MarkdownBlockKind::Paragraph, lines };
            let heading = BlockView::Spans { kind: MarkdownBlockKind::Heading, lines };
            let quote = BlockView::Spans { kind: MarkdownBlockKind::Quote, lines };
            let bullet = BlockView::Spans { kind: MarkdownBlockKind::Bullet, lines };
            &&& style::plain_text(block_lines(paragraph, styles)[i]) == parts_text(lines[i])
            &&& style::plain_text(block_lines(heading, styles)[i]) == parts_text(lines[i])
            &&& style::plain_text(block_lines(quote, styles)[i]) == "│ "@ + parts_text(lines[i])
            &&& style::plain_text(block_lines(bullet, styles)[i]) == "• "@ + parts_text(lines[i])
        },
        0 <= i < code.len() ==> style::plain_text(
            block_lines(BlockView::Code { lines: code }, styles)[i],
        ) == code[i],
{
    if 0 <= i < lines.len() {
        let parts = lines[i];
        let n = parts.len() as int;
        assert(parts.take(n) =~= parts);
        lemma_parts_line_text(parts, styles.text, styles.code, n);
        lemma_parts_line_text(parts, styles.heading, styles.code, n);
        lemma_marked_line_text(
            parts,
            SpanView { content: "│ "@, style: styles.quote_marker },
            styles.quote,
            styles.code,
            n,
        );
        lemma_marked_line_text(
            parts,
            SpanView { content: "• "@, style: styles.bullet_marker },
            styles.text,
            styles.code,
            n,
        );
    }
    if 0 <= i < code.len() {
        style::law_line_text_joins_its_spans(
            Seq::empty(),
            SpanView { content: code[i], style: styles.code },
        );
    }
}

/// Runs of a line are shown as what they are: text in the style of the block and code in that of
/// code.
pub proof fn law_runs_are_shown_in_their_style(
    parts: Seq<PartView>,
    text_style: Style,
    code_style: Style,
    i: int,
)
    requires
        0 <= i < parts.len(),
    ensures
        parts_line(parts, None, text_style, code_style)[i].content == part_text(parts[i]),
        parts[i] is Text ==> parts_line(parts, None, text_style, code_style)[i].style
            == text_style,
        parts[i] is Code ==> parts_line(parts, None, text_style, code_style)[i].style
            == code_style,
{
}

} // verus!
