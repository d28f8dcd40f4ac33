//! Styled text: colours, spans and lines.

use vstd::prelude::*;

verus! {

#[derive(Clone, Copy, Debug, PartialEq, Eq, Structural)]
pub enum Color {
    Cyan,
    DarkGray,
    Gray,
    Green,
    LightRed,
    Magenta,
    White,
    Yellow,
    Rgb(u8, u8, u8),
}

/// The colours and the form of text; what is absent is left as the terminal has it.
#[derive(Clone, Copy, Debug, PartialEq, Eq, Structural)]
pub struct Style {
    pub fg: Option<Color>,
    pub bg: Option<Color>,
    pub bold: bool,
    pub italic: bool,
    pub underlined: bool,
}

/// The style that changes nothing.
pub open spec fn plain() -> Style {
    Style { fg: None, bg: None, bold: false, italic: false, underlined: false }
}

impl Default for Style {
    fn default() -> (style: Style)
        ensures
            style == plain(),
    {
        Style { fg: None, bg: None, bold: false, italic: false, underlined: false }
    }
}

impl Style {
    pub fn fg(self, color: Color) -> (style: Style)
        ensures
            style == (Style { fg: Some(color), ..self }),
    {
        Style { fg: Some(color), ..self }
    }

    pub fn bg(self, color: Color) -> (style: Style)
        ensures
            style == (Style { bg: Some(color), ..self }),
    {
        Style { bg: Some(color), ..self }
    }

    pub fn bold(self) -> (style: Style)
        ensures
            style == (Style { bold: true, ..self }),
    {
        Style { bold: true, ..self }
    }

    pub fn italic(self) -> (style: Style)
        ensures
            style == (Style { italic: true, ..self }),
    {
        Style { italic: true, ..self }
    }

    pub fn underlined(self) -> (style: Style)
        ensures
            style == (Style { underlined: true, ..self }),
    {
        Style { underlined: true, ..self }
    }
}

/// Text in one style.
#[derive(Debug, PartialEq, Eq)]
pub struct Span {
    pub content: String,
    pub style: Style,
}

/// Text in one style, as plain values.
pub struct SpanView {
    pub content: Seq<char>,
    pub style: Style,
}

impl View for Span {
    type V = SpanView;

    open spec fn view(&self) -> SpanView {
        SpanView { content: self.content@, style: self.style }
    }
}

impl Clone for Span {
    fn clone(&self) -> (span: Span)
        ensures
            span == *self,
    {
        Span { content: self.content.clone(), style: self.style }
    }
}

impl Span {
    pub fn styled(content: String, style: Style) -> (span: Span)
        ensures
            span@ == (SpanView { content: content@, style }),
    {
        Span { content, style }
    }
}

pub open spec fn span_views(spans: Seq<Span>) -> Seq<SpanView> {
    Seq::new(spans.len(), |i: int| spans[i]@)
}

/// A line of styled text.
#[derive(Debug, PartialEq, Eq)]
pub struct Line {
    pub spans: Vec<Span>,
}

impl View for Line {
    type V = Seq<SpanView>;

    open spec fn view(&self) -> Seq<SpanView> {
        span_views(self.spans@)
    }
}

pub(crate) fn clone_spans(spans: &Vec<Span>) -> (copy: Vec<Span>)
    ensures
        span_views(copy@) == span_views(spans@),
{
    let mut copy: Vec<Span> = Vec::new();
    let mut i: usize = 0;
    while i < spans.len()
        invariant
            i <= spans@.len(),
            copy@.len() == i,
            forall|j: int| 0 <= j < i ==> (#[trigger] copy@[j])@ == spans@[j]@,
        decreases spans@.len() - i,
    {
        copy.push(spans[i].clone());
        i = i + 1;
    }
    assert(span_views(copy@) =~= span_views(spans@));
    copy
}

impl Clone for Line {
    fn clone(&self) -> (line: Line)
        ensures
            line@ == self@,
    {
        Line { spans: clone_spans(&self.spans) }
    }
}

/// The text of a line without its styles: the first `count` spans.
pub open spec fn spans_text(spans: Seq<SpanView>, count: int) -> Seq<char>
    decreases count,
{
    if count <= 0 {
        Seq::empty()
    } else {
        spans_text(spans, count - 1) + spans[count - 1].content
    }
}

pub open spec fn plain_text(line: Seq<SpanView>) -> Seq<char> {
    spans_text(line, line.len() as int)
}

/// A line of one span.
pub open spec fn styled_line(content: Seq<char>, style: Style) -> Seq<SpanView> {
    seq![SpanView { content, style }]
}

impl Line {
    /// A line that holds nothing.
    pub fn blank() -> (line: Line)
        ensures
            line@ == Seq::<SpanView>::empty(),
    {
        let line = Line { spans: Vec::new() };
        assert(line@ =~= Seq::<SpanView>::empty());
        line
    }

    /// A line of one span.
    pub fn styled(content: String, style: Style) -> (line: Line)
        ensures
            line@ == styled_line(content@, style),
    {
        let mut spans: Vec<Span> = Vec::new();
        spans.push(Span::styled(content, style));
        let line = Line { spans };
        assert(line@ =~= styled_line(content@, style));
        line
    }

    /// The text of the line without its styles.
    pub fn text(&self) -> (text: String)
        ensures
            text@ == plain_text(self@),
    {
        let mut text: String = String::new();
        let mut i: usize = 0;
        while i < self.spans.len()
            invariant
                i <= self.spans@.len(),
                text@ == spans_text(self@, i as int),
            decreases self.spans@.len() - i,
        {
            text.append(self.spans[i].content.as_str());
            i = i + 1;
        }
        text
    }
}

pub open spec fn line_views(lines: Seq<Line>) -> Seq<Seq<SpanView>> {
    Seq::new(lines.len(), |i: int| lines[i]@)
}

pub proof fn lemma_line_views_push(lines: Seq<Line>, line: Line)
    ensures
        line_views(lines.push(line)) == line_views(lines).push(line@),
{
    assert(line_views(lines.push(line)) =~= line_views(lines).push(line@));
}

/// Appends lines to lines.
pub(crate) fn append_lines(lines: &mut Vec<Line>, more: Vec<Line>)
    ensures
        line_views(final(lines)@) == line_views(old(lines)@) + line_views(more@),
{
    let ghost before = lines@;
    let ghost added = more@;
    let mut more = more;
    lines.append(&mut more);
    assert(line_views(lines@) =~= line_views(before) + line_views(added));
}

/// The text of a line is the texts of its spans one after the other.
pub proof fn law_line_text_joins_its_spans(line: Seq<SpanView>, span: SpanView)
    ensures
        plain_text(Seq::empty()).len() == 0,
        plain_text(line.push(span)) == plain_text(line) + span.content,
        plain_text(styled_line(span.content, span.style)) == span.content,
{
    lemma_spans_text_prefix(line, line.push(span), line.len() as int);
    reveal_with_fuel(spans_text, 2);
    assert(plain_text(styled_line(span.content, span.style)) =~= span.content);
}

proof fn lemma_spans_text_prefix(a: Seq<SpanView>, b: Seq<SpanView>, count: int)
    requires
        0 <= count <= a.len(),
        count <= b.len(),
        forall|i: int| 0 <= i < count ==> #[trigger] a[i] == b[i],
    ensures
        spans_text(a, count) == spans_text(b, count),
    decreases count,
{
    if count > 0 {
        lemma_spans_text_prefix(a, b, count - 1);
        assert(a[count - 1] == b[count - 1]);
    }
}

} // verus!
