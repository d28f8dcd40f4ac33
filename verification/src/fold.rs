//! Long texts folded to their first lines.

use crate::chars;
use crate::style;
use crate::style::{Color, Line, SpanView, Style};
use vstd::prelude::*;

verus! {

/// The line that tells how many lines a fold hides; `{count}` in its template stands for their
/// number.
#[derive(Debug)]
pub struct FoldHint {
    pub template: String,
    pub style: Style,
}

/// The text of a fold's hint.
pub open spec fn hint_text(template: Seq<char>, hidden_count: nat) -> Seq<char> {
    chars::replaced(template, "{count}"@, chars::decimal(hidden_count), 0)
}

impl FoldHint {
    pub fn new(template: String, style: Style) -> (hint: FoldHint)
        ensures
            hint.template == template,
            hint.style == style,
    {
        FoldHint { template, style }
    }

    pub fn text(&self, hidden_count: usize) -> (text: String)
        ensures
            text@ == hint_text(self.template@, hidden_count as nat),
    {
        proof {
            reveal_strlit("{count}");
        }
        let count = chars::format_decimal(hidden_count as u64);
        chars::replace_text(self.template.as_str(), "{count}", count.as_str())
    }

    pub fn line(&self, hidden_count: usize) -> (line: Line)
        ensures
            line@ == style::styled_line(
                hint_text(self.template@, hidden_count as nat),
                self.style,
            ),
    {
        Line::styled(self.text(hidden_count), self.style)
    }
}

impl Default for FoldHint {
    fn default() -> (hint: FoldHint)
        ensures
            hint.template@ == "{count} lines hidden"@,
            hint.style == (Style { fg: Some(Color::DarkGray), ..style::plain() }),
    {
        FoldHint {
            template: "{count} lines hidden".to_owned(),
            style: Style::default().fg(Color::DarkGray),
        }
    }
}

/// The first `max_visible` lines, and where there are more, a hint that counts the others.
pub open spec fn folded(
    lines: Seq<Seq<SpanView>>,
    max_visible: nat,
    template: Seq<char>,
    hint_style: Style,
) -> Seq<Seq<SpanView>> {
    if lines.len() <= max_visible {
        lines
    } else {
        lines.take(max_visible as int).push(
            style::styled_line(
                hint_text(template, (lines.len() - max_visible) as nat),
                hint_style,
            ),
        )
    }
}

/// A text that is folded after `max_visible` lines.
#[derive(Debug)]
pub struct FoldedText {
    pub lines: Vec<Line>,
    pub max_visible: usize,
    pub hint: FoldHint,
    pub wrap: bool,
}

impl FoldedText {
    pub fn new(lines: Vec<Line>, max_visible: usize) -> (folded: FoldedText)
        ensures
            folded.lines == lines,
            folded.max_visible == max_visible,
            folded.hint.template@ == "{count} lines hidden"@,
            folded.hint.style == (Style { fg: Some(Color::DarkGray), ..style::plain() }),
            folded.wrap,
    {
        FoldedText { lines, max_visible, hint: FoldHint::default(), wrap: true }
    }

    pub fn hint(self, hint: FoldHint) -> (folded: FoldedText)
        ensures
            folded == (FoldedText { hint, ..self }),
    {
        FoldedText { hint, ..self }
    }

    pub fn wrap(self, wrap: bool) -> (folded: FoldedText)
        ensures
            folded == (FoldedText { wrap, ..self }),
    {
        FoldedText { wrap, ..self }
    }

    /// The lines to show.
    pub fn lines(&self) -> (visible: Vec<Line>)
        ensures
            style::line_views(visible@) == folded(
                style::line_views(self.lines@),
                self.max_visible as nat,
                self.hint.template@,
                self.hint.style,
            ),
    {
        let ghost all = style::line_views(self.lines@);
        let shown: usize = if self.lines.len() <= self.max_visible {
            self.lines.len()
        } else {
            self.max_visible
        };
        let mut visible: Vec<Line> = Vec::new();
        let mut i: usize = 0;
        assert(style::line_views(visible@) =~= all.take(0));
        while i < shown
            invariant
                i <= shown <= self.lines@.len(),
                all == style::line_views(self.lines@),
                style::line_views(visible@) == all.take(i as int),
            decreases shown - i,
        {
            let line = self.lines[i].clone();
            proof {
                style::lemma_line_views_push(visible@, line);
            }
            visible.push(line);
            i = i + 1;
            assert(style::line_views(visible@) =~= all.take(i as int));
        }
        if self.lines.len() > self.max_visible {
            let line = self.hint.line(self.lines.len() - self.max_visible);
            proof {
                style::lemma_line_views_push(visible@, line);
            }
            visible.push(line);
        }
        assert(all.take(all.len() as int) =~= all);
        visible
    }
}

/// A fold shows the head of the text unchanged and at most one line more than its limit.
pub proof fn law_fold_keeps_head(
    lines: Seq<Seq<SpanView>>,
    max_visible: nat,
    template: Seq<char>,
    hint_style: Style,
    i: int,
)
    requires
        0 <= i < lines.len(),
        i < max_visible,
    ensures
        folded(lines, max_visible, template, hint_style)[i] == lines[i],
        folded(lines, max_visible, template, hint_style).len() <= max_visible + 1,
        lines.len() <= max_visible ==> folded(lines, max_visible, template, hint_style) == lines,
{
}

/// A text that is longer than its fold shows is told short: behind the lines that are shown stands
/// one more, which tells how many are hidden.
pub proof fn law_fold_counts_what_it_hides(
    lines: Seq<Seq<SpanView>>,
    max_visible: nat,
    before: Seq<char>,
    after: Seq<char>,
    hint_style: Style,
)
    requires
        lines.len() > max_visible,
        forall|i: int|
            0 <= i < before.len() ==> !(#[trigger] chars::occurs_at(
                before + "{count}"@ + after,
                "{count}"@,
                i,
            )),
        forall|i: int|
            before.len() + 7 <= i < before.len() + 7 + after.len() ==> !(
            #[trigger] chars::occurs_at(before + "{count}"@ + after, "{count}"@, i)),
    ensures
        ({
            let shown = folded(lines, max_visible, before + "{count}"@ + after, hint_style);
            &&& shown.len() == max_visible + 1
            &&& forall|i: int| 0 <= i < max_visible ==> #[trigger] shown[i] == lines[i]
            &&& shown.last().len() == 1
            &&& shown.last()[0].content == before + chars::decimal(
                (lines.len() - max_visible) as nat,
            ) + after
            &&& shown.last()[0].style == hint_style
        }),
{
    reveal_strlit("{count}");
    let template = before + "{count}"@ + after;
    let number = chars::decimal((lines.len() - max_visible) as nat);
    let at = before.len() as int;
    assert(template.subrange(at, at + 7) =~= "{count}"@);
    chars::law_replacing_keeps_the_rest(template, "{count}"@, number, 0, at);
    chars::law_replacing_keeps_the_rest(
        template,
        "{count}"@,
        number,
        at + 7,
        template.len() as int,
    );
    assert(template.subrange(0, at) =~= before);
    assert(template.skip(at + 7) =~= after);
}

} // verus!
