//! The status bar.

use crate::style;
use crate::style::{Color, Line, Span, SpanView, Style};
use vstd::prelude::*;

verus! {

#[derive(Debug, PartialEq, Eq)]
pub struct StatusBarState {
    pub model: String,
    pub context: String,
    pub workspace: String,
}

impl Default for StatusBarState {
    fn default() -> (status: StatusBarState)
        ensures
            status.model@ == "mock-model"@,
            status.context@ == "mock ctx"@,
            status.workspace@ == "."@,
    {
        StatusBarState {
            model: "mock-model".to_owned(),
            context: "mock ctx".to_owned(),
            workspace: ".".to_owned(),
        }
    }
}

/// The line that shows what the bar knows.
#[derive(Debug)]
pub struct StatusBar<'a> {
    pub status: &'a StatusBarState,
}

/// The style of the model's name.
pub open spec fn model_style() -> Style {
    Style { fg: Some(Color::Cyan), ..style::plain() }
}

/// The model, the context and the workspace, with dots between them.
pub open spec fn status_line(model: Seq<char>, context: Seq<char>, workspace: Seq<char>) -> Seq<
    SpanView,
> {
    let dot = SpanView { content: " · "@, style: style::plain() };
    seq![
        SpanView { content: model, style: model_style() },
        dot,
        SpanView { content: context, style: style::plain() },
        dot,
        SpanView { content: workspace, style: style::plain() },
    ]
}

impl<'a> StatusBar<'a> {
    pub fn new(status: &'a StatusBarState) -> (bar: StatusBar<'a>)
        ensures
            bar.status == status,
    {
        StatusBar { status }
    }

    /// The line that is drawn.
    pub fn line(&self) -> (line: Line)
        ensures
            line@ == status_line(
                self.status.model@,
                self.status.context@,
                self.status.workspace@,
            ),
    {
        let mut spans: Vec<Span> = Vec::new();
        spans.push(Span::styled(self.status.model.clone(), Style::default().fg(Color::Cyan)));
        spans.push(Span::styled(" · ".to_owned(), Style::default()));
        spans.push(Span::styled(self.status.context.clone(), Style::default()));
        spans.push(Span::styled(" · ".to_owned(), Style::default()));
        spans.push(Span::styled(self.status.workspace.clone(), Style::default()));
        let line = Line { spans };
        assert(line@ =~= status_line(
            self.status.model@,
            self.status.context@,
            self.status.workspace@,
        ));
        line
    }
}

/// The status line reads as the model, the context and the workspace, in this order and with a dot
/// between each two of them; only the model stands out.
pub proof fn law_status_reads_model_context_workspace(
    model: Seq<char>,
    context: Seq<char>,
    workspace: Seq<char>,
)
    ensures
        style::plain_text(status_line(model, context, workspace)) == model + " · "@ + context
            + " · "@ + workspace,
        status_line(model, context, workspace)[0].content == model,
        status_line(model, context, workspace)[0].style.fg == Some(Color::Cyan),
        forall|i: int|
            1 <= i < status_line(model, context, workspace).len() ==> (#[trigger] status_line(
                model,
                context,
                workspace,
            )[i]).style == style::plain(),
{
    reveal_with_fuel(style::spans_text, 6);
    assert(style::plain_text(status_line(model, context, workspace)) =~= model + " · "@ + context
        + " · "@ + workspace);
}

} // verus!
