//! The messages that a model has been given and has answered.

use crate::message;
use crate::message::{
    ImageContent, ImageView, InputContent, InputMessage, MessageView, ResultView, ToolResult,
};
use vstd::prelude::*;

verus! {

/// A part of an answer.
#[derive(Debug, PartialEq, Eq)]
pub enum OutputContent {
    Thinking(String),
    Text(String),
    Image(ImageContent),
    ToolCall { id: String, name: String, arguments: String },
}

/// A part of an answer, with its texts.
pub enum OutputView {
    Thinking(Seq<char>),
    Text(Seq<char>),
    Image(ImageView),
    ToolCall { id: Seq<char>, name: Seq<char>, arguments: Seq<char> },
}

impl View for OutputContent {
    type V = OutputView;

    open spec fn view(&self) -> OutputView {
        match self {
            OutputContent::Thinking(text) => OutputView::Thinking(text@),
            OutputContent::Text(text) => OutputView::Text(text@),
            OutputContent::Image(image) => OutputView::Image(image@),
            OutputContent::ToolCall { id, name, arguments } => OutputView::ToolCall {
                id: id@,
                name: name@,
                arguments: arguments@,
            },
        }
    }
}

impl Clone for OutputContent {
    fn clone(&self) -> (content: OutputContent)
        ensures
            content@ == self@,
    {
        match self {
            OutputContent::Thinking(text) => OutputContent::Thinking(text.clone()),
            OutputContent::Text(text) => OutputContent::Text(text.clone()),
            OutputContent::Image(image) => OutputContent::Image(image.clone()),
            OutputContent::ToolCall { id, name, arguments } => OutputContent::ToolCall {
                id: id.clone(),
                name: name.clone(),
                arguments: arguments.clone(),
            },
        }
    }
}

pub open spec fn output_views(content: Seq<OutputContent>) -> Seq<OutputView> {
    Seq::new(content.len(), |i: int| content[i]@)
}

fn clone_output(content: &Vec<OutputContent>) -> (copy: Vec<OutputContent>)
    ensures
        output_views(copy@) == output_views(content@),
{
    let mut copy: Vec<OutputContent> = Vec::new();
    let mut i: usize = 0;
    while i < content.len()
        invariant
            i <= content@.len(),
            copy@.len() == i,
            forall|j: int| 0 <= j < i ==> (#[trigger] copy@[j])@ == content@[j]@,
        decreases content@.len() - i,
    {
        copy.push(content[i].clone());
        i = i + 1;
    }
    assert(output_views(copy@) =~= output_views(content@));
    copy
}

/// A message of the history.
#[derive(Debug, PartialEq, Eq)]
pub enum Message {
    Input(InputMessage),
    Assistant(Vec<OutputContent>),
    Tool(ToolResult),
}

/// A message of the history, with its texts.
pub enum EntryView {
    Input(MessageView),
    Assistant(Seq<OutputView>),
    Tool(ResultView),
}

impl View for Message {
    type V = EntryView;

    open spec fn view(&self) -> EntryView {
        match self {
            Message::Input(input) => EntryView::Input(input@),
            Message::Assistant(content) => EntryView::Assistant(output_views(content@)),
            Message::Tool(result) => EntryView::Tool(result@),
        }
    }
}

impl Clone for Message {
    fn clone(&self) -> (entry: Message)
        ensures
            entry@ == self@,
    {
        match self {
            Message::Input(input) => Message::Input(input.clone()),
            Message::Assistant(content) => Message::Assistant(clone_output(content)),
            Message::Tool(result) => Message::Tool(
                ToolResult {
                    call_id: result.call_id.clone(),
                    name: result.name.clone(),
                    status: result.status,
                    content: message::clone_content(&result.content),
                },
            ),
        }
    }
}

impl Message {
    pub fn user(content: Vec<InputContent>) -> (entry: Message)
        ensures
            entry == Message::Input(InputMessage::User(content)),
    {
        Message::Input(InputMessage::User(content))
    }

    pub fn developer(content: Vec<InputContent>) -> (entry: Message)
        ensures
            entry == Message::Input(InputMessage::Developer(content)),
    {
        Message::Input(InputMessage::Developer(content))
    }

    pub fn assistant(content: Vec<OutputContent>) -> (entry: Message)
        ensures
            entry == Message::Assistant(content),
    {
        Message::Assistant(content)
    }
}

pub open spec fn entry_views(messages: Seq<Message>) -> Seq<EntryView> {
    Seq::new(messages.len(), |i: int| messages[i]@)
}

/// The messages of a session, oldest first.
#[derive(Debug, PartialEq, Eq)]
pub struct AgentHistory {
    pub messages: Vec<Message>,
}

impl View for AgentHistory {
    type V = Seq<EntryView>;

    open spec fn view(&self) -> Seq<EntryView> {
        entry_views(self.messages@)
    }
}

impl Default for AgentHistory {
    fn default() -> (history: AgentHistory)
        ensures
            history@ == Seq::<EntryView>::empty(),
    {
        let history = AgentHistory { messages: Vec::new() };
        assert(history@ =~= Seq::<EntryView>::empty());
        history
    }
}

impl Clone for AgentHistory {
    fn clone(&self) -> (history: AgentHistory)
        ensures
            history@ == self@,
    {
        let mut messages: Vec<Message> = Vec::new();
        let mut i: usize = 0;
        while i < self.messages.len()
            invariant
                i <= self.messages@.len(),
                messages@.len() == i,
                forall|j: int| 0 <= j < i ==> (#[trigger] messages@[j])@ == self.messages@[j]@,
            decreases self.messages@.len() - i,
        {
            messages.push(self.messages[i].clone());
            i = i + 1;
        }
        let history = AgentHistory { messages };
        assert(history@ =~= self@);
        history
    }
}

/// A history with one more input.
pub open spec fn with_input(history: Seq<EntryView>, input: MessageView) -> Seq<EntryView> {
    history.push(EntryView::Input(input))
}

/// A history with more inputs, in their order.
pub open spec fn with_inputs(history: Seq<EntryView>, inputs: Seq<MessageView>) -> Seq<EntryView> {
    history + Seq::new(inputs.len(), |i: int| EntryView::Input(inputs[i]))
}

impl AgentHistory {
    pub fn from_messages(messages: Vec<Message>) -> (history: AgentHistory)
        ensures
            history.messages == messages,
    {
        AgentHistory { messages }
    }

    pub fn messages(&self) -> (messages: &[Message])
        ensures
            messages@ == self.messages@,
    {
        self.messages.as_slice()
    }

    pub fn push_input(&mut self, input: InputMessage)
        ensures
            final(self)@ == with_input(old(self)@, input@),
    {
        let ghost before = self@;
        self.messages.push(Message::Input(input));
        assert(self@ =~= with_input(before, input@));
    }
}

/// Inputs go behind what the history holds, in their order, and change nothing of it.
pub proof fn law_inputs_go_behind_the_history(
    history: Seq<EntryView>,
    inputs: Seq<MessageView>,
    input: MessageView,
)
    ensures
        with_inputs(history, Seq::empty()) == history,
        with_inputs(history, inputs.push(input)) == with_input(
            with_inputs(history, inputs),
            input,
        ),
        with_input(history, input).drop_last() == history,
        with_input(history, input).last() == EntryView::Input(input),
{
    assert(with_inputs(history, Seq::empty()) =~= history);
    assert(with_inputs(history, inputs.push(input)) =~= with_input(
        with_inputs(history, inputs),
        input,
    ));
    assert(with_input(history, input).drop_last() =~= history);
}

} // verus!
