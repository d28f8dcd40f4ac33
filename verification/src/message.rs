//! What a conversation is made of: input from the user, output that streams in, and tool results.

use crate::chars;
use std::sync::Arc;
use vstd::prelude::*;

verus! {

/// `Arc::clone`: another handle on the same value.
#[verifier::external_body]
pub(crate) fn share<V>(value: &Arc<V>) -> (shared: Arc<V>)
    ensures
        shared == *value,
{
    Arc::clone(value)
}

/// An image by its address, or by its bytes.
#[derive(Debug, PartialEq, Eq)]
pub enum ImageContent {
    Url { url: String },
    Data { mime_type: String, data: Arc<Vec<u8>> },
}

impl Clone for ImageContent {
    fn clone(&self) -> (image: ImageContent)
        ensures
            image == *self,
    {
        match self {
            ImageContent::Url { url } => ImageContent::Url { url: url.clone() },
            ImageContent::Data { mime_type, data } => ImageContent::Data {
                mime_type: mime_type.clone(),
                data: share(data),
            },
        }
    }
}

/// A piece of input.
#[derive(Debug, PartialEq, Eq)]
pub enum InputContent {
    Text(String),
    Image(ImageContent),
}

impl Clone for InputContent {
    fn clone(&self) -> (content: InputContent)
        ensures
            content == *self,
    {
        match self {
            InputContent::Text(text) => InputContent::Text(text.clone()),
            InputContent::Image(image) => InputContent::Image(image.clone()),
        }
    }
}

pub(crate) fn clone_content(content: &Vec<InputContent>) -> (copy: Vec<InputContent>)
    ensures
        copy@ == content@,
{
    let mut copy: Vec<InputContent> = Vec::new();
    let mut i: usize = 0;
    while i < content.len()
        invariant
            i <= content@.len(),
            copy@ == content@.take(i as int),
        decreases content@.len() - i,
    {
        copy.push(content[i].clone());
        i = i + 1;
        assert(copy@ =~= content@.take(i as int));
    }
    assert(copy@ =~= content@);
    copy
}

/// A message that goes into the conversation.
#[derive(Debug, PartialEq, Eq)]
pub enum InputMessage {
    System(Vec<InputContent>),
    Developer(Vec<InputContent>),
    User(Vec<InputContent>),
}

impl InputMessage {
    pub open spec fn content(&self) -> Seq<InputContent> {
        match self {
            InputMessage::System(content) => content@,
            InputMessage::Developer(content) => content@,
            InputMessage::User(content) => content@,
        }
    }
}

#[derive(Debug, Clone, Copy, PartialEq, Eq, Structural)]
pub enum ToolResultStatus {
    Success,
    Error,
}

/// What came of a tool call.
#[derive(Debug, PartialEq, Eq)]
pub struct ToolResult {
    pub call_id: String,
    pub name: String,
    pub status: ToolResultStatus,
    pub content: Vec<InputContent>,
}

/// A piece of output as it streams in.
#[derive(Debug, PartialEq, Eq)]
pub enum OutputContentDelta {
    Thinking(String),
    Text(String),
    Image(ImageContent),
    ToolCall { id: Option<String>, name: Option<String>, arguments: String },
}

/// An image, with its texts and bytes.
pub enum ImageView {
    Url(Seq<char>),
    Data { mime_type: Seq<char>, data: Seq<u8> },
}

impl View for ImageContent {
    type V = ImageView;

    open spec fn view(&self) -> ImageView {
        match self {
            ImageContent::Url { url } => ImageView::Url(url@),
            ImageContent::Data { mime_type, data } => ImageView::Data {
                mime_type: mime_type@,
                data: (**data)@,
            },
        }
    }
}

/// A piece of input, with its texts.
pub enum ContentView {
    Text(Seq<char>),
    Image(ImageView),
}

impl View for InputContent {
    type V = ContentView;

    open spec fn view(&self) -> ContentView {
        match self {
            InputContent::Text(text) => ContentView::Text(text@),
            InputContent::Image(image) => ContentView::Image(image@),
        }
    }
}

pub open spec fn content_views(content: Seq<InputContent>) -> Seq<ContentView> {
    Seq::new(content.len(), |i: int| content[i]@)
}

fn same_bytes(left: &Vec<u8>, right: &Vec<u8>) -> (same: bool)
    ensures
        same == (left@ == right@),
{
    if left.len() != right.len() {
        return false;
    }
    let mut i: usize = 0;
    while i < left.len()
        invariant
            i <= left@.len(),
            left@.len() == right@.len(),
            forall|j: int| 0 <= j < i ==> #[trigger] left@[j] == right@[j],
        decreases left@.len() - i,
    {
        if left[i] != right[i] {
            return false;
        }
        i = i + 1;
    }
    assert(left@ =~= right@);
    true
}

fn same_image(left: &ImageContent, right: &ImageContent) -> (same: bool)
    ensures
        same == (left@ == right@),
{
    match (left, right) {
        (ImageContent::Url { url: a }, ImageContent::Url { url: b }) => chars::same_text(
            a.as_str(),
            b.as_str(),
        ),
        (
            ImageContent::Data { mime_type: a, data: bytes },
            ImageContent::Data { mime_type: b, data: others },
        ) => chars::same_text(a.as_str(), b.as_str()) && same_bytes(&**bytes, &**others),
        _ => false,
    }
}

/// Whether two inputs are made of the same texts and images.
pub fn same_content(left: &Vec<InputContent>, right: &Vec<InputContent>) -> (same: bool)
    ensures
        same == (content_views(left@) == content_views(right@)),
{
    if left.len() != right.len() {
        assert(content_views(left@).len() != content_views(right@).len());
        return false;
    }
    let mut i: usize = 0;
    while i < left.len()
        invariant
            i <= left@.len(),
            left@.len() == right@.len(),
            forall|j: int| 0 <= j < i ==> (#[trigger] left@[j])@ == right@[j]@,
        decreases left@.len() - i,
    {
        let same = match (&left[i], &right[i]) {
            (InputContent::Text(a), InputContent::Text(b)) => chars::same_text(
                a.as_str(),
                b.as_str(),
            ),
            (InputContent::Image(a), InputContent::Image(b)) => same_image(a, b),
            _ => false,
        };
        if !same {
            proof {
                assert(content_views(left@)[i as int] != content_views(right@)[i as int]);
            }
            return false;
        }
        i = i + 1;
    }
    assert(content_views(left@) =~= content_views(right@));
    true
}

/// What came of a tool call, with its texts.
pub struct ResultView {
    pub call_id: Seq<char>,
    pub name: Seq<char>,
    pub status: ToolResultStatus,
    pub content: Seq<ContentView>,
}

impl View for ToolResult {
    type V = ResultView;

    open spec fn view(&self) -> ResultView {
        ResultView {
            call_id: self.call_id@,
            name: self.name@,
            status: self.status,
            content: content_views(self.content@),
        }
    }
}

/// A message, with its texts.
pub enum MessageView {
    System(Seq<ContentView>),
    Developer(Seq<ContentView>),
    User(Seq<ContentView>),
}

impl View for InputMessage {
    type V = MessageView;

    open spec fn view(&self) -> MessageView {
        match self {
            InputMessage::System(content) => MessageView::System(content_views(content@)),
            InputMessage::Developer(content) => MessageView::Developer(content_views(content@)),
            InputMessage::User(content) => MessageView::User(content_views(content@)),
        }
    }
}

impl Clone for InputMessage {
    fn clone(&self) -> (message: InputMessage)
        ensures
            message@ == self@,
    {
        match self {
            InputMessage::System(content) => InputMessage::System(clone_content(content)),
            InputMessage::Developer(content) => InputMessage::Developer(clone_content(content)),
            InputMessage::User(content) => InputMessage::User(clone_content(content)),
        }
    }
}

pub open spec fn message_views(messages: Seq<InputMessage>) -> Seq<MessageView> {
    Seq::new(messages.len(), |i: int| messages[i]@)
}

} // verus!
