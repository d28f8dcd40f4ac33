//! The conversation as a list of blocks, which streamed output and tool results grow.

use crate::chars;
use crate::message;
use crate::message::{
    ContentView, ImageContent, ImageView, InputContent, InputMessage, MessageView,
    OutputContentDelta, ResultView, ToolResult,
};
use std::collections::HashMap;
use vstd::prelude::*;
use vstd::std_specs::hash::*;

verus! {

broadcast use vstd::std_specs::hash::group_hash_axioms;

#[derive(Debug, Clone, Copy, PartialEq, Eq, Hash, Structural)]
pub struct BlockId(pub u64);

impl BlockId {
    pub fn get(self) -> (id: u64)
        ensures
            id == self.0,
    {
        self.0
    }

    fn next(self) -> (id: BlockId)
        requires
            self.0 < u64::MAX,
        ensures
            id.0 == self.0 + 1,
    {
        BlockId(self.0 + 1)
    }
}

#[derive(Debug, PartialEq, Eq)]
pub enum AssistantItem {
    Text(String),
    Image(ImageContent),
}

/// A part of an answer, with its text.
pub enum ItemView {
    Text(Seq<char>),
    Image(ImageView),
}

impl View for AssistantItem {
    type V = ItemView;

    open spec fn view(&self) -> ItemView {
        match self {
            AssistantItem::Text(text) => ItemView::Text(text@),
            AssistantItem::Image(image) => ItemView::Image(image@),
        }
    }
}

pub open spec fn item_views(items: Seq<AssistantItem>) -> Seq<ItemView> {
    Seq::new(items.len(), |i: int| items[i]@)
}

/// A tool call and, once it has come, its result.
#[derive(Debug, PartialEq, Eq)]
pub struct ToolBlockState {
    pub call_id: Option<String>,
    pub name: String,
    pub arguments: String,
    pub result: Option<ToolResult>,
}

/// A tool call, with its texts.
pub struct ToolView {
    pub call_id: Option<Seq<char>>,
    pub name: Seq<char>,
    pub arguments: Seq<char>,
    pub result: Option<ResultView>,
}

pub open spec fn optional_text(text: Option<String>) -> Option<Seq<char>> {
    match text {
        Some(text) => Some(text@),
        None => None,
    }
}

impl View for ToolBlockState {
    type V = ToolView;

    open spec fn view(&self) -> ToolView {
        ToolView {
            call_id: optional_text(self.call_id),
            name: self.name@,
            arguments: self.arguments@,
            result: match self.result {
                Some(result) => Some(result@),
                None => None,
            },
        }
    }
}

#[derive(Debug, PartialEq, Eq)]
pub enum BlockKind {
    User { content: Vec<InputContent> },
    Thinking { text: String },
    Assistant { items: Vec<AssistantItem> },
    Error { text: String },
    Command { text: String, is_error: bool },
    Tool(ToolBlockState),
}

/// What a block holds, with its texts.
pub enum KindView {
    User { content: Seq<ContentView> },
    Thinking { text: Seq<char> },
    Assistant { items: Seq<ItemView> },
    Error { text: Seq<char> },
    Command { text: Seq<char>, is_error: bool },
    Tool(ToolView),
}

impl View for BlockKind {
    type V = KindView;

    open spec fn view(&self) -> KindView {
        match self {
            BlockKind::User { content } => KindView::User {
                content: message::content_views(content@),
            },
            BlockKind::Thinking { text } => KindView::Thinking { text: text@ },
            BlockKind::Assistant { items } => KindView::Assistant { items: item_views(items@) },
            BlockKind::Error { text } => KindView::Error { text: text@ },
            BlockKind::Command { text, is_error } => KindView::Command {
                text: text@,
                is_error: *is_error,
            },
            BlockKind::Tool(tool) => KindView::Tool(tool@),
        }
    }
}

/// A block of the conversation.
#[derive(Debug, PartialEq, Eq)]
pub struct BlockState {
    pub id: BlockId,
    pub kind: BlockKind,
    pub foldable: bool,
    pub expanded: bool,
}

/// A block, with its texts.
pub struct BlockView {
    pub id: u64,
    pub kind: KindView,
    pub foldable: bool,
    pub expanded: bool,
}

impl View for BlockState {
    type V = BlockView;

    open spec fn view(&self) -> BlockView {
        BlockView {
            id: self.id.0,
            kind: self.kind@,
            foldable: self.foldable,
            expanded: self.expanded,
        }
    }
}

impl BlockState {
    pub fn id(&self) -> (id: BlockId)
        ensures
            id == self.id,
    {
        self.id
    }

    pub fn kind(&self) -> (kind: &BlockKind)
        ensures
            *kind == self.kind,
    {
        &self.kind
    }

    pub fn is_foldable(&self) -> (foldable: bool)
        ensures
            foldable == self.foldable,
    {
        self.foldable
    }

    pub fn is_expanded(&self) -> (expanded: bool)
        ensures
            expanded == self.expanded,
    {
        self.expanded
    }
}

pub open spec fn block_views(blocks: Seq<BlockState>) -> Seq<BlockView> {
    Seq::new(blocks.len(), |i: int| blocks[i]@)
}

/// The conversation: its blocks, and which block the output with a given index goes to.
pub struct StateView {
    pub blocks: Seq<BlockView>,
    pub routes: Map<usize, u64>,
    pub next_id: u64,
    pub revision: u64,
}

/// An empty conversation.
pub open spec fn empty_state() -> StateView {
    StateView { blocks: Seq::empty(), routes: Map::empty(), next_id: 1, revision: 0 }
}

/// Where the first block with an identifier stands among the first `count` blocks.
pub open spec fn find_block(blocks: Seq<BlockView>, id: u64, count: int) -> Option<int>
    decreases count,
{
    if count <= 0 {
        None
    } else {
        match find_block(blocks, id, count - 1) {
            Some(i) => Some(i),
            None => if blocks[count - 1].id == id {
                Some(count - 1)
            } else {
                None
            },
        }
    }
}

/// Where the first block for a tool call stands among the first `count` blocks.
pub open spec fn find_call(blocks: Seq<BlockView>, call_id: Seq<char>, count: int) -> Option<int>
    decreases count,
{
    if count <= 0 {
        None
    } else {
        match find_call(blocks, call_id, count - 1) {
            Some(i) => Some(i),
            None => if is_call(blocks[count - 1], call_id) {
                Some(count - 1)
            } else {
                None
            },
        }
    }
}

pub open spec fn is_call(block: BlockView, call_id: Seq<char>) -> bool {
    block.kind matches KindView::Tool(tool) && tool.call_id == Some(call_id)
}

/// A piece of output, with its texts.
pub enum DeltaView {
    Thinking(Seq<char>),
    Text(Seq<char>),
    Image(ImageView),
    ToolCall { id: Option<Seq<char>>, name: Option<Seq<char>>, arguments: Seq<char> },
}

impl View for OutputContentDelta {
    type V = DeltaView;

    open spec fn view(&self) -> DeltaView {
        match self {
            OutputContentDelta::Thinking(text) => DeltaView::Thinking(text@),
            OutputContentDelta::Text(text) => DeltaView::Text(text@),
            OutputContentDelta::Image(image) => DeltaView::Image(image@),
            OutputContentDelta::ToolCall { id, name, arguments } => DeltaView::ToolCall {
                id: optional_text(*id),
                name: optional_text(*name),
                arguments: arguments@,
            },
        }
    }
}

/// Where the first image among the first `count` parts of an answer stands.
pub open spec fn find_image(items: Seq<ItemView>, count: int) -> Option<int>
    decreases count,
{
    if count <= 0 {
        None
    } else {
        match find_image(items, count - 1) {
            Some(i) => Some(i),
            None => if items[count - 1] is Image {
                Some(count - 1)
            } else {
                None
            },
        }
    }
}

/// An answer with more text, which continues text at its end.
pub open spec fn with_text(items: Seq<ItemView>, text: Seq<char>) -> Seq<ItemView> {
    if items.len() > 0 {
        match items.last() {
            ItemView::Text(existing) => items.update(
                items.len() - 1,
                ItemView::Text(existing + text),
            ),
            ItemView::Image(_) => items.push(ItemView::Text(text)),
        }
    } else {
        items.push(ItemView::Text(text))
    }
}

/// An answer with an image, in place of the one it had.
pub open spec fn with_image(items: Seq<ItemView>, image: ImageView) -> Seq<ItemView> {
    match find_image(items, items.len() as int) {
        Some(i) => items.update(i, ItemView::Image(image)),
        None => items.push(ItemView::Image(image)),
    }
}

/// Whether a piece of a tool call continues a call that has no result yet: it has the same
/// identifier, or one of the two has none.
pub open spec fn continues_call(tool: ToolView, id: Option<Seq<char>>) -> bool {
    tool.result is None && match (id, tool.call_id) {
        (Some(incoming), Some(existing)) => incoming == existing,
        _ => true,
    }
}

/// A tool call after one more piece of it.
pub open spec fn continued_call(
    tool: ToolView,
    id: Option<Seq<char>>,
    name: Option<Seq<char>>,
    arguments: Seq<char>,
) -> ToolView {
    ToolView {
        call_id: match tool.call_id {
            Some(existing) => Some(existing),
            None => id,
        },
        name: match name {
            Some(name) => name,
            None => tool.name,
        },
        arguments: tool.arguments + arguments,
        result: tool.result,
    }
}

/// What a block becomes when output is routed to it, if it can take it.
pub open spec fn grown(kind: KindView, delta: DeltaView) -> Option<KindView> {
    match (kind, delta) {
        (KindView::Thinking { text }, DeltaView::Thinking(more)) => Some(
            KindView::Thinking { text: text + more },
        ),
        (KindView::Assistant { items }, DeltaView::Text(text)) => Some(
            KindView::Assistant { items: with_text(items, text) },
        ),
        (KindView::Assistant { items }, DeltaView::Image(image)) => Some(
            KindView::Assistant { items: with_image(items, image) },
        ),
        (KindView::Tool(tool), DeltaView::ToolCall { id, name, arguments }) => if continues_call(
            tool,
            id,
        ) {
            Some(KindView::Tool(continued_call(tool, id, name, arguments)))
        } else {
            None
        },
        _ => None,
    }
}

/// The block that output starts.
pub open spec fn opened(delta: DeltaView) -> KindView {
    match delta {
        DeltaView::Thinking(text) => KindView::Thinking { text },
        DeltaView::Text(text) => KindView::Assistant { items: seq![ItemView::Text(text)] },
        DeltaView::Image(image) => KindView::Assistant { items: seq![ItemView::Image(image)] },
        DeltaView::ToolCall { id, name, arguments } => KindView::Tool(
            ToolView {
                call_id: id,
                name: match name {
                    Some(name) => name,
                    None => Seq::empty(),
                },
                arguments,
                result: None,
            },
        ),
    }
}

/// Thinking and tool calls can be folded.
pub open spec fn folds(delta: DeltaView) -> bool {
    delta is Thinking || delta is ToolCall
}

impl StateView {
    /// One more block at the end, with an identifier of its own.
    pub open spec fn pushed(self, kind: KindView, foldable: bool) -> StateView {
        StateView {
            blocks: self.blocks.push(
                BlockView { id: self.next_id, kind, foldable, expanded: true },
            ),
            next_id: (self.next_id + 1) as u64,
            revision: self.revision.wrapping_add(1),
            ..self
        }
    }

    /// Another content in block `i`.
    pub open spec fn changed(self, i: int, kind: KindView) -> StateView {
        StateView {
            blocks: self.blocks.update(i, BlockView { kind, ..self.blocks[i] }),
            revision: self.revision.wrapping_add(1),
            ..self
        }
    }

    /// The block that output with an index is routed to.
    pub open spec fn routed(self, content_index: usize) -> Option<int> {
        if self.routes.contains_key(content_index) {
            find_block(self.blocks, self.routes[content_index], self.blocks.len() as int)
        } else {
            None
        }
    }

    /// What the block that output is routed to becomes, if it can take the output.
    pub open spec fn growth(self, content_index: usize, delta: DeltaView) -> Option<(int, KindView)> {
        match self.routed(content_index) {
            Some(i) => match grown(self.blocks[i].kind, delta) {
                Some(kind) => Some((i, kind)),
                None => None,
            },
            None => None,
        }
    }

    /// Output that streamed in: it grows the block that it is routed to, or starts a block to
    /// which more output with the same index is routed.
    pub open spec fn with_delta(self, content_index: usize, delta: DeltaView) -> StateView {
        match self.growth(content_index, delta) {
            Some((i, kind)) => self.changed(i, kind),
            None => StateView {
                routes: self.routes.insert(content_index, self.next_id),
                ..self.pushed(opened(delta), folds(delta))
            },
        }
    }

    /// A tool result that came: it joins the block of its call, or has a block of its own. Either
    /// way the output that follows starts new blocks.
    pub open spec fn with_tool_result(self, result: ResultView) -> StateView {
        let changed = match find_call(self.blocks, result.call_id, self.blocks.len() as int) {
            Some(i) => self.changed(
                i,
                KindView::Tool(
                    ToolView { result: Some(result), ..self.blocks[i].kind->Tool_0 },
                ),
            ),
            None => self.pushed(
                KindView::Tool(
                    ToolView {
                        call_id: Some(result.call_id),
                        name: result.name,
                        arguments: Seq::empty(),
                        result: Some(result),
                    },
                ),
                true,
            ),
        };
        StateView { routes: Map::empty(), ..changed }
    }

    /// Input that was given: a message of the user is shown, and the output that follows starts
    /// new blocks.
    pub open spec fn with_input(self, message: MessageView) -> StateView {
        match message {
            MessageView::User(content) => StateView {
                routes: Map::empty(),
                ..self.pushed(KindView::User { content }, false)
            },
            _ => self,
        }
    }

    pub open spec fn any_foldable(self) -> bool {
        exists|i: int| 0 <= i < self.blocks.len() && (#[trigger] self.blocks[i]).foldable
    }

    pub open spec fn any_collapsed(self) -> bool {
        exists|i: int|
            0 <= i < self.blocks.len() && (#[trigger] self.blocks[i]).foldable
                && !self.blocks[i].expanded
    }

    /// All foldable blocks expanded if one was collapsed, else all of them collapsed.
    pub open spec fn with_folds_toggled(self) -> StateView {
        let expanded = self.any_collapsed();
        StateView {
            blocks: Seq::new(
                self.blocks.len(),
                |i: int|
                    if self.blocks[i].foldable {
                        BlockView { expanded, ..self.blocks[i] }
                    } else {
                        self.blocks[i]
                    },
            ),
            revision: if self.any_foldable() {
                self.revision.wrapping_add(1)
            } else {
                self.revision
            },
            ..self
        }
    }

    /// The conversation without its blocks.
    pub open spec fn cleared(self) -> StateView {
        if self.blocks.len() == 0 {
            self
        } else {
            StateView {
                blocks: Seq::empty(),
                routes: Map::empty(),
                revision: self.revision.wrapping_add(1),
                ..self
            }
        }
    }

    /// Identifiers start at one and are given out in increasing order, and output is routed only to
    /// blocks that have been there.
    pub open spec fn well_formed(self) -> bool {
        &&& 1 <= self.next_id
        &&& forall|i: int| 0 <= i < self.blocks.len() ==> 1 <= (#[trigger] self.blocks[i]).id
            < self.next_id
        &&& forall|i: int, j: int|
            0 <= i < j < self.blocks.len() ==> (#[trigger] self.blocks[i]).id < (
            #[trigger] self.blocks[j]).id
        &&& forall|index: usize| #[trigger]
            self.routes.contains_key(index) ==> self.routes[index] < self.next_id
    }
}

proof fn lemma_find_block(blocks: Seq<BlockView>, id: u64, count: int)
    requires
        count <= blocks.len(),
    ensures
        match find_block(blocks, id, count) {
            Some(i) => 0 <= i < count && blocks[i].id == id && forall|j: int|
                0 <= j < i ==> (#[trigger] blocks[j]).id != id,
            None => forall|j: int| 0 <= j < count ==> (#[trigger] blocks[j]).id != id,
        },
    decreases count,
{
    if count > 0 {
        lemma_find_block(blocks, id, count - 1);
    }
}

proof fn lemma_find_call(blocks: Seq<BlockView>, call_id: Seq<char>, count: int)
    requires
        count <= blocks.len(),
    ensures
        match find_call(blocks, call_id, count) {
            Some(i) => 0 <= i < count && is_call(blocks[i], call_id) && forall|j: int|
                0 <= j < i ==> !is_call(#[trigger] blocks[j], call_id),
            None => forall|j: int| 0 <= j < count ==> !is_call(#[trigger] blocks[j], call_id),
        },
    decreases count,
{
    if count > 0 {
        lemma_find_call(blocks, call_id, count - 1);
    }
}

/// An empty conversation is well formed.
pub proof fn law_empty_state_well_formed()
    ensures
        empty_state().well_formed(),
{
}

/// Output that streams in adds at most one block.
pub proof fn lemma_delta_len(state: StateView, content_index: usize, delta: DeltaView)
    ensures
        state.blocks.len() <= state.with_delta(content_index, delta).blocks.len()
            <= state.blocks.len() + 1,
{
    if let Some(i) = state.routed(content_index) {
        lemma_find_block(state.blocks, state.routes[content_index], state.blocks.len() as int);
    }
}

/// A tool result adds at most one block.
pub proof fn lemma_tool_result_len(state: StateView, result: ResultView)
    ensures
        state.blocks.len() <= state.with_tool_result(result).blocks.len() <= state.blocks.len() + 1,
{
    lemma_find_call(state.blocks, result.call_id, state.blocks.len() as int);
}

/// Whatever comes in, identifiers stay distinct and blocks keep their places: no step reorders,
/// renames or drops a block but clearing, which drops them all.
pub proof fn law_delta_keeps_blocks(state: StateView, content_index: usize, delta: DeltaView)
    requires
        state.well_formed(),
        state.next_id < u64::MAX,
    ensures
        state.with_delta(content_index, delta).well_formed(),
        state.blocks.len() <= state.with_delta(content_index, delta).blocks.len()
            <= state.blocks.len() + 1,
        forall|i: int|
            0 <= i < state.blocks.len() ==> (#[trigger] state.with_delta(
                content_index,
                delta,
            ).blocks[i]).id == state.blocks[i].id,
{
    if state.routes.contains_key(content_index) {
        lemma_find_block(state.blocks, state.routes[content_index], state.blocks.len() as int);
    }
    let after = state.with_delta(content_index, delta);
    match state.growth(content_index, delta) {
        Some((k, kind)) => {
            assert forall|i: int| 0 <= i < state.blocks.len() implies (
            #[trigger] after.blocks[i]).id == state.blocks[i].id by {}
        },
        None => {},
    }
}

/// A tool result keeps identifiers distinct and blocks in their places.
pub proof fn law_tool_result_keeps_blocks(state: StateView, result: ResultView)
    requires
        state.well_formed(),
        state.next_id < u64::MAX,
    ensures
        state.with_tool_result(result).well_formed(),
        forall|i: int|
            0 <= i < state.blocks.len() ==> (#[trigger] state.with_tool_result(
                result,
            ).blocks[i]).id == state.blocks[i].id,
{
    lemma_find_call(state.blocks, result.call_id, state.blocks.len() as int);
}

/// A block that is added, input that is given, folds that are toggled and a conversation that is
/// cleared keep identifiers distinct; all but the last keep blocks in their places.
pub proof fn law_other_steps_keep_blocks(
    state: StateView,
    kind: KindView,
    foldable: bool,
    message: MessageView,
)
    requires
        state.well_formed(),
        state.next_id < u64::MAX,
    ensures
        state.pushed(kind, foldable).well_formed(),
        state.with_input(message).well_formed(),
        state.with_folds_toggled().well_formed(),
        state.cleared().well_formed(),
        state.pushed(kind, foldable).blocks.drop_last() == state.blocks,
        state.with_input(message).blocks.take(state.blocks.len() as int) == state.blocks,
        state.with_folds_toggled().blocks.len() == state.blocks.len(),
        forall|i: int|
            0 <= i < state.blocks.len() ==> {
                let toggled = #[trigger] state.with_folds_toggled().blocks[i];
                &&& toggled.id == state.blocks[i].id
                &&& toggled.kind == state.blocks[i].kind
            },
        state.cleared().blocks.len() == 0,
{
    assert(state.pushed(kind, foldable).blocks.drop_last() =~= state.blocks);
    assert(state.with_input(message).blocks.take(state.blocks.len() as int) =~= state.blocks);
}

/// Whatever changes the blocks changes the revision, so that nothing that was laid out before is
/// taken for what the conversation has become.
pub proof fn law_changes_are_noticed(
    state: StateView,
    kind: KindView,
    foldable: bool,
    message: MessageView,
    content_index: usize,
    delta: DeltaView,
    result: ResultView,
)
    ensures
        state.pushed(kind, foldable).revision != state.revision,
        state.with_delta(content_index, delta).revision != state.revision,
        state.with_tool_result(result).revision != state.revision,
        state.with_input(message).blocks != state.blocks ==> state.with_input(message).revision
            != state.revision,
        state.with_folds_toggled().blocks != state.blocks ==> state.with_folds_toggled().revision
            != state.revision,
        state.cleared().blocks != state.blocks ==> state.cleared().revision != state.revision,
{
    if !state.any_foldable() {
        assert(state.with_folds_toggled().blocks =~= state.blocks);
    }
}

/// Once a tool result is in, the conversation has a block for its call that holds it.
pub proof fn law_tool_result_is_shown(state: StateView, result: ResultView)
    requires
        state.next_id < u64::MAX,
    ensures
        exists|i: int|
            0 <= i < state.with_tool_result(result).blocks.len() && is_call(
                #[trigger] state.with_tool_result(result).blocks[i],
                result.call_id,
            ) && state.with_tool_result(result).blocks[i].kind->Tool_0.result == Some(result),
{
    lemma_find_call(state.blocks, result.call_id, state.blocks.len() as int);
    let after = state.with_tool_result(result);
    match find_call(state.blocks, result.call_id, state.blocks.len() as int) {
        Some(i) => {
            assert(is_call(after.blocks[i], result.call_id));
        },
        None => {
            assert(is_call(after.blocks[state.blocks.len() as int], result.call_id));
        },
    }
}

/// A step that the conversation takes.
pub enum StateStep {
    Pushed { kind: KindView, foldable: bool },
    Input(MessageView),
    Delta { content_index: usize, delta: DeltaView },
    ToolResult(ResultView),
    FoldsToggled,
    Cleared,
}

/// The conversation after a step.
pub open spec fn after_step(state: StateView, step: StateStep) -> StateView {
    match step {
        StateStep::Pushed { kind, foldable } => state.pushed(kind, foldable),
        StateStep::Input(message) => state.with_input(message),
        StateStep::Delta { content_index, delta } => state.with_delta(content_index, delta),
        StateStep::ToolResult(result) => state.with_tool_result(result),
        StateStep::FoldsToggled => state.with_folds_toggled(),
        StateStep::Cleared => state.cleared(),
    }
}

/// The conversation after the first `count` steps.
pub open spec fn after_steps(state: StateView, steps: Seq<StateStep>, count: int) -> StateView
    decreases count,
{
    if count <= 0 {
        state
    } else {
        after_step(after_steps(state, steps, count - 1), steps[count - 1])
    }
}

/// Whether a conversation has a block with an identifier.
pub open spec fn has_block(state: StateView, id: u64) -> bool {
    exists|i: int| 0 <= i < state.blocks.len() && (#[trigger] state.blocks[i]).id == id
}

/// A step leads from one well formed conversation to another, gives out at most one identifier, and
/// leaves no block with an identifier from before that was not there before.
proof fn lemma_step(state: StateView, step: StateStep)
    requires
        state.well_formed(),
        state.next_id < u64::MAX,
    ensures
        after_step(state, step).well_formed(),
        state.next_id <= after_step(state, step).next_id <= state.next_id + 1,
        forall|id: u64|
            #![trigger has_block(after_step(state, step), id)]
            has_block(after_step(state, step), id) && id < state.next_id ==> has_block(state, id),
{
    let after = after_step(state, step);
    match step {
        StateStep::Pushed { kind, foldable } => {
            law_other_steps_keep_blocks(state, kind, foldable, MessageView::System(Seq::empty()));
        },
        StateStep::Input(message) => {
            law_other_steps_keep_blocks(state, KindView::Error { text: Seq::empty() }, false, message);
        },
        StateStep::Delta { content_index, delta } => {
            law_delta_keeps_blocks(state, content_index, delta);
            lemma_delta_len(state, content_index, delta);
            lemma_find_block(state.blocks, state.routes[content_index], state.blocks.len() as int);
        },
        StateStep::ToolResult(result) => {
            law_tool_result_keeps_blocks(state, result);
            lemma_tool_result_len(state, result);
            lemma_find_call(state.blocks, result.call_id, state.blocks.len() as int);
        },
        _ => {
            law_other_steps_keep_blocks(
                state,
                KindView::Error { text: Seq::empty() },
                false,
                MessageView::System(Seq::empty()),
            );
        },
    }
    assert forall|id: u64| has_block(after, id) && id < state.next_id implies has_block(
        state,
        id,
    ) by {
        let i = choose|i: int| 0 <= i < after.blocks.len() && (#[trigger] after.blocks[i]).id == id;
        if i < state.blocks.len() {
            assert(state.blocks[i].id == id);
        }
    }
}

/// Whatever steps a conversation takes, the numbers of its blocks start at one and increase, and the
/// next number never falls.
pub proof fn law_numbers_increase(steps: Seq<StateStep>, count: int)
    requires
        0 <= count <= steps.len(),
        steps.len() < u64::MAX,
    ensures
        ({
            let state = after_steps(empty_state(), steps, count);
            &&& state.well_formed()
            &&& state.next_id <= count + 1
            &&& count > 0 ==> after_steps(empty_state(), steps, count - 1).next_id <= state.next_id
        }),
    decreases count,
{
    if count > 0 {
        law_numbers_increase(steps, count - 1);
        lemma_step(after_steps(empty_state(), steps, count - 1), steps[count - 1]);
    }
}

/// A number that has been given out is never given to another block: where a later conversation has
/// a block with that number, each one in between had it too. Not even clearing the conversation
/// makes a number free again.
pub proof fn law_numbers_are_not_reused(
    steps: Seq<StateStep>,
    earlier: int,
    later: int,
    id: u64,
)
    requires
        0 <= earlier <= later <= steps.len(),
        steps.len() < u64::MAX,
        id < after_steps(empty_state(), steps, earlier).next_id,
        has_block(after_steps(empty_state(), steps, later), id),
    ensures
        after_steps(empty_state(), steps, earlier).next_id <= after_steps(
            empty_state(),
            steps,
            later,
        ).next_id,
        has_block(after_steps(empty_state(), steps, earlier), id),
    decreases later - earlier,
{
    if earlier < later {
        let before = after_steps(empty_state(), steps, later - 1);
        law_numbers_increase(steps, later - 1);
        lemma_step(before, steps[later - 1]);
        lemma_next_never_falls(steps, earlier, later - 1);
        assert(has_block(after_step(before, steps[later - 1]), id));
        law_numbers_are_not_reused(steps, earlier, later - 1, id);
    }
}

proof fn lemma_next_never_falls(steps: Seq<StateStep>, earlier: int, later: int)
    requires
        0 <= earlier <= later <= steps.len(),
        steps.len() < u64::MAX,
    ensures
        after_steps(empty_state(), steps, earlier).next_id <= after_steps(
            empty_state(),
            steps,
            later,
        ).next_id,
    decreases later - earlier,
{
    if earlier < later {
        law_numbers_increase(steps, later);
        lemma_next_never_falls(steps, earlier, later - 1);
    }
}

/// Text that streams in piece by piece under one index ends up in one block: its pieces are joined.
pub proof fn law_streamed_text_joins(
    state: StateView,
    content_index: usize,
    first: Seq<char>,
    second: Seq<char>,
)
    requires
        state.well_formed(),
        state.next_id < u64::MAX - 1,
        state.growth(content_index, DeltaView::Text(first)) is None,
    ensures
        ({
            let once = state.with_delta(content_index, DeltaView::Text(first));
            let twice = once.with_delta(content_index, DeltaView::Text(second));
            &&& twice.blocks.len() == state.blocks.len() + 1
            &&& twice.blocks.last().kind == (KindView::Assistant {
                items: seq![ItemView::Text(first + second)],
            })
        }),
{
    let once = state.with_delta(content_index, DeltaView::Text(first));
    let n = state.blocks.len() as int;
    lemma_find_block(once.blocks, state.next_id, n + 1);
    assert(once.blocks[n].id == state.next_id);
    match find_block(once.blocks, state.next_id, n + 1) {
        Some(i) => {
            if i < n {
                assert(state.blocks[i].id < state.next_id);
            }
        },
        None => {},
    }
    assert(once.routed(content_index) == Some(n));
    let items = seq![ItemView::Text(first)];
    assert(with_text(items, second) =~= seq![ItemView::Text(first + second)]);
}

/// Toggling all folds twice restores a conversation in which all blocks are expanded.
pub proof fn law_toggling_folds_twice(state: StateView)
    requires
        forall|i: int| 0 <= i < state.blocks.len() ==> (#[trigger] state.blocks[i]).expanded,
    ensures
        state.with_folds_toggled().with_folds_toggled().blocks == state.blocks,
        forall|i: int|
            0 <= i < state.blocks.len() && state.blocks[i].foldable ==> !(
            #[trigger] state.with_folds_toggled().blocks[i]).expanded,
{
    let once = state.with_folds_toggled();
    let twice = once.with_folds_toggled();
    if state.any_foldable() {
        let i = choose|i: int|
            0 <= i < state.blocks.len() && (#[trigger] state.blocks[i]).foldable;
        assert(once.blocks[i].foldable && !once.blocks[i].expanded);
        assert(once.any_collapsed());
    }
    assert forall|i: int| 0 <= i < state.blocks.len() implies twice.blocks[i] == state.blocks[i] by {
        assert(once.blocks[i].foldable == state.blocks[i].foldable);
        if state.blocks[i].foldable {
            assert(state.any_foldable());
        }
    }
    assert(twice.blocks =~= state.blocks);
}

/// The conversation as it is shown.
#[derive(Debug)]
pub struct AppState {
    blocks: Vec<BlockState>,
    content_blocks: HashMap<usize, BlockId>,
    next_block_id: BlockId,
    revision: u64,
}

impl View for AppState {
    type V = StateView;

    closed spec fn view(&self) -> StateView {
        StateView {
            blocks: block_views(self.blocks@),
            routes: self.content_blocks@.map_values(|id: BlockId| id.0),
            next_id: self.next_block_id.0,
            revision: self.revision,
        }
    }
}

impl Default for AppState {
    fn default() -> (state: AppState)
        ensures
            state@ == empty_state(),
    {
        let state = AppState {
            blocks: Vec::new(),
            content_blocks: HashMap::new(),
            next_block_id: BlockId(1),
            revision: 0,
        };
        assert(state@.blocks =~= Seq::<BlockView>::empty());
        assert(state@.routes =~= Map::<usize, u64>::empty());
        state
    }
}

impl AppState {
    pub fn blocks(&self) -> (blocks: &[BlockState])
        ensures
            block_views(blocks@) == self@.blocks,
    {
        self.blocks.as_slice()
    }

    pub fn revision(&self) -> (revision: u64)
        ensures
            revision == self@.revision,
    {
        self.revision
    }

    /// Whether so many blocks can be added before the identifiers run out.
    pub fn has_room(&self, blocks: u64) -> (room: bool)
        ensures
            room == (self@.next_id + blocks <= u64::MAX),
    {
        blocks <= u64::MAX - self.next_block_id.0
    }

    pub fn toggle_all_folds(&mut self)
        ensures
            final(self)@ == old(self)@.with_folds_toggled(),
    {
        let ghost before = self@;
        let mut any_collapsed = false;
        let mut any_foldable = false;
        let mut i: usize = 0;
        while i < self.blocks.len()
            invariant
                i <= self.blocks@.len(),
                before == self@,
                *self == *old(self),
                any_collapsed == exists|j: int|
                    0 <= j < i && (#[trigger] before.blocks[j]).foldable
                        && !before.blocks[j].expanded,
                any_foldable == exists|j: int|
                    0 <= j < i && (#[trigger] before.blocks[j]).foldable,
            decreases self.blocks@.len() - i,
        {
            assert(before.blocks[i as int] == self.blocks@[i as int]@);
            if self.blocks[i].foldable {
                any_foldable = true;
                if !self.blocks[i].expanded {
                    any_collapsed = true;
                }
            }
            i = i + 1;
        }
        let ghost after = before.with_folds_toggled();
        let mut i: usize = 0;
        while i < self.blocks.len()
            invariant
                i <= self.blocks@.len(),
                after == before.with_folds_toggled(),
                any_collapsed == before.any_collapsed(),
                self.blocks@.len() == before.blocks.len(),
                self.content_blocks == old(self).content_blocks,
                self.next_block_id == old(self).next_block_id,
                self.revision == old(self).revision,
                forall|j: int| 0 <= j < i ==> (#[trigger] self.blocks@[j])@ == after.blocks[j],
                forall|j: int|
                    i <= j < self.blocks@.len() ==> (#[trigger] self.blocks@[j])@
                        == before.blocks[j],
            decreases self.blocks@.len() - i,
        {
            if self.blocks[i].foldable {
                self.blocks[i].expanded = any_collapsed;
            }
            i = i + 1;
        }
        if any_foldable {
            self.bump_revision();
        }
        assert(self@.blocks =~= after.blocks);
    }

    pub fn push_input(&mut self, message: InputMessage)
        requires
            old(self)@.next_id < u64::MAX,
        ensures
            final(self)@ == old(self)@.with_input(message@),
    {
        if let InputMessage::User(content) = message {
            self.content_blocks.clear();
            assert(self@.routes =~= Map::<usize, u64>::empty());
            self.push_block(BlockKind::User { content }, false);
        }
    }

    pub fn push_error(&mut self, text: String)
        requires
            old(self)@.next_id < u64::MAX,
        ensures
            final(self)@ == old(self)@.pushed(KindView::Error { text: text@ }, false),
    {
        self.push_block(BlockKind::Error { text }, false);
    }

    pub fn push_command_output(&mut self, text: String)
        requires
            old(self)@.next_id < u64::MAX,
        ensures
            final(self)@ == old(self)@.pushed(
                KindView::Command { text: text@, is_error: false },
                false,
            ),
    {
        self.push_block(BlockKind::Command { text, is_error: false }, false);
    }

    pub fn push_command_error(&mut self, text: String)
        requires
            old(self)@.next_id < u64::MAX,
        ensures
            final(self)@ == old(self)@.pushed(
                KindView::Command { text: text@, is_error: true },
                false,
            ),
    {
        self.push_block(BlockKind::Command { text, is_error: true }, false);
    }

    pub fn clear_conversation(&mut self)
        ensures
            final(self)@ == old(self)@.cleared(),
    {
        if self.blocks.len() == 0 {
            return;
        }
        self.blocks.clear();
        self.content_blocks.clear();
        self.bump_revision();
        assert(self@.blocks =~= Seq::<BlockView>::empty());
        assert(self@.routes =~= Map::<usize, u64>::empty());
    }

    pub fn apply_delta(&mut self, delta: OutputContentDelta)
        requires
            old(self)@.next_id < u64::MAX,
        ensures
            final(self)@ == old(self)@.with_delta(0, delta@),
    {
        self.apply_delta_at(0, delta);
    }

    pub fn apply_delta_at(&mut self, content_index: usize, delta: OutputContentDelta)
        requires
            old(self)@.next_id < u64::MAX,
        ensures
            final(self)@ == old(self)@.with_delta(content_index, delta@),
    {
        match delta {
            OutputContentDelta::Thinking(text) => self.append_thinking(content_index, text),
            OutputContentDelta::Text(text) => self.append_assistant_text(content_index, text),
            OutputContentDelta::Image(image) => self.append_assistant_image(content_index, image),
            OutputContentDelta::ToolCall { id, name, arguments } => self.append_tool_call(
                content_index,
                id,
                name,
                arguments,
            ),
        }
    }

    pub fn apply_tool_result(&mut self, result: ToolResult)
        requires
            old(self)@.next_id < u64::MAX,
        ensures
            final(self)@ == old(self)@.with_tool_result(result@),
    {
        let ghost before = self@;
        let ghost total = before.blocks.len() as int;
        let call_id = result.call_id.clone();
        let mut i: usize = 0;
        while i < self.blocks.len()
            invariant
                i <= self.blocks@.len(),
                *self == *old(self),
                before == self@,
                total == self.blocks@.len(),
                before.next_id < u64::MAX,
                call_id@ == result.call_id@,
                find_call(before.blocks, result.call_id@, i as int) is None,
            decreases self.blocks@.len() - i,
        {
            let ghost block = self.blocks@[i as int]@;
            assert(before.blocks[i as int] == block);
            let matches = match &self.blocks[i].kind {
                BlockKind::Tool(tool) => match &tool.call_id {
                    Some(existing) => chars::same_text(existing.as_str(), call_id.as_str()),
                    None => false,
                },
                _ => false,
            };
            assert(matches == is_call(block, result.call_id@));
            if matches {
                proof {
                    lemma_find_call_stays(before.blocks, result.call_id@, i as int, total);
                }
                if let BlockKind::Tool(tool) = &mut self.blocks[i].kind {
                    tool.result = Some(result);
                }
                self.content_blocks.clear();
                self.bump_revision();
                assert(self@.routes =~= Map::<usize, u64>::empty());
                assert(self@.blocks =~= before.with_tool_result(result@).blocks);
                return;
            }
            i = i + 1;
        }
        let name = result.name.clone();
        self.push_block(
            BlockKind::Tool(
                ToolBlockState {
                    call_id: Some(call_id),
                    name,
                    arguments: String::new(),
                    result: Some(result),
                },
            ),
            true,
        );
        self.content_blocks.clear();
        assert(self@.routes =~= Map::<usize, u64>::empty());
    }

    fn append_thinking(&mut self, content_index: usize, text: String)
        requires
            old(self)@.next_id < u64::MAX,
        ensures
            final(self)@ == old(self)@.with_delta(content_index, DeltaView::Thinking(text@)),
    {
        let ghost before = self@;
        let found = self.content_block(content_index);
        if let Some(i) = found {
            if let BlockKind::Thinking { text: existing } = &mut self.blocks[i].kind {
                existing.append(text.as_str());
                self.bump_revision();
                assert(self@.blocks =~= before.with_delta(
                    content_index,
                    DeltaView::Thinking(text@),
                ).blocks);
                return;
            }
        }
        assert(self@.blocks =~= before.blocks);
        let id = self.push_block(BlockKind::Thinking { text }, true);
        self.route(content_index, id);
    }

    fn append_assistant_text(&mut self, content_index: usize, text: String)
        requires
            old(self)@.next_id < u64::MAX,
        ensures
            final(self)@ == old(self)@.with_delta(content_index, DeltaView::Text(text@)),
    {
        let ghost before = self@;
        let found = self.content_block(content_index);
        if let Some(i) = found {
            if let BlockKind::Assistant { items } = &mut self.blocks[i].kind {
                append_text_item(items, text);
                self.bump_revision();
                assert(self@.blocks =~= before.with_delta(
                    content_index,
                    DeltaView::Text(text@),
                ).blocks);
                return;
            }
        }
        assert(self@.blocks =~= before.blocks);
        let mut items: Vec<AssistantItem> = Vec::new();
        items.push(AssistantItem::Text(text));
        assert(item_views(items@) =~= seq![ItemView::Text(text@)]);
        let id = self.push_block(BlockKind::Assistant { items }, false);
        self.route(content_index, id);
    }

    fn append_assistant_image(&mut self, content_index: usize, image: ImageContent)
        requires
            old(self)@.next_id < u64::MAX,
        ensures
            final(self)@ == old(self)@.with_delta(content_index, DeltaView::Image(image@)),
    {
        let ghost before = self@;
        let found = self.content_block(content_index);
        if let Some(i) = found {
            if let BlockKind::Assistant { items } = &mut self.blocks[i].kind {
                set_image_item(items, image);
                self.bump_revision();
                assert(self@.blocks =~= before.with_delta(
                    content_index,
                    DeltaView::Image(image@),
                ).blocks);
                return;
            }
        }
        assert(self@.blocks =~= before.blocks);
        let mut items: Vec<AssistantItem> = Vec::new();
        items.push(AssistantItem::Image(image));
        assert(item_views(items@) =~= seq![ItemView::Image(image@)]);
        let id = self.push_block(BlockKind::Assistant { items }, false);
        self.route(content_index, id);
    }

    fn append_tool_call(
        &mut self,
        content_index: usize,
        id: Option<String>,
        name: Option<String>,
        arguments: String,
    )
        requires
            old(self)@.next_id < u64::MAX,
        ensures
            final(self)@ == old(self)@.with_delta(
                content_index,
                DeltaView::ToolCall {
                    id: optional_text(id),
                    name: optional_text(name),
                    arguments: arguments@,
                },
            ),
    {
        let ghost before = self@;
        let ghost delta = DeltaView::ToolCall {
            id: optional_text(id),
            name: optional_text(name),
            arguments: arguments@,
        };
        let found = self.content_block(content_index);
        if let Some(i) = found {
            let same_streamed_call = match &self.blocks[i].kind {
                BlockKind::Tool(tool) => tool.result.is_none() && match (&id, &tool.call_id) {
                    (Some(incoming), Some(existing)) => chars::same_text(
                        incoming.as_str(),
                        existing.as_str(),
                    ),
                    _ => true,
                },
                _ => false,
            };
            if same_streamed_call {
                if let BlockKind::Tool(tool) = &mut self.blocks[i].kind {
                    if tool.call_id.is_none() {
                        tool.call_id = id;
                    }
                    if let Some(name) = name {
                        tool.name = name;
                    }
                    tool.arguments.append(arguments.as_str());
                }
                self.bump_revision();
                assert(self@.blocks =~= before.with_delta(content_index, delta).blocks);
                return;
            }
        }
        let name = match name {
            Some(name) => name,
            None => String::new(),
        };
        let block_id = self.push_block(
            BlockKind::Tool(ToolBlockState { call_id: id, name, arguments, result: None }),
            true,
        );
        self.route(content_index, block_id);
    }

    fn bump_revision(&mut self)
        ensures
            final(self)@ == (StateView {
                revision: old(self)@.revision.wrapping_add(1),
                ..old(self)@
            }),
            final(self).blocks == old(self).blocks,
            final(self).content_blocks == old(self).content_blocks,
            final(self).next_block_id == old(self).next_block_id,
    {
        self.revision = self.revision.wrapping_add(1);
    }

    fn route(&mut self, content_index: usize, id: BlockId)
        ensures
            final(self)@ == (StateView {
                routes: old(self)@.routes.insert(content_index, id.0),
                ..old(self)@
            }),
    {
        self.content_blocks.insert(content_index, id);
        assert(self@.routes =~= old(self)@.routes.insert(content_index, id.0));
    }

    /// The block that output with an index is routed to.
    fn content_block(&self, content_index: usize) -> (found: Option<usize>)
        ensures
            match found {
                Some(i) => self@.routed(content_index) == Some(i as int) && i
                    < self.blocks@.len(),
                None => self@.routed(content_index) is None,
            },
    {
        let id: u64 = match self.content_blocks.get(&content_index) {
            Some(id) => id.0,
            None => {
                return None;
            },
        };
        assert(self@.routes.contains_key(content_index) && self@.routes[content_index] == id);
        let ghost total = self.blocks@.len() as int;
        let mut i: usize = 0;
        while i < self.blocks.len()
            invariant
                i <= self.blocks@.len(),
                total == self.blocks@.len(),
                self@.routes.contains_key(content_index) && self@.routes[content_index] == id,
                find_block(self@.blocks, id, i as int) is None,
            decreases self.blocks@.len() - i,
        {
            assert(self@.blocks[i as int] == self.blocks@[i as int]@);
            if self.blocks[i].id.0 == id {
                proof {
                    lemma_find_block_stays(self@.blocks, id, i as int, total);
                }
                return Some(i);
            }
            i = i + 1;
        }
        None
    }

    fn push_block(&mut self, kind: BlockKind, foldable: bool) -> (id: BlockId)
        requires
            old(self)@.next_id < u64::MAX,
        ensures
            final(self)@ == old(self)@.pushed(kind@, foldable),
            id.0 == old(self)@.next_id,
    {
        let id = self.next_block_id;
        self.next_block_id = self.next_block_id.next();
        self.blocks.push(BlockState { id, kind, foldable, expanded: true });
        self.bump_revision();
        assert(self@.blocks =~= old(self)@.pushed(kind@, foldable).blocks);
        id
    }
}

proof fn lemma_find_block_stays(blocks: Seq<BlockView>, id: u64, i: int, count: int)
    requires
        0 <= i < count <= blocks.len(),
        find_block(blocks, id, i) is None,
        blocks[i].id == id,
    ensures
        find_block(blocks, id, count) == Some(i),
    decreases count,
{
    if count > i + 1 {
        lemma_find_block_stays(blocks, id, i, count - 1);
    }
}

proof fn lemma_find_call_stays(blocks: Seq<BlockView>, call_id: Seq<char>, i: int, count: int)
    requires
        0 <= i < count <= blocks.len(),
        find_call(blocks, call_id, i) is None,
        is_call(blocks[i], call_id),
    ensures
        find_call(blocks, call_id, count) == Some(i),
    decreases count,
{
    if count > i + 1 {
        lemma_find_call_stays(blocks, call_id, i, count - 1);
    }
}

fn append_text_item(items: &mut Vec<AssistantItem>, text: String)
    ensures
        item_views(final(items)@) == with_text(item_views(old(items)@), text@),
{
    let ghost before = item_views(items@);
    if items.len() > 0 {
        let last: usize = items.len() - 1;
        if let AssistantItem::Text(existing) = &mut items[last] {
            existing.append(text.as_str());
            assert(item_views(items@) =~= with_text(before, text@));
            return;
        }
    }
    assert(item_views(items@) =~= before);
    items.push(AssistantItem::Text(text));
    assert(item_views(items@) =~= with_text(before, text@));
}

fn set_image_item(items: &mut Vec<AssistantItem>, image: ImageContent)
    ensures
        item_views(final(items)@) == with_image(item_views(old(items)@), image@),
{
    let ghost before = item_views(items@);
    let ghost total = items@.len() as int;
    let mut i: usize = 0;
    while i < items.len()
        invariant
            i <= items@.len(),
            total == items@.len(),
            before == item_views(items@),
            before == item_views(old(items)@),
            find_image(before, i as int) is None,
        decreases items@.len() - i,
    {
        assert(before[i as int] == items@[i as int]@);
        let is_image = match &items[i] {
            AssistantItem::Image(_) => true,
            AssistantItem::Text(_) => false,
        };
        if is_image {
            proof {
                lemma_find_image_stays(before, i as int, total);
            }
            items.set(i, AssistantItem::Image(image));
            assert(item_views(items@) =~= with_image(before, image@));
            return;
        }
        i = i + 1;
    }
    items.push(AssistantItem::Image(image));
    assert(item_views(items@) =~= with_image(before, image@));
}

proof fn lemma_find_image_stays(items: Seq<ItemView>, i: int, count: int)
    requires
        0 <= i < count <= items.len(),
        find_image(items, i) is None,
        items[i] is Image,
    ensures
        find_image(items, count) == Some(i),
    decreases count,
{
    if count > i + 1 {
        lemma_find_image_stays(items, i, count - 1);
    }
}

proof fn lemma_block_is_found(state: StateView, at: int, count: int)
    requires
        state.well_formed(),
        0 <= at < count <= state.blocks.len(),
    ensures
        find_block(state.blocks, state.blocks[at].id, count) == Some(at),
    decreases count,
{
    if at < count - 1 {
        lemma_block_is_found(state, at, count - 1);
    } else {
        lemma_block_is_missing(state, state.blocks[at].id, count - 1);
    }
}

proof fn lemma_block_is_missing(state: StateView, id: u64, count: int)
    requires
        count <= state.blocks.len(),
        forall|i: int| 0 <= i < count ==> (#[trigger] state.blocks[i]).id != id,
    ensures
        find_block(state.blocks, id, count) is None,
    decreases count,
{
    if count > 0 {
        lemma_block_is_missing(state, id, count - 1);
    }
}

/// Whether two conversations have the same blocks but for one of them, of which only what it holds
/// may differ.
pub open spec fn same_but_one(before: StateView, after: StateView, at: int) -> bool {
    &&& after.blocks.len() == before.blocks.len()
    &&& after.blocks[at].id == before.blocks[at].id
    &&& after.blocks[at].foldable == before.blocks[at].foldable
    &&& after.blocks[at].expanded == before.blocks[at].expanded
    &&& forall|j: int|
        0 <= j < before.blocks.len() && j != at ==> #[trigger] after.blocks[j] == before.blocks[j]
    &&& after.next_id == before.next_id
}

/// Output grows the block that it is routed to and no other: thinking is put behind the thinking
/// there, text behind text at the end of the answer there, and the arguments of a call behind those
/// that there are.
pub proof fn law_output_grows_its_block(
    state: StateView,
    content_index: usize,
    at: int,
    text: Seq<char>,
    name: Seq<char>,
)
    requires
        state.well_formed(),
        0 <= at < state.blocks.len(),
        state.routes.contains_key(content_index),
        state.routes[content_index] == state.blocks[at].id,
    ensures
        state.blocks[at].kind matches KindView::Thinking { text: before } ==> {
            let after = state.with_delta(content_index, DeltaView::Thinking(text));
            &&& same_but_one(state, after, at)
            &&& after.blocks[at].kind == (KindView::Thinking { text: before + text })
            &&& after.routes == state.routes
        },
        state.blocks[at].kind matches KindView::Assistant { items } ==> {
            let after = state.with_delta(content_index, DeltaView::Text(text));
            &&& same_but_one(state, after, at)
            &&& after.routes == state.routes
            &&& after.blocks[at].kind matches KindView::Assistant { items: grown_items } && {
                &&& items.len() > 0 && items.last() is Text ==> grown_items.len() == items.len()
                    && grown_items.last() == ItemView::Text(items.last()->Text_0 + text)
                    && grown_items.drop_last() == items.drop_last()
                &&& items.len() == 0 || items.last() is Image ==> grown_items == items.push(
                    ItemView::Text(text),
                )
            }
        },
        state.blocks[at].kind matches KindView::Tool(tool) ==> tool.result is None ==> {
            let delta = DeltaView::ToolCall { id: None, name: None, arguments: text };
            let named = DeltaView::ToolCall { id: None, name: Some(name), arguments: text };
            let after = state.with_delta(content_index, delta);
            let after_named = state.with_delta(content_index, named);
            &&& same_but_one(state, after, at)
            &&& after.routes == state.routes
            &&& after.blocks[at].kind == KindView::Tool(
                ToolView { arguments: tool.arguments + text, ..tool },
            )
            &&& same_but_one(state, after_named, at)
            &&& after_named.blocks[at].kind == KindView::Tool(
                ToolView { name, arguments: tool.arguments + text, ..tool },
            )
        },
{
    lemma_block_is_found(state, at, state.blocks.len() as int);
    if let KindView::Assistant { items } = state.blocks[at].kind {
        let after = with_text(items, text);
        if items.len() > 0 && items.last() is Text {
            assert(after.drop_last() =~= items.drop_last());
        }
    }
}

/// An answer shows one image: another one takes the place of the first that it has.
pub proof fn law_image_takes_the_place_of_the_image(
    state: StateView,
    content_index: usize,
    at: int,
    items: Seq<ItemView>,
    image: ImageView,
    place: int,
)
    requires
        state.well_formed(),
        0 <= at < state.blocks.len(),
        state.routes.contains_key(content_index),
        state.routes[content_index] == state.blocks[at].id,
        state.blocks[at].kind == (KindView::Assistant { items }),
    ensures
        ({
            let after = state.with_delta(content_index, DeltaView::Image(image));
            &&& same_but_one(state, after, at)
            &&& 0 <= place < items.len() && items[place] is Image && (forall|j: int|
                0 <= j < place ==> #[trigger] items[j] is Text) ==> after.blocks[at].kind == (
            KindView::Assistant { items: items.update(place, ItemView::Image(image)) })
            &&& (forall|j: int| 0 <= j < items.len() ==> #[trigger] items[j] is Text)
                ==> after.blocks[at].kind == (KindView::Assistant {
                items: items.push(ItemView::Image(image)),
            })
        }),
{
    lemma_block_is_found(state, at, state.blocks.len() as int);
    lemma_find_image_first(items, items.len() as int);
}

proof fn lemma_find_image_first(items: Seq<ItemView>, count: int)
    requires
        0 <= count <= items.len(),
    ensures
        match find_image(items, count) {
            Some(i) => 0 <= i < count && items[i] is Image && forall|j: int|
                0 <= j < i ==> #[trigger] items[j] is Text,
            None => forall|j: int| 0 <= j < count ==> #[trigger] items[j] is Text,
        },
    decreases count,
{
    if count > 0 {
        lemma_find_image_first(items, count - 1);
    }
}

/// Output that is routed nowhere starts a block behind all others, which holds just that output and
/// to which more output with its index is routed. Thinking and tool calls can be folded, answers
/// cannot.
pub proof fn law_output_without_a_block_starts_one(
    state: StateView,
    content_index: usize,
    delta: DeltaView,
    other: usize,
)
    requires
        state.well_formed(),
        state.next_id < u64::MAX,
        !state.routes.contains_key(content_index) || forall|i: int|
            0 <= i < state.blocks.len() ==> (#[trigger] state.blocks[i]).id
                != state.routes[content_index],
    ensures
        ({
            let after = state.with_delta(content_index, delta);
            let block = after.blocks.last();
            &&& after.blocks.len() == state.blocks.len() + 1
            &&& after.blocks.drop_last() == state.blocks
            &&& block.id == state.next_id
            &&& block.expanded
            &&& block.foldable == (delta is Thinking || delta is ToolCall)
            &&& after.routes.contains_key(content_index)
            &&& after.routes[content_index] == block.id
            &&& other != content_index && state.routes.contains_key(other)
                ==> after.routes.contains_key(other) && after.routes[other] == state.routes[other]
            &&& match delta {
                DeltaView::Thinking(text) => block.kind == (KindView::Thinking { text }),
                DeltaView::Text(text) => block.kind == (KindView::Assistant {
                    items: seq![ItemView::Text(text)],
                }),
                DeltaView::Image(image) => block.kind == (KindView::Assistant {
                    items: seq![ItemView::Image(image)],
                }),
                DeltaView::ToolCall { id, name, arguments } => {
                    &&& block.kind is Tool
                    &&& block.kind->Tool_0.call_id == id
                    &&& block.kind->Tool_0.arguments == arguments
                    &&& block.kind->Tool_0.result is None
                    &&& name is Some ==> block.kind->Tool_0.name == name->Some_0
                    &&& name is None ==> block.kind->Tool_0.name.len() == 0
                },
            }
        }),
{
    if state.routes.contains_key(content_index) {
        lemma_block_is_missing(state, state.routes[content_index], state.blocks.len() as int);
    }
    assert(state.with_delta(content_index, delta).blocks.drop_last() =~= state.blocks);
}

/// Output of another sort than the block has that it is routed to starts a block of its own, and so
/// does a piece of another tool call or of one that has its result.
pub proof fn law_other_output_starts_a_block(
    state: StateView,
    content_index: usize,
    at: int,
    delta: DeltaView,
)
    requires
        state.well_formed(),
        0 <= at < state.blocks.len(),
        state.next_id < u64::MAX,
        state.routes.contains_key(content_index),
        state.routes[content_index] == state.blocks[at].id,
        match state.blocks[at].kind {
            KindView::Thinking { .. } => !(delta is Thinking),
            KindView::Assistant { .. } => delta is Thinking || delta is ToolCall,
            KindView::Tool(tool) => match delta {
                DeltaView::ToolCall { id, .. } => tool.result is Some || (id is Some
                    && tool.call_id is Some && id->Some_0 != tool.call_id->Some_0),
                _ => true,
            },
            _ => true,
        },
    ensures
        state.with_delta(content_index, delta).blocks.drop_last() == state.blocks,
        state.with_delta(content_index, delta).blocks.len() == state.blocks.len() + 1,
        state.with_delta(content_index, delta).routes[content_index] == state.next_id,
{
    lemma_block_is_found(state, at, state.blocks.len() as int);
    assert(state.with_delta(content_index, delta).blocks.drop_last() =~= state.blocks);
}

/// A piece of a call with its identifier goes to the block of that call; a call that had none until
/// then has it from then on, and one that has one keeps it.
pub proof fn law_calls_keep_their_identifier(
    state: StateView,
    content_index: usize,
    at: int,
    tool: ToolView,
    id: Seq<char>,
    name: Option<Seq<char>>,
    arguments: Seq<char>,
)
    requires
        state.well_formed(),
        0 <= at < state.blocks.len(),
        state.routes.contains_key(content_index),
        state.routes[content_index] == state.blocks[at].id,
        state.blocks[at].kind == KindView::Tool(tool),
        tool.result is None,
        tool.call_id is None || tool.call_id == Some(id),
    ensures
        ({
            let delta = DeltaView::ToolCall { id: Some(id), name, arguments };
            let after = state.with_delta(content_index, delta);
            &&& same_but_one(state, after, at)
            &&& after.blocks[at].kind is Tool
            &&& after.blocks[at].kind->Tool_0.call_id == Some(id)
            &&& after.blocks[at].kind->Tool_0.arguments == tool.arguments + arguments
            &&& after.blocks[at].kind->Tool_0.name == (if name is Some {
                name->Some_0
            } else {
                tool.name
            })
            &&& after.blocks[at].kind->Tool_0.result is None
        }),
{
    lemma_block_is_found(state, at, state.blocks.len() as int);
}

proof fn lemma_find_call_first(blocks: Seq<BlockView>, call_id: Seq<char>, count: int)
    requires
        0 <= count <= blocks.len(),
    ensures
        match find_call(blocks, call_id, count) {
            Some(i) => 0 <= i < count && is_call(blocks[i], call_id) && forall|j: int|
                0 <= j < i ==> !is_call(#[trigger] blocks[j], call_id),
            None => forall|j: int| 0 <= j < count ==> !is_call(#[trigger] blocks[j], call_id),
        },
    decreases count,
{
    if count > 0 {
        lemma_find_call_first(blocks, call_id, count - 1);
    }
}

/// A tool result joins the first block of its call, which keeps its name and arguments; no other block
/// changes. Output that follows starts new blocks.
pub proof fn law_tool_result_joins_its_call(
    state: StateView,
    result: ResultView,
    at: int,
    tool: ToolView,
)
    requires
        0 <= at < state.blocks.len(),
        state.blocks[at].kind == KindView::Tool(tool),
        tool.call_id == Some(result.call_id),
        forall|j: int| 0 <= j < at ==> !is_call(#[trigger] state.blocks[j], result.call_id),
    ensures
        same_but_one(state, state.with_tool_result(result), at),
        state.with_tool_result(result).blocks[at].kind == KindView::Tool(
            ToolView { result: Some(result), ..tool },
        ),
        state.with_tool_result(result).routes == Map::<usize, u64>::empty(),
{
    lemma_find_call_first(state.blocks, result.call_id, state.blocks.len() as int);
}

/// A tool result without a block of its call has one of its own behind all others, which can be
/// folded.
pub proof fn law_lone_tool_result_has_its_block(state: StateView, result: ResultView)
    requires
        state.next_id < u64::MAX,
        forall|j: int|
            0 <= j < state.blocks.len() ==> !is_call(#[trigger] state.blocks[j], result.call_id),
    ensures
        ({
            let after = state.with_tool_result(result);
            let block = after.blocks.last();
            &&& after.blocks.drop_last() == state.blocks
            &&& after.blocks.len() == state.blocks.len() + 1
            &&& block.foldable && block.expanded && block.id == state.next_id
            &&& block.kind is Tool
            &&& block.kind->Tool_0.call_id == Some(result.call_id)
            &&& block.kind->Tool_0.name == result.name
            &&& block.kind->Tool_0.arguments.len() == 0
            &&& block.kind->Tool_0.result == Some(result)
            &&& after.routes == Map::<usize, u64>::empty()
        }),
{
    lemma_find_call_first(state.blocks, result.call_id, state.blocks.len() as int);
    assert(state.with_tool_result(result).blocks.drop_last() =~= state.blocks);
}

/// A message of the user is shown whole behind all that was there, and output that follows starts new
/// blocks; other messages are not shown.
pub proof fn law_messages_of_the_user_are_shown(state: StateView, content: Seq<ContentView>)
    requires
        state.next_id < u64::MAX,
    ensures
        ({
            let after = state.with_input(MessageView::User(content));
            &&& after.blocks.drop_last() == state.blocks
            &&& after.blocks.len() == state.blocks.len() + 1
            &&& after.blocks.last().kind == (KindView::User { content })
            &&& !after.blocks.last().foldable
            &&& after.routes == Map::<usize, u64>::empty()
        }),
        state.with_input(MessageView::System(content)) == state,
        state.with_input(MessageView::Developer(content)) == state,
{
    let after = state.with_input(MessageView::User(content));
    assert(after.blocks.drop_last() =~= state.blocks);
}

/// Toggling the folds expands all blocks that can be folded where one of them is collapsed, and
/// collapses them all otherwise; what cannot be folded stays as it is.
pub proof fn law_folds_are_toggled_together(state: StateView, i: int, collapsed: int)
    requires
        0 <= i < state.blocks.len(),
    ensures
        ({
            let after = state.with_folds_toggled();
            &&& !state.blocks[i].foldable ==> after.blocks[i] == state.blocks[i]
            &&& state.blocks[i].foldable && 0 <= collapsed < state.blocks.len()
                && state.blocks[collapsed].foldable && !state.blocks[collapsed].expanded
                ==> after.blocks[i].expanded
            &&& state.blocks[i].foldable && (forall|j: int|
                0 <= j < state.blocks.len() && (#[trigger] state.blocks[j]).foldable
                    ==> state.blocks[j].expanded) ==> !after.blocks[i].expanded
            &&& after.routes == state.routes && after.next_id == state.next_id
        }),
{
}

} // verus!
