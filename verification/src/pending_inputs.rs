//! Inputs that have been handed over but not yet taken up.

use crate::chars;
use crate::geometry::Rect;
use crate::message;
use crate::message::{ContentView, InputContent, InputMessage, MessageView};
use crate::style;
use crate::style::{Color, Line, Span, SpanView, Style};
use vstd::prelude::*;

verus! {

pub const MAX_PENDING_INPUT_ROWS: usize = 3;

#[derive(Debug, Clone, Copy, PartialEq, Eq, Structural)]
pub enum PendingDelivery {
    Steer,
    Queue,
}

#[derive(Debug, PartialEq, Eq)]
pub struct PendingInput {
    pub delivery: PendingDelivery,
    pub content: Vec<InputContent>,
}

/// A pending input, with its texts.
pub struct PendingView {
    pub delivery: PendingDelivery,
    pub content: Seq<ContentView>,
}

impl View for PendingInput {
    type V = PendingView;

    open spec fn view(&self) -> PendingView {
        PendingView { delivery: self.delivery, content: message::content_views(self.content@) }
    }
}

impl PendingInput {
    pub fn new(delivery: PendingDelivery, content: Vec<InputContent>) -> (pending: PendingInput)
        ensures
            pending.delivery == delivery,
            pending.content == content,
    {
        PendingInput { delivery, content }
    }
}

/// The pending inputs, in the order in which they were handed over.
#[derive(Debug, PartialEq, Eq)]
pub struct PendingInputs {
    pub items: Vec<PendingInput>,
}

pub open spec fn pending_views(items: Seq<PendingInput>) -> Seq<PendingView> {
    Seq::new(items.len(), |i: int| items[i]@)
}

impl View for PendingInputs {
    type V = Seq<PendingView>;

    open spec fn view(&self) -> Seq<PendingView> {
        pending_views(self.items@)
    }
}

impl Default for PendingInputs {
    fn default() -> (pending: PendingInputs)
        ensures
            pending@ == Seq::<PendingView>::empty(),
    {
        let pending = PendingInputs { items: Vec::new() };
        assert(pending@ =~= Seq::<PendingView>::empty());
        pending
    }
}

/// The place of the first of the first `count` items that was handed over in the given way with
/// the given content.
pub open spec fn find_pending(
    items: Seq<PendingView>,
    wanted: PendingView,
    count: int,
) -> Option<int>
    decreases count,
{
    if count <= 0 {
        None
    } else {
        match find_pending(items, wanted, count - 1) {
            Some(i) => Some(i),
            None => if items[count - 1] == wanted {
                Some(count - 1)
            } else {
                None
            },
        }
    }
}

/// The place of the first item that holds a message of the user.
pub open spec fn place_of(
    items: Seq<PendingView>,
    message: MessageView,
    delivery: PendingDelivery,
) -> Option<int> {
    match message {
        MessageView::User(content) => find_pending(
            items,
            PendingView { delivery, content },
            items.len() as int,
        ),
        _ => None,
    }
}

proof fn lemma_find_pending_stays(items: Seq<PendingView>, wanted: PendingView, i: int, count: int)
    requires
        0 <= i < count <= items.len(),
        find_pending(items, wanted, i) is None,
        items[i] == wanted,
    ensures
        find_pending(items, wanted, count) == Some(i),
    decreases count,
{
    if count > i + 1 {
        lemma_find_pending_stays(items, wanted, i, count - 1);
    }
}

proof fn lemma_find_pending_bound(items: Seq<PendingView>, wanted: PendingView, count: int)
    requires
        0 <= count <= items.len(),
    ensures
        find_pending(items, wanted, count) matches Some(i) ==> 0 <= i < count && items[i]
            == wanted,
    decreases count,
{
    if count > 0 {
        lemma_find_pending_bound(items, wanted, count - 1);
    }
}

/// The pending inputs with one more message, if it is one of the user.
pub open spec fn with_pushed(
    items: Seq<PendingView>,
    message: MessageView,
    delivery: PendingDelivery,
) -> Seq<PendingView> {
    match message {
        MessageView::User(content) => items.push(PendingView { delivery, content }),
        _ => items,
    }
}

/// The pending inputs without the first one that holds a message.
pub open spec fn with_committed(
    items: Seq<PendingView>,
    message: MessageView,
    delivery: PendingDelivery,
) -> Seq<PendingView> {
    match place_of(items, message, delivery) {
        Some(i) => items.remove(i),
        None => items,
    }
}

/// The pending inputs with the first steer that holds a message turned into a queued input.
pub open spec fn with_requeued(items: Seq<PendingView>, message: MessageView) -> Seq<PendingView> {
    match place_of(items, message, PendingDelivery::Steer) {
        Some(i) => items.update(
            i,
            PendingView { delivery: PendingDelivery::Queue, content: items[i].content },
        ),
        None => items,
    }
}

/// The label of a pending input.
pub open spec fn delivery_label(delivery: PendingDelivery) -> Seq<char> {
    match delivery {
        PendingDelivery::Steer => "steer"@,
        PendingDelivery::Queue => "queue"@,
    }
}

pub open spec fn delivery_style(delivery: PendingDelivery) -> Style {
    let color = match delivery {
        PendingDelivery::Steer => Color::Cyan,
        PendingDelivery::Queue => Color::Magenta,
    };
    Style { fg: Some(color), bold: true, ..style::plain() }
}

/// A text on one line: a space stands for each line break character.
pub open spec fn flattened(text: Seq<char>) -> Seq<char> {
    Seq::new(
        text.len(),
        |i: int|
            if text[i] == '\n' || text[i] == '\r' {
                ' '
            } else {
                text[i]
            },
    )
}

/// What is shown of a piece of input.
pub open spec fn piece_preview(content: ContentView) -> Seq<char> {
    match content {
        ContentView::Text(text) => flattened(text),
        ContentView::Image(_) => "[image]"@,
    }
}

/// What is shown of an input: its pieces with spaces between them.
pub open spec fn preview(content: Seq<ContentView>) -> Seq<char> {
    chars::join(Seq::new(content.len(), |i: int| piece_preview(content[i])), " "@)
}

/// The line of a pending input.
pub open spec fn pending_line(pending: PendingView) -> Seq<SpanView> {
    seq![
        SpanView {
            content: delivery_label(pending.delivery),
            style: delivery_style(pending.delivery),
        },
        SpanView { content: " "@, style: style::plain() },
        SpanView {
            content: preview(pending.content),
            style: Style { fg: Some(Color::Gray), ..style::plain() },
        },
    ]
}

/// The line that tells how many inputs are not shown.
pub open spec fn overflow_line(hidden: nat) -> Seq<SpanView> {
    style::styled_line(
        "+"@ + chars::decimal(hidden) + " pending"@,
        Style { fg: Some(Color::DarkGray), italic: true, ..style::plain() },
    )
}

/// The lines that are shown: one for each input, or two and how many more there are.
pub open spec fn pending_lines(items: Seq<PendingView>) -> Seq<Seq<SpanView>> {
    if items.len() <= MAX_PENDING_INPUT_ROWS {
        Seq::new(items.len(), |i: int| pending_line(items[i]))
    } else {
        seq![
            pending_line(items[0]),
            pending_line(items[1]),
            overflow_line((items.len() - 2) as nat),
        ]
    }
}

impl PendingInputs {
    pub fn is_empty(&self) -> (empty: bool)
        ensures
            empty == (self@.len() == 0),
    {
        self.items.len() == 0
    }

    pub fn items(&self) -> (items: &[PendingInput])
        ensures
            items@ == self.items@,
    {
        self.items.as_slice()
    }

    /// Adds a message of the user.
    pub fn push(&mut self, message: InputMessage, delivery: PendingDelivery)
        ensures
            final(self)@ == with_pushed(old(self)@, message@, delivery),
    {
        let ghost before = self@;
        if let InputMessage::User(content) = message {
            self.items.push(PendingInput { delivery, content });
            assert(self@ =~= with_pushed(before, message@, delivery));
        }
    }

    /// The first input that was handed over in the given way with the given content.
    fn position(&self, content: &Vec<InputContent>, delivery: PendingDelivery) -> (place: Option<
        usize,
    >)
        ensures
            match place {
                Some(i) => i < self.items@.len() && place_of(
                    self@,
                    MessageView::User(message::content_views(content@)),
                    delivery,
                ) == Some(i as int),
                None => place_of(
                    self@,
                    MessageView::User(message::content_views(content@)),
                    delivery,
                ) is None,
            },
    {
        let ghost wanted = PendingView { delivery, content: message::content_views(content@) };
        let mut i: usize = 0;
        while i < self.items.len()
            invariant
                i <= self.items@.len(),
                wanted == (PendingView { delivery, content: message::content_views(content@) }),
                find_pending(self@, wanted, i as int) is None,
            decreases self.items@.len() - i,
        {
            let item = &self.items[i];
            assert(self@[i as int] == item@);
            if item.delivery == delivery && message::same_content(&item.content, content) {
                proof {
                    lemma_find_pending_stays(self@, wanted, i as int, self@.len() as int);
                }
                return Some(i);
            }
            i = i + 1;
        }
        None
    }

    /// Drops the first input that holds a message, and tells whether there was one.
    pub fn commit_next(&mut self, message: &InputMessage, delivery: PendingDelivery) -> (found:
        bool)
        ensures
            found == (place_of(old(self)@, message@, delivery) is Some),
            final(self)@ == with_committed(old(self)@, message@, delivery),
    {
        let ghost before = self@;
        let content = match message {
            InputMessage::User(content) => content,
            _ => {
                return false;
            },
        };
        match self.position(content, delivery) {
            Some(i) => {
                self.items.remove(i);
                assert(self@ =~= before.remove(i as int));
                true
            },
            None => false,
        }
    }

    /// Turns the first steer that holds a message into a queued input, and tells whether there was
    /// one.
    pub fn requeue_next_steer(&mut self, message: &InputMessage) -> (found: bool)
        ensures
            found == (place_of(old(self)@, message@, PendingDelivery::Steer) is Some),
            final(self)@ == with_requeued(old(self)@, message@),
    {
        let ghost before = self@;
        let content = match message {
            InputMessage::User(content) => content,
            _ => {
                return false;
            },
        };
        match self.position(content, PendingDelivery::Steer) {
            Some(i) => {
                self.items[i].delivery = PendingDelivery::Queue;
                assert(self@ =~= with_requeued(before, message@));
                true
            },
            None => false,
        }
    }

    /// The number of lines that are shown.
    pub fn render_height(&self) -> (height: u16)
        ensures
            height == pending_lines(self@).len(),
    {
        if self.items.len() <= MAX_PENDING_INPUT_ROWS {
            self.items.len() as u16
        } else {
            MAX_PENDING_INPUT_ROWS as u16
        }
    }

    /// The lines that are drawn into an area.
    pub fn render(&self, area: Rect) -> (lines: Vec<Line>)
        ensures
            style::line_views(lines@) == (if area.empty() {
                Seq::empty()
            } else {
                pending_lines(self@)
            }),
    {
        if area.is_empty() {
            let lines: Vec<Line> = Vec::new();
            assert(style::line_views(lines@) =~= Seq::empty());
            return lines;
        }
        self.render_lines()
    }

    /// The lines that are shown.
    pub fn render_lines(&self) -> (lines: Vec<Line>)
        ensures
            style::line_views(lines@) == pending_lines(self@),
    {
        let total: usize = self.items.len();
        let shown: usize = if total <= MAX_PENDING_INPUT_ROWS {
            total
        } else {
            MAX_PENDING_INPUT_ROWS - 1
        };
        let mut lines: Vec<Line> = Vec::new();
        let mut i: usize = 0;
        while i < shown
            invariant
                i <= shown <= self.items@.len(),
                lines@.len() == i,
                forall|j: int| 0 <= j < i ==> (#[trigger] lines@[j])@ == pending_line(self@[j]),
            decreases shown - i,
        {
            lines.push(pending_input_line(&self.items[i]));
            i = i + 1;
        }
        if total > MAX_PENDING_INPUT_ROWS {
            let mut text: String = "+".to_owned();
            text.append(chars::format_decimal((total - shown) as u64).as_str());
            text.append(" pending");
            lines.push(Line::styled(text, Style::default().fg(Color::DarkGray).italic()));
        }
        assert(style::line_views(lines@) =~= pending_lines(self@));
        lines
    }
}

fn flatten(text: &str) -> (flat: String)
    ensures
        flat@ == flattened(text@),
{
    let characters = chars::chars_of(text);
    let mut flat: String = String::new();
    let mut i: usize = 0;
    while i < characters.len()
        invariant
            i <= characters@.len(),
            flat@ == flattened(characters@).take(i as int),
        decreases characters@.len() - i,
    {
        let c = characters[i];
        flat.push(
            if c == '\n' || c == '\r' {
                ' '
            } else {
                c
            },
        );
        i = i + 1;
        assert(flat@ =~= flattened(characters@).take(i as int));
    }
    assert(flat@ =~= flattened(characters@));
    flat
}

fn pending_input_preview(content: &Vec<InputContent>) -> (shown: String)
    ensures
        shown@ == preview(message::content_views(content@)),
{
    let ghost views = message::content_views(content@);
    let mut parts: Vec<String> = Vec::new();
    let mut i: usize = 0;
    while i < content.len()
        invariant
            i <= content@.len(),
            views == message::content_views(content@),
            parts@.len() == i,
            forall|j: int| 0 <= j < i ==> (#[trigger] parts@[j])@ == piece_preview(views[j]),
        decreases content@.len() - i,
    {
        assert(views[i as int] == content@[i as int]@);
        let part = match &content[i] {
            InputContent::Text(text) => flatten(text.as_str()),
            InputContent::Image(_) => "[image]".to_owned(),
        };
        parts.push(part);
        i = i + 1;
    }
    assert(chars::texts(parts@) =~= Seq::new(views.len(), |j: int| piece_preview(views[j])));
    chars::join_texts(&parts, " ")
}

fn pending_input_line(pending: &PendingInput) -> (line: Line)
    ensures
        line@ == pending_line(pending@),
{
    let (label, color) = match pending.delivery {
        PendingDelivery::Steer => ("steer", Color::Cyan),
        PendingDelivery::Queue => ("queue", Color::Magenta),
    };
    let mut spans: Vec<Span> = Vec::new();
    spans.push(Span::styled(label.to_owned(), Style::default().fg(color).bold()));
    spans.push(Span::styled(" ".to_owned(), Style::default()));
    spans.push(
        Span::styled(
            pending_input_preview(&pending.content),
            Style::default().fg(Color::Gray),
        ),
    );
    let line = Line { spans };
    assert(line@ =~= pending_line(pending@));
    line
}

/// The style behind the pending inputs.
pub fn pending_area_style() -> (style: Style)
    ensures
        style == (Style {
            fg: Some(Color::Gray),
            bg: Some(Color::Rgb(31, 34, 40)),
            ..style::plain()
        }),
{
    Style::default().fg(Color::Gray).bg(Color::Rgb(31, 34, 40))
}

/// An input that was handed over to nobody else before it is the first to be taken up again: to
/// add a message of the user to inputs that do not hold it, and then to take it up, changes
/// nothing.
pub proof fn law_push_then_commit(
    items: Seq<PendingView>,
    content: Seq<ContentView>,
    delivery: PendingDelivery,
)
    requires
        place_of(items, MessageView::User(content), delivery) is None,
    ensures
        with_committed(
            with_pushed(items, MessageView::User(content), delivery),
            MessageView::User(content),
            delivery,
        ) == items,
{
    let wanted = PendingView { delivery, content };
    let pushed = items.push(wanted);
    lemma_find_pending_prefix(items, pushed, wanted, items.len() as int);
    assert(find_pending(pushed, wanted, pushed.len() as int) == Some(items.len() as int));
    assert(pushed.remove(items.len() as int) =~= items);
}

proof fn lemma_find_pending_prefix(
    items: Seq<PendingView>,
    longer: Seq<PendingView>,
    wanted: PendingView,
    count: int,
)
    requires
        0 <= count <= items.len() <= longer.len(),
        forall|i: int| 0 <= i < items.len() ==> items[i] == longer[i],
    ensures
        find_pending(longer, wanted, count) == find_pending(items, wanted, count),
    decreases count,
{
    if count > 0 {
        lemma_find_pending_prefix(items, longer, wanted, count - 1);
    }
}

/// To requeue a steer loses no input and changes no content.
pub proof fn law_requeue_keeps_contents(items: Seq<PendingView>, message: MessageView)
    ensures
        with_requeued(items, message).len() == items.len(),
        forall|i: int|
            0 <= i < items.len() ==> (#[trigger] with_requeued(items, message)[i]).content
                == items[i].content,
{
    if let MessageView::User(content) = message {
        lemma_find_pending_bound(
            items,
            PendingView { delivery: PendingDelivery::Steer, content },
            items.len() as int,
        );
    }
}

/// No more than `MAX_PENDING_INPUT_ROWS` lines are shown, and none only if nothing is pending.
pub proof fn law_few_lines_are_shown(items: Seq<PendingView>)
    ensures
        pending_lines(items).len() <= MAX_PENDING_INPUT_ROWS,
        pending_lines(items).len() == 0 <==> items.len() == 0,
{
}

proof fn lemma_find_pending(items: Seq<PendingView>, wanted: PendingView, count: int)
    requires
        0 <= count <= items.len(),
    ensures
        match find_pending(items, wanted, count) {
            Some(i) => {
                &&& 0 <= i < count
                &&& items[i] == wanted
                &&& forall|j: int| 0 <= j < i ==> #[trigger] items[j] != wanted
            },
            None => forall|j: int| 0 <= j < count ==> #[trigger] items[j] != wanted,
        },
    decreases count,
{
    if count > 0 {
        lemma_find_pending(items, wanted, count - 1);
    }
}

/// An input that is taken up is no longer pending: of the inputs that were handed over in this way
/// with this content the first one is dropped, and all others stay in their order. Where there is
/// none nothing changes.
pub proof fn law_first_equal_input_is_taken_up(
    items: Seq<PendingView>,
    content: Seq<ContentView>,
    delivery: PendingDelivery,
    at: int,
)
    ensures
        ({
            let wanted = PendingView { delivery, content };
            let after = with_committed(items, MessageView::User(content), delivery);
            &&& 0 <= at < items.len() && items[at] == wanted && (forall|j: int|
                0 <= j < at ==> #[trigger] items[j] != wanted) ==> {
                &&& after.len() == items.len() - 1
                &&& forall|j: int| 0 <= j < at ==> #[trigger] after[j] == items[j]
                &&& forall|j: int| at <= j < after.len() ==> #[trigger] after[j] == items[j + 1]
                &&& place_of(items, MessageView::User(content), delivery) == Some(at)
            }
            &&& (forall|j: int| 0 <= j < items.len() ==> #[trigger] items[j] != wanted) ==> after
                == items && place_of(items, MessageView::User(content), delivery) is None
        }),
{
    let wanted = PendingView { delivery, content };
    lemma_find_pending(items, wanted, items.len() as int);
}

/// A steer that the turn did not take up goes on waiting in its place as a queued input: the first
/// steer with its content, and no other input, changes.
pub proof fn law_first_equal_steer_is_queued(
    items: Seq<PendingView>,
    content: Seq<ContentView>,
    at: int,
)
    ensures
        ({
            let steer = PendingView { delivery: PendingDelivery::Steer, content };
            let after = with_requeued(items, MessageView::User(content));
            &&& 0 <= at < items.len() && items[at] == steer && (forall|j: int|
                0 <= j < at ==> #[trigger] items[j] != steer) ==> {
                &&& after.len() == items.len()
                &&& after[at] == (PendingView { delivery: PendingDelivery::Queue, content })
                &&& forall|j: int|
                    0 <= j < items.len() && j != at ==> #[trigger] after[j] == items[j]
            }
            &&& (forall|j: int| 0 <= j < items.len() ==> #[trigger] items[j] != steer) ==> after
                == items
        }),
{
    let steer = PendingView { delivery: PendingDelivery::Steer, content };
    lemma_find_pending(items, steer, items.len() as int);
}

/// Only messages of the user are pending, and each one waits behind those that were handed over
/// before it.
pub proof fn law_messages_of_the_user_wait_in_order(
    items: Seq<PendingView>,
    content: Seq<ContentView>,
    delivery: PendingDelivery,
)
    ensures
        ({
            let after = with_pushed(items, MessageView::User(content), delivery);
            &&& after.len() == items.len() + 1
            &&& after.drop_last() == items
            &&& after.last().delivery == delivery
            &&& after.last().content == content
        }),
        with_pushed(items, MessageView::System(content), delivery) == items,
        with_pushed(items, MessageView::Developer(content), delivery) == items,
        with_committed(items, MessageView::System(content), delivery) == items,
        with_committed(items, MessageView::Developer(content), delivery) == items,
        with_requeued(items, MessageView::System(content)) == items,
        with_requeued(items, MessageView::Developer(content)) == items,
{
    let after = with_pushed(items, MessageView::User(content), delivery);
    assert(after.drop_last() =~= items);
}

/// What is shown of pending inputs: up to three are shown with how they were handed over and what
/// they hold; of more only the first two, and how many others there are.
pub proof fn law_pending_inputs_are_shown(items: Seq<PendingView>, i: int)
    requires
        0 <= i < items.len(),
    ensures
        items.len() <= 3 ==> pending_lines(items).len() == items.len(),
        items.len() > 3 ==> pending_lines(items).len() == 3,
        items.len() <= 3 || i < 2 ==> style::plain_text(pending_lines(items)[i]) == (
        if items[i].delivery == PendingDelivery::Steer {
            "steer"@
        } else {
            "queue"@
        }) + " "@ + preview(items[i].content),
        items.len() > 3 ==> style::plain_text(pending_lines(items)[2]) == "+"@ + chars::decimal(
            (items.len() - 2) as nat,
        ) + " pending"@,
{
    reveal_with_fuel(style::spans_text, 4);
    let line = pending_line(items[i]);
    assert(style::plain_text(line) =~= delivery_label(items[i].delivery) + " "@ + preview(
        items[i].content,
    ));
    if items.len() > 3 {
        assert(style::plain_text(overflow_line((items.len() - 2) as nat)) =~= "+"@
            + chars::decimal((items.len() - 2) as nat) + " pending"@);
    }
}

/// An input is previewed on one line: its texts with a space for each line break, a mark for each
/// image, and a space between its pieces.
pub proof fn law_previews_stay_on_one_line(text: Seq<char>, image: message::ImageView, i: int)
    ensures
        preview(seq![ContentView::Text(text)]) == flattened(text),
        preview(seq![ContentView::Image(image)]) == "[image]"@,
        preview(seq![ContentView::Text(text), ContentView::Image(image)]) == flattened(text)
            + " "@ + "[image]"@,
        flattened(text).len() == text.len(),
        0 <= i < text.len() && (text[i] == '\n' || text[i] == '\r') ==> flattened(text)[i] == ' ',
        0 <= i < text.len() && text[i] != '\n' && text[i] != '\r' ==> flattened(text)[i]
            == text[i],
{
    reveal_with_fuel(chars::joined, 3);
}

} // verus!
