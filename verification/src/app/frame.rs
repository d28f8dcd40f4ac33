//! What is drawn, and what happens between two drawings.

use crate::app::mouse;
use crate::app::surface;
use crate::app::surface::AppSelectionSurface;
use crate::app::view;
use crate::app::view::{App, AppView, DirtyState, SelectionAutoscroll};
use crate::blocks::CodeHighlighter;
use crate::command_menu;
use crate::command_menu::{CommandMenu, MenuDrawing};
use crate::conversation;
use crate::conversation::{BlockDrawing, ConversationLayout, ConversationView};
use crate::geometry::{Position, Rect};
use crate::input;
use crate::input::{EditorView, InputBox, InputBoxLayout, InputDrawing, InputEditor};
use crate::notifications;
use crate::notifications::{NotificationDrawing, NotificationView};
use crate::scroll_view;
use crate::selection;
use crate::selection::{HighlightSpan, ManagerView, RowView};
use crate::state::StateView;
use crate::status;
use crate::status::StatusBar;
use crate::style;
use crate::style::Line;
use crate::text;
use vstd::prelude::*;

verus! {

/// The empty rows above the input.
pub const INPUT_TOP_GAP: u16 = 1;

/// The rows of the status line.
pub const STATUS_HEIGHT: u16 = 1;

/// How long a selection that scrolls on rests between two rows, in milliseconds.
pub const SELECTION_AUTOSCROLL_INTERVAL: u64 = 30;

pub const IDLE_INPUT_POLL_TIMEOUT: u64 = 50;

pub const IMAGE_INPUT_POLL_TIMEOUT: u64 = 16;

/// Whether a layout was made for a state and a width.
pub open spec fn current_for(layout: Option<ConversationLayout>, state: StateView, width: u16) -> bool {
    layout matches Some(layout) && layout.spec_revision() == state.revision && layout.spec_width()
        == width
}

/// Whether `after` is a layout for a state and a width: the one from before, if it was made for
/// them, or a new one.
pub open spec fn laid_out(
    before: Option<ConversationLayout>,
    after: Option<ConversationLayout>,
    state: StateView,
    width: u16,
) -> bool {
    if current_for(before, state, width) {
        after == before
    } else {
        after matches Some(layout) && {
            &&& layout.spec_revision() == state.revision
            &&& layout.spec_width() == width
            &&& layout.spec_blocks() == Seq::new(
                state.blocks.len(),
                |i: int| conversation::prepared(state.blocks[i], width),
            )
        }
    }
}

/// Whether the rows of a layout have been registered as what is shown of the conversation, in place
/// of those registered before, and nothing else has changed.
pub open spec fn registered(
    before: ManagerView<AppSelectionSurface>,
    after: ManagerView<AppSelectionSurface>,
    layout: ConversationLayout,
    area: Rect,
    scroll: u32,
) -> bool {
    view::conversation_map(after) matches Some(map) && {
        &&& layout.maps_to(&map, area, scroll)
        &&& after == (ManagerView {
            surfaces: selection::with_surface(
                before.surfaces,
                AppSelectionSurface::Conversation,
                map,
            ),
            ..before
        })
    }
}

/// The row at the edge that a selection scrolls on past.
pub open spec fn edge_row(area: Rect, scroll_delta: i32) -> u16 {
    if scroll_delta > 0 {
        area.y
    } else {
        area.y.saturating_add(area.height.saturating_sub(1))
    }
}

/// Whether a tick is due for a selection that scrolls on.
pub open spec fn tick_due(app: AppView, now: int) -> bool {
    app.autoscroll matches Some(autoscroll) && app.selection.dragging && now
        >= autoscroll.next_tick
}

/// Whether `after` is what becomes of a selection that scrolls on by one row: the rows on screen
/// are new, the selection reaches to the one at the edge, and the next tick is set.
pub open spec fn autoscrolled(before: AppView, now: int, after: AppView) -> bool {
    let autoscroll = before.autoscroll->0;
    let moved = before.scrolled_by(autoscroll.scroll_delta as int);
    match view::conversation_map(before.selection) {
        None => after == moved,
        Some(map) => {
            let area = map.spec_area();
            &&& laid_out(before.layout, after.layout, before.state, area.width)
            &&& exists|shown: ManagerView<AppSelectionSurface>|
                {
                    &&& #[trigger] registered(
                        before.selection,
                        shown,
                        after.layout->0,
                        area,
                        moved.scroll,
                    )
                    &&& mouse::dragged(
                        shown,
                        after.selection,
                        autoscroll.column,
                        edge_row(area, autoscroll.scroll_delta),
                    )
                }
            &&& after == (AppView {
                layout: after.layout,
                selection: after.selection,
                frozen_start: Some((after.layout->0).first_row(area, moved.scroll)),
                autoscroll: Some(
                    SelectionAutoscroll {
                        next_tick: (now + SELECTION_AUTOSCROLL_INTERVAL) as u64,
                        ..autoscroll
                    },
                ),
                ..moved
            })
        },
    }
}

/// Whether what is shown of the conversation has to stay in place, and where it is shown.
pub open spec fn frozen_area(app: AppView) -> Option<(u32, Rect)> {
    match (app.frozen_start, view::conversation_map(app.selection)) {
        (Some(start), Some(map)) => if map.spec_area().empty() {
            None
        } else {
            Some((start, map.spec_area()))
        },
        _ => None,
    }
}

/// How far a layout is scrolled so that it shows what starts at a row.
pub open spec fn scroll_to_row(layout: ConversationLayout, area: Rect, start: u32) -> u32 {
    let max = layout.spec_total_height().saturating_sub(area.height as u32);
    (max - scroll_view::min_u32(start, max)) as u32
}

/// Whether `after` shows what `before` showed of a conversation that may have changed.
pub open spec fn kept_in_place(before: AppView, after: AppView) -> bool {
    match frozen_area(before) {
        None => after == before,
        Some((start, area)) => {
            &&& laid_out(before.layout, after.layout, before.state, area.width)
            &&& after == (AppView {
                layout: after.layout,
                scroll: scroll_to_row(after.layout->0, area, start),
                ..before
            })
        },
    }
}

/// How the rows of the screen are shared out, as `ratatui`'s layout does it: the rows above the
/// gap, the gap, the input and the status line, each with its left edge, its top, its width and
/// its height.
pub uninterp spec fn frame_rows(
    x: u16,
    y: u16,
    width: u16,
    height: u16,
    gap: u16,
    input_height: u16,
    status_height: u16,
) -> Seq<(u16, u16, u16, u16)>;

/// The rows of a screen that has room for the gap, the input and the status line: they stand at its
/// bottom, as high as is asked for, and what is left is above them.
pub open spec fn stacked_rows(
    x: u16,
    y: u16,
    width: u16,
    height: u16,
    gap: u16,
    input_height: u16,
    status_height: u16,
) -> Seq<(u16, u16, u16, u16)> {
    let above = height - gap - input_height - status_height;
    seq![
        (x, y, width, above as u16),
        (x, (y + above) as u16, width, gap),
        (x, (y + above + gap) as u16, width, input_height),
        (x, (y + above + gap + input_height) as u16, width, status_height),
    ]
}

/// `ratatui::layout::Layout::split` on the screen, with the constraints `Min(0)`, `Length(gap)`,
/// `Length(input_height)` and `Length(status_height)` from the top: one rectangle for each of them,
/// as wide as the screen. With these two heights there is one way to meet the constraints best. A
/// length is met before the rows above grow, so where all lengths have room they are met exactly.
#[verifier::external_body]
fn split_frame(
    x: u16,
    y: u16,
    width: u16,
    height: u16,
    gap: u16,
    input_height: u16,
    status_height: u16,
) -> (rows: Vec<(u16, u16, u16, u16)>)
    requires
        gap == INPUT_TOP_GAP,
        status_height == STATUS_HEIGHT,
    ensures
        rows@ == frame_rows(x, y, width, height, gap, input_height, status_height),
        rows@.len() == 4,
        forall|i: int| 0 <= i < 4 ==> (#[trigger] rows@[i]).0 == x && rows@[i].2 == width,
        y + height <= u16::MAX && gap + input_height + status_height <= height ==> rows@
            == stacked_rows(x, y, width, height, gap, input_height, status_height),
{
    ratatui::layout::Layout::default()
        .direction(ratatui::layout::Direction::Vertical)
        .constraints([
            ratatui::layout::Constraint::Min(0),
            ratatui::layout::Constraint::Length(gap),
            ratatui::layout::Constraint::Length(input_height),
            ratatui::layout::Constraint::Length(status_height),
        ])
        .split(ratatui::layout::Rect { x, y, width, height })
        .iter()
        .map(|rect| (rect.x, rect.y, rect.width, rect.height))
        .collect()
}

/// Where the parts of the screen are.
#[derive(Debug, Clone, Copy)]
pub struct FrameAreas {
    pub conversation: Rect,
    pub input: Rect,
    pub status: Rect,
}

pub open spec fn rect_of(row: (u16, u16, u16, u16)) -> Rect {
    Rect { x: row.0, y: row.1, width: row.2, height: row.3 }
}

/// The parts of the screen that rows from the top make out.
pub open spec fn areas_of(rows: Seq<(u16, u16, u16, u16)>) -> FrameAreas {
    FrameAreas { conversation: rect_of(rows[0]), input: rect_of(rows[2]), status: rect_of(rows[3]) }
}

/// The parts of the screen that rows from the top make out.
pub fn frame_areas(rows: &Vec<(u16, u16, u16, u16)>) -> (areas: FrameAreas)
    requires
        rows@.len() == 4,
    ensures
        areas == areas_of(rows@),
{
    let above = rows[0];
    let input = rows[2];
    let status = rows[3];
    FrameAreas {
        conversation: Rect { x: above.0, y: above.1, width: above.2, height: above.3 },
        input: Rect { x: input.0, y: input.1, width: input.2, height: input.3 },
        status: Rect { x: status.0, y: status.1, width: status.2, height: status.3 },
    }
}

/// What is drawn of the conversation: all of it, or what was drawn last time.
#[derive(Debug)]
pub enum ConversationFrame {
    Drawn { drawings: Vec<BlockDrawing>, highlight: Vec<HighlightSpan> },
    Cached,
}

/// Whether the conversation has to be drawn again in an area.
pub open spec fn needs_drawing(app: AppView, area: Rect) -> bool {
    app.conversation_dirty || app.cached_area != Some(area)
}

/// Whether `frame` is what is drawn of the conversation into an area, and `after` the application
/// then.
pub open spec fn conversation_drawn(
    before: AppView,
    area: Rect,
    after: AppView,
    frame: ConversationFrame,
) -> bool {
    if needs_drawing(before, area) {
        &&& laid_out(before.layout, after.layout, before.state, area.width)
        &&& registered(
            before.selection,
            after.selection,
            after.layout->0,
            area,
            before.scroll,
        )
        &&& after == (AppView {
            layout: after.layout,
            selection: after.selection,
            cached_area: Some(area),
            conversation_dirty: false,
            ..before
        })
        &&& frame matches ConversationFrame::Drawn { drawings, highlight } && {
            let shown = ConversationView {
                layout: &(after.layout->0),
                scroll_from_bottom: before.scroll,
                selection: match before.selection.active {
                    Some((AppSelectionSurface::Conversation, active)) => Some(active),
                    None => None,
                },
            };
            &&& (after.layout->0).is_drawn_as(drawings@, area, before.scroll)
            &&& shown.highlights(highlight@, area)
        }
    } else {
        after == before && frame is Cached
    }
}

/// All that is drawn.
#[derive(Debug)]
pub struct FramePlan {
    pub areas: FrameAreas,
    pub conversation: ConversationFrame,
    pub input: InputDrawing,
    pub cursor: Option<Position>,
    pub status: Line,
    pub menu: Option<MenuDrawing>,
    pub notification: Option<NotificationDrawing>,
}

/// Whether `plan` is what is drawn of an application on a screen of some width, and `after` the
/// application then: the conversation has been laid out, the input has been scrolled to its cursor
/// and the menu has a command of its list selected.
pub open spec fn frame_drawn(before: App, width: u16, after: App, plan: FramePlan) -> bool {
    let area = plan.areas.conversation;
    &&& exists|middle: AppView|
        {
            &&& #[trigger] conversation_drawn(before@, area, middle, plan.conversation)
            &&& after@ == (AppView { input: after@.input, menu: after.command_menu, ..middle })
        }
    &&& input_drawn(before.input, plan.areas.input, after.input, plan.input)
    &&& exists|layout: InputBoxLayout|
        {
            &&& #[trigger] layout.measures(input::box_padding(), &before.input, width, false)
            &&& plan.cursor == layout.spec_cursor_position(plan.areas.input)
        }
    &&& plan.status@ == status::status_line(before@.model, before@.context, before@.workspace)
    &&& menu_drawn(before@, area, after.command_menu, plan.menu)
    &&& notification_drawn(before@.notification, area, plan.notification)
}

/// Whether `drawing` is what is drawn of an input, and `after` the input then.
pub open spec fn input_drawn(
    before: InputEditor,
    area: Rect,
    after: InputEditor,
    drawing: InputDrawing,
) -> bool {
    &&& drawing.highlight@.len() == 0
    &&& if area.empty() {
        after == before && drawing.cells@.len() == 0
    } else {
        exists|layout: InputBoxLayout, lines: Seq<RowView>|
            {
                &&& #[trigger] layout.measures(input::box_padding(), &before, area.width, false)
                &&& #[trigger] layout.maps(&before, area, lines)
                &&& after@ == (EditorView { scroll: layout.spec_scroll(), ..before@ })
                &&& input::drawn_views(drawing.cells@) == input::rows_drawing(
                    lines,
                    lines.len() as int,
                )
            }
    }
}

/// Whether `drawing` is what is drawn of the menu, and `after` the menu then.
pub open spec fn menu_drawn(
    before: AppView,
    area: Rect,
    after: CommandMenu,
    drawing: Option<MenuDrawing>,
) -> bool {
    let listed = command_menu::matches(before.commands, before.input.text);
    let shown = before.menu.spec_is_open(before.input.text) && !area.empty();
    &&& drawing is Some <==> shown && listed.len() > 0
    &&& after == (CommandMenu {
        dismissed: before.menu.dismissed,
        selected: if shown {
            command_menu::clamped(before.menu.selected, listed.len())
        } else {
            before.menu.selected
        },
        overlay_rect: if drawing is Some {
            before.menu.overlay_rect
        } else {
            None
        },
    })
    &&& drawing matches Some(drawing) ==> {
        &&& drawing.height == command_menu::height_for(listed.len(), area.height)
        &&& Some(drawing.selected) == after.selected
        &&& style::line_views(drawing.lines@) == Seq::new(
            listed.len(),
            |i: int| command_menu::menu_line(listed[i]),
        )
    }
}

/// Whether `drawing` is what is drawn of a notification.
pub open spec fn notification_drawn(
    current: Option<NotificationView>,
    area: Rect,
    drawing: Option<NotificationDrawing>,
) -> bool {
    &&& drawing is Some <==> current is Some && !area.empty()
    &&& drawing matches Some(drawing) ==> {
        let notification = current->0;
        &&& drawing.size.width == notifications::box_width(
            notification.kind,
            text::width_of(notification.message) as usize as u16,
            area.width,
        )
        &&& drawing.size.height == if notifications::NOTIFICATION_HEIGHT < area.height {
            notifications::NOTIFICATION_HEIGHT
        } else {
            area.height
        }
        &&& drawing.line@ == notifications::notification_line(
            notification.kind,
            notification.message,
        )
        &&& drawing.body_style == notifications::kind_body_style(notification.kind)
        &&& drawing.border_style == notifications::kind_border_style(notification.kind)
    }
}

impl App {
    fn ensure_conversation_layout(&mut self, width: u16, highlighter: &CodeHighlighter)
        requires
            old(self)@.state.blocks.len() < usize::MAX,
            width <= conversation::MAX_VIEW_WIDTH,
        ensures
            laid_out(old(self)@.layout, final(self)@.layout, old(self)@.state, width),
            final(self)@.layout is Some,
            final(self)@ == (AppView { layout: final(self)@.layout, ..old(self)@ }),
            final(self).input == old(self).input,
            final(self).state == old(self).state,
            final(self).selection_manager == old(self).selection_manager,
    {
        let current = match &self.conversation_layout {
            Some(layout) => layout.is_current(&self.state, width),
            None => false,
        };
        if !current {
            self.conversation_layout =
            Some(ConversationLayout::prepare(&self.state, width, highlighter));
        }
    }

    /// Registers what is shown of the conversation in an area.
    fn register_rows(&mut self, area: Rect, highlighter: &CodeHighlighter) -> (first_row: u32)
        requires
            old(self)@.state.blocks.len() < usize::MAX,
            area.width <= conversation::MAX_VIEW_WIDTH,
        ensures
            laid_out(old(self)@.layout, final(self)@.layout, old(self)@.state, area.width),
            final(self)@.layout is Some,
            registered(
                old(self)@.selection,
                final(self)@.selection,
                final(self)@.layout->0,
                area,
                old(self)@.scroll,
            ),
            first_row == (final(self)@.layout->0).first_row(area, old(self)@.scroll),
            final(self)@ == (AppView {
                layout: final(self)@.layout,
                selection: final(self)@.selection,
                ..old(self)@
            }),
            final(self).input == old(self).input,
    {
        proof {
            surface::lemma_surface_eq();
        }
        self.ensure_conversation_layout(area.width, highlighter);
        let map = match &self.conversation_layout {
            Some(layout) => layout.selection_map(area, self.conversation_scroll_from_bottom),
            None => {
                return 0;
            },
        };
        let first_row: u32 = map.viewport_start();
        self.selection_manager.register(AppSelectionSurface::Conversation, map);
        first_row
    }

    /// Scrolls a selection on that is held past the edge, when its time has come.
    pub fn tick_selection_autoscroll(&mut self, now: u64, highlighter: &CodeHighlighter) -> (dirty:
        DirtyState)
        requires
            now + SELECTION_AUTOSCROLL_INTERVAL <= u64::MAX,
            old(self)@.state.blocks.len() < usize::MAX,
            view::shown_fits(old(self)@),
        ensures
            if tick_due(old(self)@, now as int) {
                &&& dirty == DirtyState::spec_conversation()
                &&& autoscrolled(old(self)@, now as int, final(self)@)
            } else {
                &&& dirty == DirtyState::spec_none()
                &&& final(self)@ == (AppView {
                    autoscroll: if old(self)@.selection.dragging {
                        old(self)@.autoscroll
                    } else {
                        None
                    },
                    ..old(self)@
                })
            },
    {
        let ghost before = self@;
        let autoscroll = match self.conversation_selection_autoscroll {
            Some(autoscroll) => autoscroll,
            None => {
                return DirtyState::none();
            },
        };
        if !self.selection_manager.is_dragging() {
            self.conversation_selection_autoscroll = None;
            return DirtyState::none();
        }
        if now < autoscroll.next_tick {
            return DirtyState::none();
        }
        self.scroll_conversation(autoscroll.scroll_delta);
        let area = match self.conversation_selection_map() {
            Some(map) => map.area(),
            None => {
                return DirtyState::conversation();
            },
        };
        let ghost moved = self@;
        let first_row: u32 = self.register_rows(area, highlighter);
        self.frozen_selection_viewport_start = Some(first_row);
        let edge: u16 = if autoscroll.scroll_delta > 0 {
            area.y
        } else {
            area.y.saturating_add(area.height.saturating_sub(1))
        };
        let ghost shown = self@.selection;
        assert(registered(before.selection, shown, self@.layout->0, area, moved.scroll));
        self.drag_to(autoscroll.column, edge);
        self.conversation_selection_autoscroll =
        Some(
            SelectionAutoscroll { next_tick: now + SELECTION_AUTOSCROLL_INTERVAL, ..autoscroll },
        );
        DirtyState::conversation()
    }

    /// Keeps what is shown of the conversation in place, where that is asked for.
    pub fn preserve_frozen_selection_viewport(&mut self, highlighter: &CodeHighlighter)
        requires
            old(self)@.state.blocks.len() < usize::MAX,
            view::shown_fits(old(self)@),
        ensures
            kept_in_place(old(self)@, final(self)@),
    {
        let frozen_start: u32 = match self.frozen_selection_viewport_start {
            Some(start) => start,
            None => {
                return;
            },
        };
        let area = match self.conversation_selection_map() {
            Some(map) => map.area(),
            None => {
                return;
            },
        };
        if area.is_empty() {
            return;
        }
        self.ensure_conversation_layout(area.width, highlighter);
        if let Some(layout) = &self.conversation_layout {
            let max: u32 = layout.total_height().saturating_sub(area.height as u32);
            let start: u32 = frozen_start.min(max);
            self.conversation_scroll_from_bottom = max - start;
        }
    }

    /// What is drawn of the conversation into an area.
    pub fn render_conversation_area(&mut self, area: Rect, highlighter: &CodeHighlighter) -> (frame:
        ConversationFrame)
        requires
            old(self)@.state.blocks.len() < usize::MAX,
            area.width <= conversation::MAX_VIEW_WIDTH,
        ensures
            conversation_drawn(old(self)@, area, final(self)@, frame),
            final(self).input == old(self).input,
    {
        proof {
            surface::lemma_surface_eq();
        }
        let cached = match self.conversation_cache {
            Some(cached) => cached == area,
            None => false,
        };
        if !self.conversation_dirty && cached {
            return ConversationFrame::Cached;
        }
        let selection = self.selection_manager.selection_for(&AppSelectionSurface::Conversation);
        self.register_rows(area, highlighter);
        let frame = match &self.conversation_layout {
            Some(layout) => {
                let shown = ConversationView::new(layout).scroll_from_bottom(
                    self.conversation_scroll_from_bottom,
                ).selection(selection);
                ConversationFrame::Drawn {
                    drawings: layout.render(area, self.conversation_scroll_from_bottom),
                    highlight: shown.highlight(area),
                }
            },
            None => ConversationFrame::Cached,
        };
        self.conversation_cache = Some(area);
        self.conversation_dirty = false;
        frame
    }

    /// All that is drawn on a screen.
    pub fn render_app(&mut self, area: Rect, highlighter: &CodeHighlighter) -> (plan: FramePlan)
        requires
            old(self)@.state.blocks.len() < usize::MAX,
            area.width <= conversation::MAX_VIEW_WIDTH,
        ensures
            ({
                let padding = input::box_padding();
                let width = input::content_width(padding, area.width);
                let rows = frame_rows(
                    area.x,
                    area.y,
                    area.width,
                    area.height,
                    INPUT_TOP_GAP,
                    input::render_height(padding, &old(self).input, width),
                    STATUS_HEIGHT,
                );
                let input_height = input::render_height(padding, &old(self).input, width);
                &&& plan.areas == areas_of(rows)
                &&& area.y + area.height <= u16::MAX && INPUT_TOP_GAP + input_height + STATUS_HEIGHT
                    <= area.height ==> plan.areas == areas_of(
                    stacked_rows(
                        area.x,
                        area.y,
                        area.width,
                        area.height,
                        INPUT_TOP_GAP,
                        input_height,
                        STATUS_HEIGHT,
                    ),
                )
            }),
            frame_drawn(*old(self), area.width, *final(self), plan),
    {
        let input_box = InputBox::new();
        let layout = input_box.layout(&self.input, area.width);
        let rows = split_frame(
            area.x,
            area.y,
            area.width,
            area.height,
            INPUT_TOP_GAP,
            layout.render_height(),
            STATUS_HEIGHT,
        );
        let areas = frame_areas(&rows);
        self.render_frame(areas, area.width, highlighter)
    }

    /// All that is drawn on a screen of some width, into its parts.
    pub fn render_frame(&mut self, areas: FrameAreas, width: u16, highlighter: &CodeHighlighter) -> (plan:
        FramePlan)
        requires
            old(self)@.state.blocks.len() < usize::MAX,
            areas.input.width == width,
            areas.conversation.width <= conversation::MAX_VIEW_WIDTH,
        ensures
            plan.areas == areas,
            frame_drawn(*old(self), width, *final(self), plan),
    {
        let ghost before = *self;
        let input_box = InputBox::new();
        let layout = input_box.layout(&self.input, width);
        let cursor = layout.cursor_position(areas.input);
        let conversation = self.render_conversation_area(areas.conversation, highlighter);
        let ghost middle = self@;
        let input = input_box.render(areas.input, &mut self.input);
        let ghost typed = self@;
        let status = StatusBar::new(&self.status).line();
        let menu = self.command_menu.render(
            areas.conversation,
            self.input.text(),
            &self.slash_commands,
        );
        let notification = self.notifications.render(areas.conversation);
        assert(conversation_drawn(before@, areas.conversation, middle, conversation));
        assert(input_drawn(before.input, areas.input, self.input, input));
        FramePlan { areas, conversation, input, cursor, status, menu, notification }
    }

    /// How long to wait for input before the next drawing.
    pub fn poll_timeout(&self, images_in_flight: bool, now: u64) -> (timeout: u64)
        ensures
            ({
                let idle: u64 = if images_in_flight {
                    IMAGE_INPUT_POLL_TIMEOUT
                } else {
                    IDLE_INPUT_POLL_TIMEOUT
                };
                let autoscroll: u64 = match self@.autoscroll {
                    Some(autoscroll) => autoscroll.next_tick.saturating_sub(now),
                    None => idle,
                };
                let notification: u64 = match self@.notification {
                    Some(notification) => (notification.expires_at as u64).saturating_sub(now),
                    None => idle,
                };
                &&& timeout <= idle && timeout <= autoscroll && timeout <= notification
                &&& timeout == idle || timeout == autoscroll || timeout == notification
            }),
    {
        let mut timeout: u64 = if images_in_flight {
            IMAGE_INPUT_POLL_TIMEOUT
        } else {
            IDLE_INPUT_POLL_TIMEOUT
        };
        if let Some(autoscroll) = self.conversation_selection_autoscroll {
            timeout = timeout.min(autoscroll.next_tick.saturating_sub(now));
        }
        if let Some(left) = self.notifications.next_deadline(now) {
            timeout = timeout.min(left);
        }
        timeout
    }
}

} // verus!
