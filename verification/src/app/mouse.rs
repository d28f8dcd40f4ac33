//! What the mouse does: it scrolls the conversation and selects in it.

use crate::app::surface;
use crate::app::surface::AppSelectionSurface;
use crate::app::view;
use crate::app::view::{App, AppView, DirtyState, SelectionAutoscroll};
use crate::geometry::Rect;
use crate::notifications::{NotificationKind, NOTIFICATION_TTL};
use crate::selection;
use crate::selection::{ManagerView, Selection, SelectionManager};
use vstd::prelude::*;

verus! {

pub const MOUSE_SCROLL_ROWS: i32 = 3;

#[derive(Clone, Copy, Debug, PartialEq, Eq, Structural)]
pub enum MouseKind {
    ScrollUp,
    ScrollDown,
    LeftDown,
    LeftDrag,
    LeftUp,
    Other,
}

#[derive(Clone, Copy, Debug, PartialEq, Eq, Structural)]
pub struct MouseEvent {
    pub kind: MouseKind,
    pub column: u16,
    pub row: u16,
}

/// What the mouse asks for.
#[derive(Debug)]
pub struct MouseHandled {
    pub dirty: DirtyState,
    /// A text for the clipboard.
    pub copy: Option<String>,
}

/// Whether the menu lies over the cell.
pub open spec fn shielded(app: AppView, mouse: MouseEvent) -> bool {
    app.menu.spec_is_open(app.input.text) && app.menu.covers(mouse.column, mouse.row)
}

/// Whether the cell lies in the conversation as it was last shown.
pub open spec fn in_conversation(app: AppView, mouse: MouseEvent) -> bool {
    view::conversation_map(app.selection) matches Some(map) && map.spec_contains_point(
        mouse.column,
        mouse.row,
    )
}

/// Whether something is selected or being selected.
pub open spec fn has_selection(app: AppView) -> bool {
    ||| app.selection.active matches Some((key, _)) && key == AppSelectionSurface::Conversation
    ||| app.selection.dragging
    ||| app.autoscroll is Some
}

/// The area of the surface that holds the selection.
pub open spec fn active_area(selection: ManagerView<AppSelectionSurface>) -> Option<Rect> {
    match selection.active {
        Some((key, _)) => match selection::map_of(selection.surfaces, key) {
            Some(map) => Some(map.spec_area()),
            None => None,
        },
        None => None,
    }
}

/// The text that a selection copies.
pub open spec fn selected_text(selection: ManagerView<AppSelectionSurface>) -> Seq<char> {
    match selection.active {
        Some((key, active)) => match selection::map_of(selection.surfaces, key) {
            Some(map) => map.selected_text(active),
            None => Seq::empty(),
        },
        None => Seq::empty(),
    }
}

/// Whether a selection has started at a cell, on the first surface that shows a row there.
pub open spec fn started(
    before: ManagerView<AppSelectionSurface>,
    after: ManagerView<AppSelectionSurface>,
    x: u16,
    y: u16,
) -> bool {
    exists|s: int, i: int|
        {
            let start = SelectionManager::start_position(before.surfaces, s, i, x);
            &&& #[trigger] SelectionManager::starts_on(before.surfaces, s, i, x, y)
            &&& after == (ManagerView {
                surfaces: before.surfaces,
                active: Some(
                    (before.surfaces[s].0, Selection { anchor: start, focus: start }),
                ),
                dragging: true,
            })
        }
}

/// Whether no surface shows a row at a cell.
pub open spec fn nothing_at(before: ManagerView<AppSelectionSurface>, x: u16, y: u16) -> bool {
    forall|t: int|
        0 <= t < before.surfaces.len() ==> !SelectionManager::<AppSelectionSurface>::starts_in(
            (#[trigger] before.surfaces[t]).1,
            x,
            y,
        )
}

/// Whether the selection has been dragged to the shown row nearest to a cell. Without a shown row
/// it stays as it is.
pub open spec fn dragged(
    before: ManagerView<AppSelectionSurface>,
    after: ManagerView<AppSelectionSurface>,
    x: u16,
    y: u16,
) -> bool {
    match before.active {
        Some((key, active)) => match selection::map_of(before.surfaces, key) {
            Some(map) => if map.spec_visible().len() > 0 {
                exists|i: int|
                    {
                        &&& #[trigger] map.nearest_to(i, y)
                        &&& after == (ManagerView {
                            surfaces: before.surfaces,
                            active: Some(
                                (
                                    key,
                                    Selection {
                                        anchor: active.anchor,
                                        focus: map.spec_visible()[i].clamped_position(x),
                                    },
                                ),
                            ),
                            dragging: before.dragging,
                        })
                    }
            } else {
                after == before
            },
            None => after == before,
        },
        None => after == before,
    }
}

/// Whether a row lies between the top and the bottom of an area.
pub open spec fn beside(area: Rect, row: u16) -> bool {
    area.y <= row < area.y.saturating_add(area.height)
}

/// The column of an area nearest to a column.
pub open spec fn column_in(area: Rect, column: u16) -> u16 {
    let max_x = area.x.saturating_add(area.width.saturating_sub(1));
    if column < area.x {
        area.x
    } else if column > max_x {
        max_x
    } else {
        column
    }
}

/// The application after the wheel was turned in the conversation.
pub open spec fn wheeled(app: AppView, delta: int) -> AppView {
    app.unselected().scrolled_by(delta)
}

/// What the wheel makes be drawn again.
pub open spec fn wheel_dirty(app: AppView, delta: int) -> DirtyState {
    if wheeled(app, delta).scroll != app.scroll || has_selection(app) {
        DirtyState::spec_conversation()
    } else {
        DirtyState::spec_none()
    }
}

/// The application after the mouse was dragged, where `selection` is what is selected then. Past
/// the edges of the conversation the selection scrolls on.
pub open spec fn after_drag(
    app: AppView,
    mouse: MouseEvent,
    now: int,
    selection: ManagerView<AppSelectionSurface>,
) -> AppView {
    match active_area(app.selection) {
        Some(area) => if area.empty() {
            app
        } else if beside(area, mouse.row) {
            AppView { autoscroll: None, selection, ..app }
        } else {
            AppView {
                autoscroll: Some(
                    SelectionAutoscroll {
                        scroll_delta: if mouse.row < area.y {
                            1
                        } else {
                            -1i32 as i32
                        },
                        column: column_in(area, mouse.column),
                        next_tick: now as u64,
                    },
                ),
                ..app
            }
        },
        None => app,
    }
}

/// Whether the selection after a drag is the one before it, or the one dragged to the mouse.
pub open spec fn drag_selects(
    app: AppView,
    mouse: MouseEvent,
    selection: ManagerView<AppSelectionSurface>,
) -> bool {
    if active_area(app.selection) matches Some(area) && !area.empty() && beside(area, mouse.row) {
        dragged(app.selection, selection, mouse.column, mouse.row)
    } else {
        selection == app.selection
    }
}

/// The application after the button was released.
pub open spec fn after_release(app: AppView, now: int) -> AppView {
    let cleared = app.unselected();
    if selected_text(app.selection).len() == 0 {
        cleared.notified(NotificationKind::Info, "no selection"@, now)
    } else {
        cleared
    }
}

/// Whether `after` and `handled` are what a mouse event leads to.
pub open spec fn moused(
    before: AppView,
    mouse: MouseEvent,
    now: int,
    after: AppView,
    dirty: DirtyState,
    copy: Option<Seq<char>>,
) -> bool {
    if shielded(before, mouse) {
        &&& after == before
        &&& dirty == DirtyState::spec_none()
        &&& copy is None
    } else if mouse.kind == MouseKind::ScrollUp && in_conversation(before, mouse) {
        &&& dirty == wheel_dirty(before, MOUSE_SCROLL_ROWS as int)
        &&& after == wheeled(before, MOUSE_SCROLL_ROWS as int).dirtied(dirty)
        &&& copy is None
    } else if mouse.kind == MouseKind::ScrollDown && in_conversation(before, mouse) {
        &&& dirty == wheel_dirty(before, -MOUSE_SCROLL_ROWS as int)
        &&& after == wheeled(before, -MOUSE_SCROLL_ROWS as int).dirtied(dirty)
        &&& copy is None
    } else if mouse.kind == MouseKind::LeftDown && in_conversation(before, mouse) {
        &&& dirty == DirtyState::spec_conversation()
        &&& copy is None
        &&& if nothing_at(before.selection, mouse.column, mouse.row) {
            after == before.unselected().dirtied(dirty)
        } else {
            &&& started(before.selection, after.selection, mouse.column, mouse.row)
            &&& after == (AppView {
                autoscroll: None,
                selection: after.selection,
                frozen_start: match view::conversation_map(before.selection) {
                    Some(map) => Some(map.spec_viewport_start()),
                    None => None,
                },
                ..before
            }).dirtied(dirty)
        }
    } else if mouse.kind == MouseKind::LeftDrag && before.selection.dragging {
        &&& dirty == DirtyState::spec_conversation()
        &&& copy is None
        &&& drag_selects(before, mouse, after.selection)
        &&& after == after_drag(before, mouse, now, after.selection).dirtied(dirty)
    } else if mouse.kind == MouseKind::LeftUp && before.selection.dragging {
        &&& dirty == DirtyState::spec_conversation()
        &&& after == after_release(before, now).dirtied(dirty)
        &&& copy == (if selected_text(before.selection).len() == 0 {
            None
        } else {
            Some(selected_text(before.selection))
        })
    } else {
        &&& after == before
        &&& dirty == DirtyState::spec_none()
        &&& copy is None
    }
}

impl App {
    pub fn has_conversation_selection(&self) -> (has: bool)
        ensures
            has == has_selection(self@),
    {
        proof {
            surface::lemma_surface_eq();
        }
        self.selection_manager.selection_for(&AppSelectionSurface::Conversation).is_some()
            || self.selection_manager.is_dragging()
            || self.conversation_selection_autoscroll.is_some()
    }

    pub fn mouse_in_conversation_area(&self, mouse: MouseEvent) -> (inside: bool)
        ensures
            inside == in_conversation(self@, mouse),
    {
        proof {
            surface::lemma_surface_eq();
        }
        self.selection_manager.contains_point(
            &AppSelectionSurface::Conversation,
            mouse.column,
            mouse.row,
        )
    }

    fn handle_wheel(&mut self, delta: i32) -> (dirty: DirtyState)
        ensures
            final(self)@ == wheeled(old(self)@, delta as int),
            dirty == wheel_dirty(old(self)@, delta as int),
    {
        let had_selection = self.has_conversation_selection();
        self.clear_conversation_selection();
        if self.scroll_conversation(delta) || had_selection {
            DirtyState::conversation()
        } else {
            DirtyState::none()
        }
    }

    fn start_conversation_selection(&mut self, mouse: MouseEvent)
        ensures
            if nothing_at(old(self)@.selection, mouse.column, mouse.row) {
                final(self)@ == old(self)@.unselected()
            } else {
                &&& started(
                    old(self)@.selection,
                    final(self)@.selection,
                    mouse.column,
                    mouse.row,
                )
                &&& final(self)@ == (AppView {
                    autoscroll: None,
                    selection: final(self)@.selection,
                    frozen_start: match view::conversation_map(old(self)@.selection) {
                        Some(map) => Some(map.spec_viewport_start()),
                        None => None,
                    },
                    ..old(self)@
                })
            },
    {
        let ghost before = self@;
        self.conversation_selection_autoscroll = None;
        match self.selection_manager.start_at(mouse.column, mouse.row) {
            Some(_) => {
                proof {
                    let (s, i) = choose|s: int, i: int|
                        #[trigger] SelectionManager::starts_on(
                            before.selection.surfaces,
                            s,
                            i,
                            mouse.column,
                            mouse.row,
                        ) && self.selection_manager.spec_active() == Some(
                            (
                                before.selection.surfaces[s].0,
                                Selection {
                                    anchor: SelectionManager::start_position(
                                        before.selection.surfaces,
                                        s,
                                        i,
                                        mouse.column,
                                    ),
                                    focus: SelectionManager::start_position(
                                        before.selection.surfaces,
                                        s,
                                        i,
                                        mouse.column,
                                    ),
                                },
                            ),
                        );
                    assert(SelectionManager::<AppSelectionSurface>::starts_in(
                        before.selection.surfaces[s].1,
                        mouse.column,
                        mouse.row,
                    ));
                    assert(started(before.selection, self@.selection, mouse.column, mouse.row));
                }
                self.frozen_selection_viewport_start =
                match self.conversation_selection_map() {
                    Some(map) => Some(map.viewport_start()),
                    None => None,
                };
            },
            None => {
                self.clear_conversation_selection();
            },
        }
    }

    fn update_conversation_selection_drag(&mut self, mouse: MouseEvent, now: u64)
        ensures
            drag_selects(old(self)@, mouse, final(self)@.selection),
            final(self)@ == after_drag(old(self)@, mouse, now as int, final(self)@.selection),
    {
        proof {
            surface::lemma_surface_eq();
        }
        let ghost before = self@;
        let area = match self.selection_manager.active_area() {
            Some(area) => area,
            None => {
                return;
            },
        };
        if area.is_empty() {
            return;
        }
        if mouse.row >= area.y && mouse.row < area.bottom() {
            self.conversation_selection_autoscroll = None;
            self.drag_to(mouse.column, mouse.row);
            return;
        }
        let scroll_delta: i32 = if mouse.row < area.y {
            1
        } else {
            -1
        };
        let max_x: u16 = area.x.saturating_add(area.width.saturating_sub(1));
        let column: u16 = if mouse.column < area.x {
            area.x
        } else if mouse.column > max_x {
            max_x
        } else {
            mouse.column
        };
        self.conversation_selection_autoscroll =
        Some(SelectionAutoscroll { scroll_delta, column, next_tick: now });
    }

    /// Drags the selection to the shown row nearest to a cell.
    pub fn drag_to(&mut self, x: u16, y: u16)
        ensures
            dragged(old(self)@.selection, final(self)@.selection, x, y),
            final(self)@ == (AppView { selection: final(self)@.selection, ..old(self)@ }),
    {
        proof {
            surface::lemma_surface_eq();
        }
        let ghost before = self@.selection;
        self.selection_manager.update_focus_nearest(x, y);
    }

    fn finish_conversation_selection(&mut self, now: u64) -> (copy: Option<String>)
        requires
            now + NOTIFICATION_TTL <= u64::MAX,
        ensures
            final(self)@ == after_release(old(self)@, now as int),
            match copy {
                Some(text) => text@ == selected_text(old(self)@.selection) && text@.len() > 0,
                None => selected_text(old(self)@.selection).len() == 0,
            },
    {
        proof {
            surface::lemma_surface_eq();
        }
        self.conversation_selection_autoscroll = None;
        let text = match self.selection_manager.finish_copy() {
            Some((_, text)) => text,
            None => String::new(),
        };
        self.clear_conversation_selection();
        if text.as_str().is_empty() {
            self.push_notification(NotificationKind::Info, "no selection".to_owned(), now);
            None
        } else {
            Some(text)
        }
    }

    /// Tells what became of a text that was to be copied.
    pub fn finish_copy(&mut self, copied: bool, now: u64)
        requires
            now + NOTIFICATION_TTL <= u64::MAX,
        ensures
            final(self)@ == (if copied {
                old(self)@.notified(NotificationKind::Success, "copied"@, now as int)
            } else {
                old(self)@.notified(NotificationKind::Error, "copy failed"@, now as int)
            }),
    {
        if copied {
            self.push_notification(NotificationKind::Success, "copied".to_owned(), now);
        } else {
            self.push_notification(NotificationKind::Error, "copy failed".to_owned(), now);
        }
    }

    /// Handles what the mouse does.
    pub fn handle_mouse(&mut self, mouse: MouseEvent, now: u64) -> (handled: MouseHandled)
        requires
            now + NOTIFICATION_TTL <= u64::MAX,
        ensures
            moused(
                old(self)@,
                mouse,
                now as int,
                final(self)@,
                handled.dirty,
                crate::state::optional_text(handled.copy),
            ),
    {
        if self.command_menu.is_open(self.input.text()) && self.command_menu.contains(
            mouse.column,
            mouse.row,
        ) {
            return MouseHandled { dirty: DirtyState::none(), copy: None };
        }
        let inside = self.mouse_in_conversation_area(mouse);
        let dragging = self.selection_manager.is_dragging();
        let mut copy: Option<String> = None;
        let dirty = match mouse.kind {
            MouseKind::ScrollUp => if inside {
                self.handle_wheel(MOUSE_SCROLL_ROWS)
            } else {
                DirtyState::none()
            },
            MouseKind::ScrollDown => if inside {
                self.handle_wheel(-MOUSE_SCROLL_ROWS)
            } else {
                DirtyState::none()
            },
            MouseKind::LeftDown => if inside {
                self.start_conversation_selection(mouse);
                DirtyState::conversation()
            } else {
                DirtyState::none()
            },
            MouseKind::LeftDrag => if dragging {
                self.update_conversation_selection_drag(mouse, now);
                DirtyState::conversation()
            } else {
                DirtyState::none()
            },
            MouseKind::LeftUp => if dragging {
                copy = self.finish_conversation_selection(now);
                DirtyState::conversation()
            } else {
                DirtyState::none()
            },
            MouseKind::Other => DirtyState::none(),
        };
        self.mark_dirty(dirty);
        MouseHandled { dirty, copy }
    }
}

} // verus!
