//! What the application holds.

use crate::app::surface;
use crate::app::surface::AppSelectionSurface;
use crate::command::app_command;
use crate::command::app_command::{AppCommand, CommandView};
use crate::command::builtins;
use crate::command::slash::{SlashCommand, SlashCommandRegistry};
use crate::command_menu::CommandMenu;
use crate::conversation;
use crate::conversation::ConversationLayout;
use crate::geometry::Rect;
use crate::history::EntryView;
use crate::input;
use crate::input::{EditorView, InputEditor};
use crate::notifications::{
    NotificationCenter, NotificationKind, NotificationView, NOTIFICATION_TTL,
};
use crate::runtime::{AgentRuntime, RuntimeView, TurnStart};
use crate::scroll_view;
use crate::scroll_view::ScrollViewState;
use crate::selection;
use crate::selection::{ManagerView, SelectionManager, SelectionMap};
use crate::state;
use crate::state::{AppState, StateView};
use crate::status::StatusBarState;
use vstd::prelude::*;

verus! {

/// A selection that is dragged past the edge scrolls on by itself, from a time on.
#[derive(Clone, Copy, Debug, PartialEq, Eq, Structural)]
pub struct SelectionAutoscroll {
    pub scroll_delta: i32,
    pub column: u16,
    pub next_tick: u64,
}

/// What has to be drawn again.
#[derive(Clone, Copy, Debug, PartialEq, Eq, Structural)]
pub struct DirtyState {
    pub frame: bool,
    pub conversation: bool,
}

impl DirtyState {
    pub open spec fn spec_none() -> DirtyState {
        DirtyState { frame: false, conversation: false }
    }

    pub open spec fn spec_frame() -> DirtyState {
        DirtyState { frame: true, conversation: false }
    }

    pub open spec fn spec_conversation() -> DirtyState {
        DirtyState { frame: true, conversation: true }
    }

    pub fn none() -> (dirty: DirtyState)
        ensures
            dirty == DirtyState::spec_none(),
    {
        DirtyState { frame: false, conversation: false }
    }

    pub fn frame() -> (dirty: DirtyState)
        ensures
            dirty == DirtyState::spec_frame(),
    {
        DirtyState { frame: true, conversation: false }
    }

    pub fn conversation() -> (dirty: DirtyState)
        ensures
            dirty == DirtyState::spec_conversation(),
    {
        DirtyState { frame: true, conversation: true }
    }
}

#[derive(Debug)]
pub struct App {
    pub runtime: AgentRuntime,
    pub model_id: String,
    pub slash_commands: SlashCommandRegistry,
    pub state: AppState,
    pub conversation_scroll_from_bottom: u32,
    pub input: InputEditor,
    pub command_menu: CommandMenu,
    pub status: StatusBarState,
    pub notifications: NotificationCenter,
    pub render_dirty: bool,
    pub conversation_dirty: bool,
    pub conversation_layout: Option<ConversationLayout>,
    pub conversation_cache: Option<Rect>,
    pub selection_manager: SelectionManager<AppSelectionSurface>,
    pub conversation_selection_autoscroll: Option<SelectionAutoscroll>,
    pub frozen_selection_viewport_start: Option<u32>,
    pub quit: bool,
}

/// What the application holds, as plain values.
pub struct AppView {
    pub runtime: RuntimeView,
    pub model_id: Seq<char>,
    pub commands: Seq<SlashCommand>,
    pub state: StateView,
    pub scroll: u32,
    pub input: EditorView,
    pub menu: CommandMenu,
    pub model: Seq<char>,
    pub context: Seq<char>,
    pub workspace: Seq<char>,
    pub notification: Option<NotificationView>,
    pub render_dirty: bool,
    pub conversation_dirty: bool,
    pub layout: Option<ConversationLayout>,
    pub cached_area: Option<Rect>,
    pub selection: ManagerView<AppSelectionSurface>,
    pub autoscroll: Option<SelectionAutoscroll>,
    pub frozen_start: Option<u32>,
    pub quit: bool,
}

impl View for App {
    type V = AppView;

    open spec fn view(&self) -> AppView {
        AppView {
            runtime: self.runtime@,
            model_id: self.model_id@,
            commands: self.slash_commands.commands@,
            state: self.state@,
            scroll: self.conversation_scroll_from_bottom,
            input: self.input@,
            menu: self.command_menu,
            model: self.status.model@,
            context: self.status.context@,
            workspace: self.status.workspace@,
            notification: self.notifications@,
            render_dirty: self.render_dirty,
            conversation_dirty: self.conversation_dirty,
            layout: self.conversation_layout,
            cached_area: self.conversation_cache,
            selection: self.selection_manager@,
            autoscroll: self.conversation_selection_autoscroll,
            frozen_start: self.frozen_selection_viewport_start,
            quit: self.quit,
        }
    }
}

/// The rows that were last shown of the conversation.
pub open spec fn conversation_map(selection: ManagerView<AppSelectionSurface>) -> Option<
    SelectionMap,
> {
    selection::map_of(selection.surfaces, AppSelectionSurface::Conversation)
}

/// Whether what was last shown of the conversation was not too wide.
pub open spec fn shown_fits(app: AppView) -> bool {
    conversation_map(app.selection) matches Some(map) ==> map.spec_area().width
        <= conversation::MAX_VIEW_WIDTH
}

/// How far rows can be scrolled.
pub open spec fn max_start(map: SelectionMap) -> u32 {
    map.spec_total_height().saturating_sub(map.spec_area().height as u32)
}

impl AppView {
    /// What has to be drawn again is remembered.
    pub open spec fn dirtied(self, dirty: DirtyState) -> AppView {
        AppView {
            render_dirty: self.render_dirty || dirty.frame,
            conversation_dirty: self.conversation_dirty || dirty.conversation,
            ..self
        }
    }

    /// A message is shown from a time on.
    pub open spec fn notified(
        self,
        kind: NotificationKind,
        message: Seq<char>,
        now: int,
    ) -> AppView {
        AppView {
            notification: Some(
                NotificationView { kind, message, expires_at: now + NOTIFICATION_TTL },
            ),
            ..self
        }.dirtied(DirtyState::spec_frame())
    }

    /// How far the conversation can be scrolled, as far as that is known.
    pub open spec fn max_scroll(self) -> u32 {
        match conversation_map(self.selection) {
            Some(map) => max_start(map),
            None => u32::MAX,
        }
    }

    /// The conversation is scrolled to a place, and what is shown there stays in place while the
    /// conversation grows, unless that is its end.
    pub open spec fn scrolled_to(self, wanted: u32) -> AppView {
        let scroll = scroll_view::min_u32(wanted, self.max_scroll());
        AppView {
            scroll,
            frozen_start: if scroll == 0 {
                None
            } else {
                match conversation_map(self.selection) {
                    Some(map) => Some(max_start(map).saturating_sub(scroll)),
                    None => self.frozen_start,
                }
            },
            ..self
        }
    }

    /// The conversation is scrolled by some rows.
    pub open spec fn scrolled_by(self, delta: int) -> AppView {
        self.scrolled_to(scroll_view::scrolled(self.scroll, delta, self.max_scroll()) as u32)
    }

    /// The text is typed into the input.
    pub open spec fn restored(self, text: Seq<char>) -> AppView {
        AppView { input: self.input.typed_text(text, text.len() as int), ..self }
    }

    /// Nothing is selected in the conversation any more.
    pub open spec fn unselected(self) -> AppView {
        AppView {
            selection: self.selection.cleared(),
            autoscroll: None,
            frozen_start: None,
            ..self
        }
    }

    /// The output of a command is shown at the end of the conversation.
    pub open spec fn told(self, text: Seq<char>, is_error: bool) -> AppView {
        AppView {
            state: self.state.pushed(state::KindView::Command { text, is_error }, false),
            ..self
        }
    }
}

impl App {
    /// An application that starts with an empty conversation.
    pub fn new(runtime: AgentRuntime, workspace: String, model_id: String) -> (app: App)
        ensures
            app@.runtime == runtime@,
            app@.model_id == model_id@,
            app@.commands.len() == builtins::builtin_table().len(),
            forall|i: int|
                0 <= i < app@.commands.len() ==> {
                    let command = #[trigger] app@.commands[i];
                    (command.build, command.spec.name@, command.spec.summary@, command.spec.usage@)
                        == builtins::builtin_table()[i]
                },
            app@.state == state::empty_state(),
            app@.scroll == 0,
            app@.input == input::empty_editor(),
            app@.menu == (CommandMenu { dismissed: false, selected: Some(0), overlay_rect: None }),
            app@.model == model_id@,
            app@.context == "0%"@,
            app@.workspace == workspace@,
            app@.notification is None,
            app@.render_dirty,
            app@.conversation_dirty,
            app@.layout is None,
            app@.cached_area is None,
            app@.selection == (ManagerView::<AppSelectionSurface> {
                surfaces: Seq::empty(),
                active: None,
                dragging: false,
            }),
            app@.autoscroll is None,
            app@.frozen_start is None,
            !app@.quit,
    {
        App {
            runtime,
            model_id: model_id.clone(),
            slash_commands: builtins::builtins(),
            state: AppState::default(),
            conversation_scroll_from_bottom: 0,
            input: InputEditor::default(),
            command_menu: CommandMenu::new(),
            status: StatusBarState { model: model_id, context: "0%".to_owned(), workspace },
            notifications: NotificationCenter::new(),
            render_dirty: true,
            conversation_dirty: true,
            conversation_layout: None,
            conversation_cache: None,
            selection_manager: SelectionManager::default(),
            conversation_selection_autoscroll: None,
            frozen_selection_viewport_start: None,
            quit: false,
        }
    }

    pub fn mark_dirty(&mut self, dirty: DirtyState)
        ensures
            final(self)@ == old(self)@.dirtied(dirty),
    {
        self.render_dirty = self.render_dirty || dirty.frame;
        self.conversation_dirty = self.conversation_dirty || dirty.conversation;
    }

    pub fn push_notification(&mut self, kind: NotificationKind, message: String, now: u64)
        requires
            now + NOTIFICATION_TTL <= u64::MAX,
        ensures
            final(self)@ == old(self)@.notified(kind, message@, now as int),
    {
        self.notifications.push_at(kind, message, now);
        self.mark_dirty(DirtyState::frame());
    }

    /// Drops the notification when its time is over.
    pub fn tick_notifications(&mut self, now: u64) -> (dirty: DirtyState)
        ensures
            ({
                let over = crate::notifications::expired(old(self)@.notification, now as int);
                &&& dirty == (if over {
                    DirtyState::spec_frame()
                } else {
                    DirtyState::spec_none()
                })
                &&& final(self)@ == (AppView {
                    notification: if over {
                        None
                    } else {
                        old(self)@.notification
                    },
                    ..old(self)@
                })
            }),
    {
        if self.notifications.tick(now) {
            DirtyState::frame()
        } else {
            DirtyState::none()
        }
    }

    /// The rows that were last shown of the conversation.
    pub fn conversation_selection_map(&self) -> (map: Option<&SelectionMap>)
        ensures
            match map {
                Some(map) => conversation_map(self@.selection) == Some(*map),
                None => conversation_map(self@.selection) is None,
            },
    {
        proof {
            surface::lemma_surface_eq();
        }
        self.selection_manager.map_for(&AppSelectionSurface::Conversation)
    }

    /// Whether what was last shown of the conversation was not too wide.
    pub fn shown_fits(&self) -> (fits: bool)
        ensures
            fits == shown_fits(self@),
    {
        match self.conversation_selection_map() {
            Some(map) => map.area().width <= conversation::MAX_VIEW_WIDTH,
            None => true,
        }
    }

    /// Scrolls the conversation by some rows, and tells whether that moved it.
    pub fn scroll_conversation(&mut self, delta: i32) -> (changed: bool)
        ensures
            final(self)@ == old(self)@.scrolled_by(delta as int),
            changed == (final(self)@.scroll != old(self)@.scroll),
    {
        let max_scroll: u32 = self.max_scroll();
        let mut scroll_state = ScrollViewState::from_bottom(self.conversation_scroll_from_bottom);
        scroll_state.scroll_by(delta, max_scroll);
        self.set_conversation_scroll_from_bottom(scroll_state.scroll_from_bottom())
    }

    pub fn max_scroll(&self) -> (max_scroll: u32)
        ensures
            max_scroll == self@.max_scroll(),
    {
        match self.conversation_selection_map() {
            Some(map) => map.max_viewport_start(),
            None => u32::MAX,
        }
    }

    /// Scrolls the conversation to a place, and tells whether that moved it.
    pub fn set_conversation_scroll_from_bottom(&mut self, scroll_from_bottom: u32) -> (changed:
        bool)
        ensures
            final(self)@ == old(self)@.scrolled_to(scroll_from_bottom),
            changed == (final(self)@.scroll != old(self)@.scroll),
    {
        let max_scroll: u32 = self.max_scroll();
        let known = self.conversation_selection_map().is_some();
        let mut scroll_state = ScrollViewState::from_bottom(self.conversation_scroll_from_bottom);
        scroll_state.set_scroll_from_bottom(scroll_from_bottom, max_scroll);
        let scroll: u32 = scroll_state.scroll_from_bottom();
        let changed = self.conversation_scroll_from_bottom != scroll;
        self.conversation_scroll_from_bottom = scroll;
        if scroll == 0 {
            self.frozen_selection_viewport_start = None;
        } else if known {
            self.frozen_selection_viewport_start = Some(max_scroll.saturating_sub(scroll));
        }
        changed
    }

    pub fn clear_conversation_selection(&mut self)
        ensures
            final(self)@ == old(self)@.unselected(),
    {
        self.selection_manager.clear();
        self.conversation_selection_autoscroll = None;
        self.frozen_selection_viewport_start = None;
    }

    /// Types a text into the input.
    pub fn restore_input(&mut self, text: &str)
        ensures
            final(self)@ == old(self)@.restored(text@),
    {
        let characters = crate::chars::chars_of(text);
        let ghost before = self@;
        let mut i: usize = 0;
        while i < characters.len()
            invariant
                i <= characters@.len(),
                characters@ == text@,
                self@ == (AppView { input: before.input.typed_text(text@, i as int), ..before }),
            decreases characters@.len() - i,
        {
            self.input.insert_char(characters[i]);
            i = i + 1;
        }
    }
}

/// What the application asks of the world around it.
#[derive(Debug)]
pub enum AppEffect {
    /// A turn has to be started.
    StartTurn(TurnStart),
    /// A model has to be made ready; the commands that follow wait for it.
    BuildModel { model_id: String, rest: Vec<AppCommand> },
    /// The turn that runs has to be aborted, paused or resumed.
    AbortTurn,
    PauseTurn,
    ResumeTurn,
}

/// What the application asks for, with its texts.
pub enum EffectView {
    StartTurn { history: Seq<EntryView>, rollback: Seq<EntryView> },
    BuildModel { model_id: Seq<char>, rest: Seq<CommandView> },
    AbortTurn,
    PauseTurn,
    ResumeTurn,
}

impl View for AppEffect {
    type V = EffectView;

    open spec fn view(&self) -> EffectView {
        match self {
            AppEffect::StartTurn(start) => EffectView::StartTurn {
                history: start.history@,
                rollback: start.rollback@,
            },
            AppEffect::BuildModel { model_id, rest } => EffectView::BuildModel {
                model_id: model_id@,
                rest: app_command::command_views(rest@),
            },
            AppEffect::AbortTurn => EffectView::AbortTurn,
            AppEffect::PauseTurn => EffectView::PauseTurn,
            AppEffect::ResumeTurn => EffectView::ResumeTurn,
        }
    }
}

pub open spec fn effect_views(effects: Seq<AppEffect>) -> Seq<EffectView> {
    Seq::new(effects.len(), |i: int| effects[i]@)
}

} // verus!
