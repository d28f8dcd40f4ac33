//! One round of the application: events come in, and what changed is drawn.

use crate::app::commands;
use crate::app::frame;
use crate::app::keys;
use crate::app::keys::KeyPress;
use crate::app::mouse;
use crate::app::mouse::MouseEvent;
use crate::app::turns;
use crate::app::view;
use crate::app::view::{App, AppEffect, AppView, DirtyState};
use crate::blocks::CodeHighlighter;
use crate::notifications;
use crate::notifications::NOTIFICATION_TTL;
use crate::runtime::QueuedStart;
use crate::state;
use crate::turn_driver;
use crate::turn_driver::{RuntimeEvent, RuntimeEventView};
use vstd::prelude::*;

verus! {

/// What the terminal tells.
#[derive(Clone, Copy, Debug, PartialEq, Eq, Structural)]
pub enum TerminalEvent {
    Key(KeyPress),
    Mouse(MouseEvent),
    Resize,
    Other,
}

/// What an event of the terminal asks for.
#[derive(Debug)]
pub struct EventHandled {
    pub dirty: DirtyState,
    pub effects: Vec<AppEffect>,
    pub copy: Option<String>,
}

/// The application after what was shown too long is gone.
pub open spec fn ticked(app: AppView, now: int) -> AppView {
    if notifications::expired(app.notification, now) {
        AppView { notification: None, ..app }.dirtied(DirtyState::spec_frame())
    } else {
        app
    }
}

/// Whether `kept` is the application after turns told something, if they did.
pub open spec fn settled(told: AppView, events: nat, kept: AppView) -> bool {
    if events > 0 {
        frame::kept_in_place(told, kept)
    } else {
        kept == told
    }
}

/// Whether `after` is the application before it is drawn: what was shown too long is gone, what
/// turns told is taken in, and images that were made ready are to be drawn.
pub open spec fn brought_up_to_date(
    before: AppView,
    events: Seq<RuntimeEventView>,
    images_ready: bool,
    now: int,
    after: AppView,
) -> bool {
    let told = turns::all_told(ticked(before, now), events, events.len() as int, now).app;
    exists|kept: AppView|
        {
            &&& #[trigger] settled(told, events.len(), kept)
            &&& after == kept.dirtied(
                if events.len() > 0 || images_ready {
                    DirtyState::spec_conversation()
                } else {
                    DirtyState::spec_none()
                },
            )
        }
}

impl App {
    /// Handles an event of the terminal. The input is `input_width` columns wide.
    pub fn handle_event(&mut self, event: TerminalEvent, input_width: usize, now: u64) -> (handled:
        EventHandled)
        requires
            commands::has_room(old(self)@, 3),
            now + NOTIFICATION_TTL <= u64::MAX,
            old(self)@.menu.selected != Some(usize::MAX),
        ensures
            match event {
                TerminalEvent::Key(key) => {
                    let wanted = keys::pressed(old(self)@, key, input_width, now as int);
                    &&& final(self)@ == wanted.outcome.app.dirtied(wanted.dirty)
                    &&& handled.dirty == wanted.dirty
                    &&& view::effect_views(handled.effects@) == wanted.outcome.effects
                    &&& handled.copy is None
                },
                TerminalEvent::Mouse(mouse) => {
                    &&& mouse::moused(
                        old(self)@,
                        mouse,
                        now as int,
                        final(self)@,
                        handled.dirty,
                        state::optional_text(handled.copy),
                    )
                    &&& handled.effects@.len() == 0
                },
                TerminalEvent::Resize => {
                    &&& final(self)@ == old(self)@.dirtied(DirtyState::spec_conversation())
                    &&& handled.dirty == DirtyState::spec_conversation()
                    &&& handled.effects@.len() == 0
                    &&& handled.copy is None
                },
                TerminalEvent::Other => {
                    &&& final(self)@ == old(self)@
                    &&& handled.dirty == DirtyState::spec_none()
                    &&& handled.effects@.len() == 0
                    &&& handled.copy is None
                },
            },
    {
        match event {
            TerminalEvent::Key(key) => {
                let (dirty, effects) = self.handle_key(key, input_width, now);
                EventHandled { dirty, effects, copy: None }
            },
            TerminalEvent::Mouse(mouse) => {
                let handled = self.handle_mouse(mouse, now);
                EventHandled { dirty: handled.dirty, effects: Vec::new(), copy: handled.copy }
            },
            TerminalEvent::Resize => {
                let dirty = DirtyState::conversation();
                self.mark_dirty(dirty);
                EventHandled { dirty, effects: Vec::new(), copy: None }
            },
            TerminalEvent::Other => EventHandled {
                dirty: DirtyState::none(),
                effects: Vec::new(),
                copy: None,
            },
        }
    }

    /// Brings the application up to date before it is drawn, and tells whether it has to be drawn
    /// and which turns have to be started.
    pub fn prepare_drawing(
        &mut self,
        events: Vec<RuntimeEvent>,
        images_ready: bool,
        now: u64,
        highlighter: &CodeHighlighter,
    ) -> (prepared: (bool, Vec<QueuedStart>))
        requires
            commands::has_room(old(self)@, events@.len()),
            old(self)@.state.blocks.len() + events@.len() < usize::MAX,
            now + NOTIFICATION_TTL <= u64::MAX,
            view::shown_fits(old(self)@),
        ensures
            brought_up_to_date(
                old(self)@,
                turn_driver::event_views(events@),
                images_ready,
                now as int,
                final(self)@,
            ),
            prepared.0 == final(self)@.render_dirty,
            turns::start_views(prepared.1@) == turns::all_told(
                ticked(old(self)@, now as int),
                turn_driver::event_views(events@),
                events@.len() as int,
                now as int,
            ).starts,
    {
        let ghost before = self@;
        let ghost views = turn_driver::event_views(events@);
        let dirty = self.tick_notifications(now);
        self.mark_dirty(dirty);
        assert(self@ == ticked(before, now as int));
        let (dirty, starts) = self.drain_runtime_events(events, now, highlighter);
        let ghost kept = self@;
        assert(settled(
            turns::all_told(ticked(before, now as int), views, views.len() as int, now as int).app,
            views.len(),
            kept,
        ));
        self.mark_dirty(dirty);
        if images_ready {
            self.mark_dirty(DirtyState::conversation());
        }
        (self.render_dirty, starts)
    }

    /// The application has been drawn.
    pub fn finish_drawing(&mut self)
        ensures
            final(self)@ == (AppView { render_dirty: false, ..old(self)@ }),
    {
        self.render_dirty = false;
    }
}

} // verus!
