//! What running turns tell the application.

use crate::app::commands;
use crate::app::frame;
use crate::app::view;
use crate::app::view::{App, AppView, DirtyState};
use crate::blocks::CodeHighlighter;
use crate::events;
use crate::events::AgentEvent;
use crate::history;
use crate::history::EntryView;
use crate::notifications::{NotificationKind, NOTIFICATION_TTL};
use crate::runtime::{BatchView, QueuedStart, RuntimeView, TurnView};
use crate::state;
use crate::turn_driver;
use crate::turn_driver::{RuntimeEvent, RuntimeEventView};
use vstd::prelude::*;

verus! {

/// A turn that starts with inputs that had waited for it, with its texts.
pub struct StartView {
    pub history: Seq<EntryView>,
    pub rollback: Seq<EntryView>,
    pub batch: BatchView,
}

impl View for QueuedStart {
    type V = StartView;

    open spec fn view(&self) -> StartView {
        StartView {
            history: self.start.history@,
            rollback: self.start.rollback@,
            batch: self.batch@,
        }
    }
}

pub open spec fn start_views(starts: Seq<QueuedStart>) -> Seq<StartView> {
    Seq::new(starts.len(), |i: int| starts[i]@)
}

/// The turn that starts once the end of another is acknowledged.
pub open spec fn next_start(runtime: RuntimeView, ended: Seq<EntryView>) -> Option<StartView> {
    if runtime.queue.len() > 0 {
        Some(
            StartView {
                history: history::with_inputs(ended, runtime.queue[0].inputs),
                rollback: ended,
                batch: runtime.queue[0],
            },
        )
    } else {
        None
    }
}

/// The application after a turn told something, and the turn that has to be started then.
pub struct Told {
    pub app: AppView,
    pub starts: Seq<StartView>,
}

/// What something that a turn told leads to.
pub open spec fn told(app: AppView, event: RuntimeEventView, now: int) -> Told {
    match event {
        RuntimeEventView::Agent(event) => {
            let shown = AppView { state: events::after_event(app.state, event), ..app };
            Told {
                app: if event is TurnAborted {
                    shown.notified(NotificationKind::Warning, "aborted"@, now)
                } else {
                    shown
                },
                starts: Seq::empty(),
            }
        },
        RuntimeEventView::TurnFinished { history } => Told {
            app: AppView { runtime: app.runtime.after_success(history), ..app },
            starts: match next_start(app.runtime, history) {
                Some(start) => seq![start],
                None => Seq::empty(),
            },
        },
        RuntimeEventView::TurnFailed { history, message } => {
            let ended = AppView {
                runtime: app.runtime.with_turn(TurnView::Ready(history)),
                ..app
            }.notified(NotificationKind::Error, message, now);
            Told {
                app: AppView {
                    state: ended.state.pushed(state::KindView::Error { text: message }, false),
                    ..ended
                },
                starts: Seq::empty(),
            }
        },
        RuntimeEventView::ControlFailed { message } => Told {
            app: app.told(message, true).notified(NotificationKind::Error, message, now),
            starts: Seq::empty(),
        },
        RuntimeEventView::SteerQueued { .. } => Told { app, starts: Seq::empty() },
        RuntimeEventView::QueuedInputSubmitted { .. } => Told { app, starts: Seq::empty() },
    }
}

/// What the first `count` things that turns told lead to.
pub open spec fn all_told(
    app: AppView,
    events: Seq<RuntimeEventView>,
    count: int,
    now: int,
) -> Told
    decreases count,
{
    if count <= 0 {
        Told { app, starts: Seq::empty() }
    } else {
        let before = all_told(app, events, count - 1, now);
        let next = told(before.app, events[count - 1], now);
        Told { app: next.app, starts: before.starts + next.starts }
    }
}

/// Nothing that a turn tells takes more than one block.
proof fn lemma_told_room(app: AppView, event: RuntimeEventView, now: int)
    requires
        app.state.next_id < u64::MAX,
    ensures
        told(app, event, now).app.selection == app.selection,
        told(app, event, now).app.state.next_id <= app.state.next_id + 1,
        told(app, event, now).app.state.blocks.len() <= app.state.blocks.len() + 1,
{
    if let RuntimeEventView::Agent(event) = event {
        match event {
            AgentEvent::ModelDelta { content_index, delta } => {
                state::lemma_delta_len(app.state, content_index, delta@);
            },
            AgentEvent::ToolResultCommitted { result } => {
                state::lemma_tool_result_len(app.state, result@);
            },
            _ => {},
        }
    }
}

impl App {
    /// Takes in something that a turn told.
    pub fn apply_runtime_event(&mut self, event: RuntimeEvent, now: u64) -> (next: Option<
        QueuedStart,
    >)
        requires
            commands::has_room(old(self)@, 1),
            now + NOTIFICATION_TTL <= u64::MAX,
        ensures
            final(self)@ == told(old(self)@, event@, now as int).app,
            match next {
                Some(start) => told(old(self)@, event@, now as int).starts == seq![start@],
                None => told(old(self)@, event@, now as int).starts == Seq::<StartView>::empty(),
            },
    {
        match event {
            RuntimeEvent::Agent(event) => {
                let aborted = match &event {
                    AgentEvent::TurnAborted => true,
                    _ => false,
                };
                events::apply_agent_event(event, &mut self.state);
                if aborted {
                    self.push_notification(NotificationKind::Warning, "aborted".to_owned(), now);
                }
                None
            },
            RuntimeEvent::TurnFinished { history } => self.runtime.finish_success(history),
            RuntimeEvent::TurnFailed { history, message } => {
                self.runtime.finish_failure(history);
                self.push_notification(NotificationKind::Error, message.clone(), now);
                events::apply_runtime_error(message, &mut self.state);
                None
            },
            RuntimeEvent::ControlFailed { message } => {
                self.state.push_command_error(message.clone());
                self.push_notification(NotificationKind::Error, message, now);
                None
            },
            RuntimeEvent::SteerQueued { .. } => None,
            RuntimeEvent::QueuedInputSubmitted { .. } => None,
        }
    }

    /// Takes in all that turns told, and keeps what is shown in place where that is asked for.
    pub fn drain_runtime_events(
        &mut self,
        events: Vec<RuntimeEvent>,
        now: u64,
        highlighter: &CodeHighlighter,
    ) -> (drained: (DirtyState, Vec<QueuedStart>))
        requires
            commands::has_room(old(self)@, events@.len()),
            old(self)@.state.blocks.len() + events@.len() < usize::MAX,
            now + NOTIFICATION_TTL <= u64::MAX,
            view::shown_fits(old(self)@),
        ensures
            ({
                let wanted = all_told(
                    old(self)@,
                    turn_driver::event_views(events@),
                    events@.len() as int,
                    now as int,
                );
                &&& start_views(drained.1@) == wanted.starts
                &&& if events@.len() > 0 {
                    &&& drained.0 == DirtyState::spec_conversation()
                    &&& frame::kept_in_place(wanted.app, final(self)@)
                } else {
                    &&& drained.0 == DirtyState::spec_none()
                    &&& final(self)@ == old(self)@
                }
            }),
    {
        let ghost before = self@;
        let ghost all = events@;
        let ghost views = turn_driver::event_views(all);
        let total: usize = events.len();
        let mut starts: Vec<QueuedStart> = Vec::new();
        assert(start_views(starts@) =~= Seq::<StartView>::empty());
        for event in iter: events
            invariant
                iter.seq() == all,
                views == turn_driver::event_views(all),
                now + NOTIFICATION_TTL <= u64::MAX,
                before.state.next_id + all.len() <= u64::MAX,
                before.state.blocks.len() + all.len() < usize::MAX,
                self@ == all_told(before, views, iter.index(), now as int).app,
                start_views(starts@) == all_told(before, views, iter.index(), now as int).starts,
                self@.selection == before.selection,
                self@.state.next_id <= before.state.next_id + iter.index(),
                self@.state.blocks.len() <= before.state.blocks.len() + iter.index(),
        {
            let ghost i = iter.index();
            let ghost here = self@;
            let ghost told_starts = start_views(starts@);
            assert(views[i as int] == event@);
            proof {
                lemma_told_room(here, event@, now as int);
            }
            let next = self.apply_runtime_event(event, now);
            match next {
                Some(start) => {
                    starts.push(start);
                    assert(start_views(starts@) =~= told_starts + seq![start@]);
                },
                None => {
                    assert(told_starts + Seq::<StartView>::empty() =~= told_starts);
                },
            }
        }
        if total > 0 {
            self.preserve_frozen_selection_viewport(highlighter);
            (DirtyState::conversation(), starts)
        } else {
            (DirtyState::none(), starts)
        }
    }
}

} // verus!
