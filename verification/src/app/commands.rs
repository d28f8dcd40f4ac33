//! What becomes of submitted input, and how commands are carried out.

use crate::app::view;
use crate::app::view::{App, AppEffect, AppView, EffectView};
use crate::chars;
use crate::command::app_command;
use crate::command::app_command::{AppCommand, CommandView, RuntimeCommand, UiCommand};
use crate::command::builtins;
use crate::command::input::{parse_input, InputIntent, IntentView};
use crate::command::slash;
use crate::command::slash::{
    SessionSnapshot, SlashCommand, SlashCommandRegistry, TurnSnapshot,
};
use crate::command_menu;
use crate::history;
use crate::history::AgentHistory;
use crate::input;
use crate::message;
use crate::message::{ContentView, InputContent, InputMessage, MessageView};
use crate::notifications::{NotificationKind, NOTIFICATION_TTL};
use crate::runtime;
use crate::runtime::{DeliveryAction, DeliveryIntent, RuntimeTurnSnapshot, TurnView};
use vstd::prelude::*;

verus! {

/// The application after something, and what it asks for, in order.
pub struct Outcome {
    pub app: AppView,
    pub effects: Seq<EffectView>,
}

/// Nothing is asked for.
pub open spec fn quietly(app: AppView) -> Outcome {
    Outcome { app, effects: Seq::empty() }
}

/// The line of help on a command.
pub open spec fn help_line(command: SlashCommand) -> Seq<char> {
    "  "@ + command_menu::padded(command.spec.usage@, 28) + " "@ + command.spec.summary@
}

/// The help on all commands.
pub open spec fn help_text(commands: Seq<SlashCommand>) -> Seq<char> {
    chars::join(
        seq!["local commands:"@] + Seq::new(commands.len(), |i: int| help_line(commands[i])),
        "\n"@,
    )
}

/// Whether a turn can be controlled.
pub open spec fn controllable(snapshot: RuntimeTurnSnapshot) -> bool {
    snapshot == RuntimeTurnSnapshot::Running || snapshot == RuntimeTurnSnapshot::Paused || snapshot
        == RuntimeTurnSnapshot::Preempting
}

/// What a single command that asks for nothing, or for the control of the turn, leads to: the
/// application after it, or why it failed.
pub open spec fn carried_out(app: AppView, command: CommandView) -> Result<Outcome, Seq<char>> {
    match command {
        CommandView::ShowHelp => Ok(quietly(app.told(help_text(app.commands), false))),
        CommandView::ClearConversation => Ok(
            quietly(AppView { state: app.state.cleared(), ..app }),
        ),
        CommandView::PushCommandOutput(text) => Ok(quietly(app.told(text, false))),
        CommandView::Scroll(rows) => Ok(quietly(app.scrolled_by(rows as int))),
        CommandView::ScrollToBottom => Ok(quietly(app.scrolled_to(0))),
        CommandView::Quit => Ok(quietly(AppView { quit: true, ..app })),
        CommandView::ClearSessionHistory => if app.runtime.busy() {
            Err("runtime is busy"@)
        } else {
            Ok(quietly(AppView { runtime: app.runtime.after_reset(Seq::empty()), ..app }))
        },
        CommandView::SwitchModel(_) => Ok(quietly(app)),
        CommandView::StopTurn => controlled(app, EffectView::AbortTurn),
        CommandView::PauseTurn => controlled(app, EffectView::PauseTurn),
        CommandView::ResumeTurn => controlled(app, EffectView::ResumeTurn),
    }
}

pub open spec fn controlled(app: AppView, effect: EffectView) -> Result<Outcome, Seq<char>> {
    if controllable(runtime::snapshot_of(app.runtime.turn)) {
        Ok(Outcome { app, effects: seq![effect] })
    } else {
        Err("no active turn"@)
    }
}

/// The application after a command failed: the reason is shown, and what follows is not done.
pub open spec fn command_failed(app: AppView, message: Seq<char>, now: int) -> AppView {
    AppView { scroll: 0, ..app.told(message, true).notified(NotificationKind::Error, message, now)
    }
}

/// What commands lead to: one after the other is carried out, up to one that fails, or one that
/// has to wait for a model. When all is done the end of the conversation is shown.
pub open spec fn run(app: AppView, commands: Seq<CommandView>, now: int) -> Outcome
    decreases commands.len(),
{
    if commands.len() == 0 {
        quietly(AppView { scroll: 0, ..app })
    } else if let CommandView::SwitchModel(model_id) = commands[0] {
        Outcome {
            app,
            effects: seq![EffectView::BuildModel { model_id, rest: commands.drop_first() }],
        }
    } else {
        match carried_out(app, commands[0]) {
            Ok(first) => {
                let rest = run(first.app, commands.drop_first(), now);
                Outcome { app: rest.app, effects: first.effects + rest.effects }
            },
            Err(message) => quietly(command_failed(app, message, now)),
        }
    }
}

/// What the answer on a model leads to: it is used from now on, or the reason is shown.
pub open spec fn model_built(
    app: AppView,
    model_id: Seq<char>,
    failure: Option<Seq<char>>,
    rest: Seq<CommandView>,
    now: int,
) -> Outcome {
    match failure {
        Some(message) => quietly(command_failed(app, message, now)),
        None => run(AppView { model_id, model: model_id, ..app }, rest, now),
    }
}

/// A message of the user.
pub open spec fn user_message(text: Seq<char>) -> MessageView {
    MessageView::User(seq![ContentView::Text(text)])
}

/// What text of the user leads to: a turn, or, while one is on its way, the input as it was.
pub open spec fn user_text_submitted(
    app: AppView,
    user_text: Seq<char>,
    entered: Seq<char>,
    now: int,
) -> Outcome {
    let input = user_message(user_text);
    match app.runtime.turn {
        TurnView::Ready(before) => Outcome {
            app: AppView {
                runtime: app.runtime.started(),
                state: app.state.with_input(input),
                scroll: 0,
                ..app
            },
            effects: seq![
                EffectView::StartTurn {
                    history: history::with_input(before, input),
                    rollback: before,
                },
            ],
        },
        _ => quietly(
            app.restored(entered).notified(NotificationKind::Warning, "busy"@, now),
        ),
    }
}

/// What a command by its name leads to.
pub open spec fn slash_submitted(
    app: AppView,
    name: Seq<char>,
    args: Seq<char>,
    entered: Seq<char>,
    now: int,
) -> Outcome {
    match slash::find_command(app.commands, name, app.commands.len() as int) {
        None => quietly(app.restored(entered).told("unknown command: /"@ + name, true)),
        Some(i) => match builtins::built(app.commands[i].build, args, app.model_id) {
            Ok(commands) => run(app, commands, now),
            Err(error) => quietly(app.restored(entered).told(slash::error_text(error), true)),
        },
    }
}

/// What submitted input leads to. Blank input stays where it is.
pub open spec fn submitted(app: AppView, now: int) -> Outcome {
    let text = app.input.text;
    if input::is_blank(text) {
        quietly(app)
    } else {
        let emptied = AppView { input: input::empty_editor(), ..app };
        match crate::command::input::intent(text) {
            Some(IntentView::UserText(user_text)) => user_text_submitted(
                emptied,
                user_text,
                text,
                now,
            ),
            Some(IntentView::Slash { name, args }) => slash_submitted(
                emptied,
                name,
                args,
                text,
                now,
            ),
            None => quietly(emptied),
        }
    }
}

pub fn format_help(registry: &SlashCommandRegistry) -> (text: String)
    ensures
        text@ == help_text(registry.commands@),
{
    let ghost commands = registry.commands@;
    let mut lines: Vec<String> = Vec::new();
    lines.push("local commands:".to_owned());
    let mut i: usize = 0;
    while i < registry.commands.len()
        invariant
            i <= registry.commands@.len(),
            commands == registry.commands@,
            lines@.len() == i + 1,
            lines@[0]@ == "local commands:"@,
            forall|j: int| 0 <= j < i ==> (#[trigger] lines@[j + 1])@ == help_line(commands[j]),
        decreases registry.commands@.len() - i,
    {
        let command = registry.commands[i];
        let mut line: String = "  ".to_owned();
        line.append(command_menu::pad_text(command.spec.usage, 28).as_str());
        line.append(" ");
        line.append(command.spec.summary);
        let ghost before = lines@;
        lines.push(line);
        i = i + 1;
        assert forall|j: int| 0 <= j < i implies (#[trigger] lines@[j + 1])@ == help_line(
            commands[j],
        ) by {
            if j + 1 < i {
                assert(lines@[j + 1] == before[j + 1]);
            }
        }
    }
    let ghost expected = seq!["local commands:"@] + Seq::new(
        commands.len(),
        |i: int| help_line(commands[i]),
    );
    assert(chars::texts(lines@) =~= expected) by {
        assert forall|k: int| 0 <= k < expected.len() implies chars::texts(lines@)[k]
            == expected[k] by {
            if k > 0 {
                assert(lines@[(k - 1) + 1]@ == help_line(commands[k - 1]));
            }
        }
    }
    chars::join_texts(&lines, "\n")
}

/// What a command sees of the turn.
pub fn turn_snapshot(snapshot: RuntimeTurnSnapshot) -> (turn: TurnSnapshot)
    ensures
        turn == match snapshot {
            RuntimeTurnSnapshot::Idle => TurnSnapshot::Idle,
            RuntimeTurnSnapshot::Running => TurnSnapshot::Running,
            RuntimeTurnSnapshot::Paused => TurnSnapshot::Paused,
            RuntimeTurnSnapshot::Preempting => TurnSnapshot::Running,
            RuntimeTurnSnapshot::PendingAck => TurnSnapshot::PendingAck,
            RuntimeTurnSnapshot::Failed => TurnSnapshot::Failed,
        },
{
    match snapshot {
        RuntimeTurnSnapshot::Idle => TurnSnapshot::Idle,
        RuntimeTurnSnapshot::Running => TurnSnapshot::Running,
        RuntimeTurnSnapshot::Paused => TurnSnapshot::Paused,
        RuntimeTurnSnapshot::Preempting => TurnSnapshot::Running,
        RuntimeTurnSnapshot::PendingAck => TurnSnapshot::PendingAck,
        RuntimeTurnSnapshot::Failed => TurnSnapshot::Failed,
    }
}

/// Whether there is a turn to control.
pub fn ensure_running(snapshot: RuntimeTurnSnapshot) -> (checked: Result<(), String>)
    ensures
        match checked {
            Ok(_) => controllable(snapshot),
            Err(message) => !controllable(snapshot) && message@ == "no active turn"@,
        },
{
    match snapshot {
        RuntimeTurnSnapshot::Running => Ok(()),
        RuntimeTurnSnapshot::Paused => Ok(()),
        RuntimeTurnSnapshot::Preempting => Ok(()),
        _ => Err("no active turn".to_owned()),
    }
}

/// Whether there is room for so many more blocks.
pub open spec fn has_room(app: AppView, blocks: nat) -> bool {
    app.state.next_id + blocks <= u64::MAX
}

impl App {
    fn execute_ui_command(&mut self, command: UiCommand)
        requires
            has_room(old(self)@, 1),
        ensures
            carried_out(old(self)@, AppCommand::Ui(command)@) == Ok::<Outcome, Seq<char>>(
                quietly(final(self)@),
            ),
    {
        match command {
            UiCommand::ShowHelp => {
                let text = format_help(&self.slash_commands);
                self.state.push_command_output(text);
            },
            UiCommand::ClearConversation => self.state.clear_conversation(),
            UiCommand::PushCommandOutput(text) => self.state.push_command_output(text),
            UiCommand::Scroll { rows } => {
                self.scroll_conversation(rows);
            },
            UiCommand::ScrollToBottom => {
                self.set_conversation_scroll_from_bottom(0);
            },
            UiCommand::Quit => {
                self.quit = true;
            },
        }
    }

    fn control_turn(&mut self, effect: AppEffect, effects: &mut Vec<AppEffect>) -> (done: Result<
        (),
        String,
    >)
        ensures
            final(self)@ == old(self)@,
            match done {
                Ok(_) => {
                    &&& controllable(runtime::snapshot_of(old(self)@.runtime.turn))
                    &&& view::effect_views(final(effects)@) == view::effect_views(
                        old(effects)@,
                    ).push(effect@)
                },
                Err(message) => {
                    &&& !controllable(runtime::snapshot_of(old(self)@.runtime.turn))
                    &&& message@ == "no active turn"@
                    &&& *final(effects) == *old(effects)
                },
            },
    {
        match ensure_running(self.runtime.turn_snapshot()) {
            Ok(_) => {
                let ghost before = view::effect_views(effects@);
                effects.push(effect);
                assert(view::effect_views(effects@) =~= before.push(effect@));
                Ok(())
            },
            Err(message) => Err(message),
        }
    }

    /// Carries out a command that does not wait for a model.
    fn execute_runtime_command(
        &mut self,
        command: RuntimeCommand,
        effects: &mut Vec<AppEffect>,
    ) -> (done: Result<(), String>)
        requires
            !(command is SwitchModel),
        ensures
            match done {
                Ok(_) => carried_out(old(self)@, AppCommand::Runtime(command)@) matches Ok(outcome)
                    && {
                    &&& final(self)@ == outcome.app
                    &&& view::effect_views(final(effects)@) == view::effect_views(old(effects)@)
                        + outcome.effects
                },
                Err(message) => {
                    &&& carried_out(old(self)@, AppCommand::Runtime(command)@) == Err::<
                        Outcome,
                        Seq<char>,
                    >(message@)
                    &&& final(self)@ == old(self)@
                    &&& *final(effects) == *old(effects)
                },
            },
    {
        let ghost before = view::effect_views(effects@);
        match command {
            RuntimeCommand::ClearSessionHistory => {
                assert(before + Seq::<EffectView>::empty() =~= before);
                match self.runtime.reset_history(AgentHistory::default()) {
                    Ok(_) => Ok(()),
                    Err(busy) => Err(busy.message().to_owned()),
                }
            },
            RuntimeCommand::SwitchModel(_) => Ok(()),
            RuntimeCommand::StopTurn => {
                let done = self.control_turn(AppEffect::AbortTurn, effects);
                assert(before.push(EffectView::AbortTurn) =~= before + seq![EffectView::AbortTurn]);
                done
            },
            RuntimeCommand::PauseTurn => {
                let done = self.control_turn(AppEffect::PauseTurn, effects);
                assert(before.push(EffectView::PauseTurn) =~= before + seq![EffectView::PauseTurn]);
                done
            },
            RuntimeCommand::ResumeTurn => {
                let done = self.control_turn(AppEffect::ResumeTurn, effects);
                assert(before.push(EffectView::ResumeTurn) =~= before + seq![
                    EffectView::ResumeTurn,
                ]);
                done
            },
        }
    }

    fn fail_command(&mut self, message: String, now: u64)
        requires
            has_room(old(self)@, 1),
            now + NOTIFICATION_TTL <= u64::MAX,
        ensures
            final(self)@ == command_failed(old(self)@, message@, now as int),
    {
        self.state.push_command_error(message.clone());
        self.push_notification(NotificationKind::Error, message, now);
        self.conversation_scroll_from_bottom = 0;
    }

    /// Carries out commands, one after the other.
    pub fn execute_app_commands(&mut self, commands: Vec<AppCommand>, now: u64) -> (effects: Vec<
        AppEffect,
    >)
        requires
            has_room(old(self)@, commands@.len() + 1),
            now + NOTIFICATION_TTL <= u64::MAX,
        ensures
            final(self)@ == run(
                old(self)@,
                app_command::command_views(commands@),
                now as int,
            ).app,
            view::effect_views(effects@) == run(
                old(self)@,
                app_command::command_views(commands@),
                now as int,
            ).effects,
    {
        let ghost list = app_command::command_views(commands@);
        let ghost whole = run(self@, list, now as int);
        let ghost total = commands@.len();
        let mut pending = commands;
        let mut effects: Vec<AppEffect> = Vec::new();
        assert(view::effect_views(effects@) =~= Seq::<EffectView>::empty());
        while pending.len() > 0
            invariant
                pending@.len() <= total,
                whole == run(old(self)@, app_command::command_views(commands@), now as int),
                has_room(self@, pending@.len() + 1),
                now + NOTIFICATION_TTL <= u64::MAX,
                ({
                    let left = run(self@, app_command::command_views(pending@), now as int);
                    &&& whole.app == left.app
                    &&& whole.effects == view::effect_views(effects@) + left.effects
                }),
            decreases pending@.len(),
        {
            let ghost all = app_command::command_views(pending@);
            let ghost told = view::effect_views(effects@);
            let command = pending.remove(0);
            let ghost rest = app_command::command_views(pending@);
            assert(rest =~= all.drop_first());
            assert(command@ == all[0]);
            match command {
                AppCommand::Ui(command) => {
                    self.execute_ui_command(command);
                    proof {
                        let left = run(self@, rest, now as int).effects;
                        assert(told + (Seq::<EffectView>::empty() + left) =~= told + left);
                    }
                },
                AppCommand::Runtime(RuntimeCommand::SwitchModel(model_id)) => {
                    let effect = AppEffect::BuildModel { model_id, rest: pending };
                    effects.push(effect);
                    assert(view::effect_views(effects@) =~= told + seq![effect@]);
                    return effects;
                },
                AppCommand::Runtime(command) => {
                    match self.execute_runtime_command(command, &mut effects) {
                        Ok(_) => {
                            proof {
                                let first = carried_out(self@, all[0]);
                                let left = run(self@, rest, now as int).effects;
                                let added = view::effect_views(effects@).skip(
                                    told.len() as int,
                                );
                                assert(view::effect_views(effects@) =~= told + added);
                                assert((told + added) + left =~= told + (added + left));
                            }
                        },
                        Err(message) => {
                            self.fail_command(message, now);
                            assert(told + Seq::<EffectView>::empty() =~= told);
                            return effects;
                        },
                    }
                },
            }
        }
        assert(app_command::command_views(pending@) =~= Seq::<CommandView>::empty());
        self.conversation_scroll_from_bottom = 0;
        assert(view::effect_views(effects@) + Seq::<EffectView>::empty() =~= view::effect_views(
            effects@,
        ));
        effects
    }

    /// Goes on with the commands that waited for a model, once it is known whether there is one.
    pub fn finish_model_switch(
        &mut self,
        model_id: String,
        built: Result<(), String>,
        rest: Vec<AppCommand>,
        now: u64,
    ) -> (effects: Vec<AppEffect>)
        requires
            has_room(old(self)@, rest@.len() + 1),
            now + NOTIFICATION_TTL <= u64::MAX,
        ensures
            ({
                let outcome = model_built(
                    old(self)@,
                    model_id@,
                    match built {
                        Ok(_) => None,
                        Err(message) => Some(message@),
                    },
                    app_command::command_views(rest@),
                    now as int,
                );
                &&& final(self)@ == outcome.app
                &&& view::effect_views(effects@) == outcome.effects
            }),
    {
        match built {
            Ok(_) => {
                self.model_id = model_id.clone();
                self.status.model = model_id;
                self.execute_app_commands(rest, now)
            },
            Err(message) => {
                self.fail_command(message, now);
                let effects: Vec<AppEffect> = Vec::new();
                assert(view::effect_views(effects@) =~= Seq::<EffectView>::empty());
                effects
            },
        }
    }

    fn submit_user_text(&mut self, user_text: String, original_text: &str, now: u64) -> (effects:
        Vec<AppEffect>)
        requires
            has_room(old(self)@, 1),
            now + NOTIFICATION_TTL <= u64::MAX,
        ensures
            ({
                let outcome = user_text_submitted(
                    old(self)@,
                    user_text@,
                    original_text@,
                    now as int,
                );
                &&& final(self)@ == outcome.app
                &&& view::effect_views(effects@) == outcome.effects
            }),
    {
        let mut effects: Vec<AppEffect> = Vec::new();
        let ghost expected = user_message(user_text@);
        let mut content: Vec<InputContent> = Vec::new();
        content.push(InputContent::Text(user_text));
        let message = InputMessage::User(content);
        assert(message@ == expected) by {
            assert(message::content_views(content@) =~= seq![ContentView::Text(user_text@)]);
        }
        match self.runtime.accept_user_input(message.clone(), DeliveryIntent::Submit, 0) {
            Ok(action) => {
                if let DeliveryAction::Start(start) = action {
                    let effect = AppEffect::StartTurn(start);
                    effects.push(effect);
                    assert(view::effect_views(effects@) =~= seq![effect@]);
                }
                self.state.push_input(message);
                self.conversation_scroll_from_bottom = 0;
            },
            Err(_) => {
                self.restore_input(original_text);
                self.push_notification(NotificationKind::Warning, "busy".to_owned(), now);
                assert(view::effect_views(effects@) =~= Seq::<EffectView>::empty());
            },
        }
        effects
    }

    fn dispatch_slash(&mut self, name: &str, args: &str, original_text: &str, now: u64) -> (effects:
        Vec<AppEffect>)
        requires
            has_room(old(self)@, 3),
            now + NOTIFICATION_TTL <= u64::MAX,
        ensures
            ({
                let outcome = slash_submitted(
                    old(self)@,
                    name@,
                    args@,
                    original_text@,
                    now as int,
                );
                &&& final(self)@ == outcome.app
                &&& view::effect_views(effects@) == outcome.effects
            }),
    {
        let none: Vec<AppEffect> = Vec::new();
        assert(view::effect_views(none@) =~= Seq::<EffectView>::empty());
        let command: SlashCommand = match self.slash_commands.find(name) {
            Some(command) => *command,
            None => {
                let mut text: String = "unknown command: /".to_owned();
                text.append(name);
                self.restore_input(original_text);
                self.state.push_command_error(text);
                return none;
            },
        };
        let built = {
            let snapshot = SessionSnapshot {
                model_id: self.model_id.as_str(),
                turn_state: turn_snapshot(self.runtime.turn_snapshot()),
            };
            command.build(args, &snapshot)
        };
        match built {
            Ok(commands) => {
                assert(commands@.len() <= 2) by {
                    builtins::lemma_built_len(command.build, args@, self@.model_id);
                    assert(app_command::command_views(commands@).len() == commands@.len());
                }
                self.execute_app_commands(commands, now)
            },
            Err(error) => {
                self.restore_input(original_text);
                self.state.push_command_error(error.render());
                none
            },
        }
    }

    /// Submits what stands in the input.
    pub fn submit_input(&mut self, now: u64) -> (effects: Vec<AppEffect>)
        requires
            has_room(old(self)@, 3),
            now + NOTIFICATION_TTL <= u64::MAX,
        ensures
            final(self)@ == submitted(old(self)@, now as int).app,
            view::effect_views(effects@) == submitted(old(self)@, now as int).effects,
    {
        let none: Vec<AppEffect> = Vec::new();
        assert(view::effect_views(none@) =~= Seq::<EffectView>::empty());
        let text = match self.input.take_submission() {
            Some(text) => text,
            None => {
                return none;
            },
        };
        match parse_input(text.as_str()) {
            Some(InputIntent::UserText(user_text)) => self.submit_user_text(
                user_text,
                text.as_str(),
                now,
            ),
            Some(InputIntent::Slash(invocation)) => self.dispatch_slash(
                invocation.name.as_str(),
                invocation.args.as_str(),
                text.as_str(),
                now,
            ),
            None => none,
        }
    }
}

} // verus!
