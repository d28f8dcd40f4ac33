//! What holds of the application as a whole.

use crate::app::commands;
use crate::app::cycle;
use crate::app::frame;
use crate::app::frame::ConversationFrame;
use crate::app::keys;
use crate::app::keys::{KeyCode, KeyPress};
use crate::app::mouse;
use crate::app::mouse::MouseEvent;
use crate::app::turns;
use crate::app::view;
use crate::app::view::{AppView, DirtyState, EffectView};
use crate::chars;
use crate::command::app_command::CommandView;
use crate::command::input::IntentView;
use crate::command::slash;
use crate::command::slash::SlashCommand;
use crate::command_menu;
use crate::conversation;
use crate::conversation::ConversationLayout;
use crate::events::AgentEvent;
use crate::geometry::Rect;
use crate::history::EntryView;
use crate::input;
use crate::input::EditorView;
use crate::message::{ContentView, MessageView};
use crate::notifications::{NotificationKind, NotificationView, NOTIFICATION_TTL};
use crate::runtime::TurnView;
use crate::state::KindView;
use crate::turn_driver::RuntimeEventView;
use vstd::prelude::*;

verus! {

/// A text without carriage returns; the input never holds one.
pub open spec fn without_returns(text: Seq<char>) -> bool {
    forall|i: int| 0 <= i < text.len() ==> #[trigger] text[i] != '\r'
}

/// A text that is typed into an empty input stands there, with the cursor behind it.
pub proof fn law_typed_text_stands(text: Seq<char>, count: int)
    requires
        without_returns(text),
        0 <= count <= text.len(),
    ensures
        input::empty_editor().typed_text(text, count).text == text.take(count),
        input::empty_editor().typed_text(text, count).cursor == count,
        input::empty_editor().typed_text(text, count).scroll == 0,
        input::empty_editor().typed_text(text, count).hint is None,
    decreases count,
{
    if count > 0 {
        law_typed_text_stands(text, count - 1);
        assert(text.take(count - 1).insert(count - 1, text[count - 1]) =~= text.take(count));
    } else {
        assert(text.take(0) =~= Seq::empty());
    }
}

/// Text that is submitted while a turn is on its way stays in the input and adds nothing to the
/// conversation; a notification says why.
pub proof fn law_busy_submission_keeps_text(app: AppView, now: int)
    requires
        app.runtime.busy(),
        without_returns(app.input.text),
        !input::is_blank(app.input.text),
        crate::command::input::intent(app.input.text) matches Some(IntentView::UserText(_)),
    ensures
        commands::submitted(app, now).app.input.text == app.input.text,
        commands::submitted(app, now).app.state == app.state,
        commands::submitted(app, now).app.runtime == app.runtime,
        commands::submitted(app, now).effects.len() == 0,
        commands::submitted(app, now).app.notification == Some(
            NotificationView {
                kind: NotificationKind::Warning,
                message: "busy"@,
                expires_at: now + NOTIFICATION_TTL,
            },
        ),
{
    law_typed_text_stands(app.input.text, app.input.text.len() as int);
    assert(app.input.text.take(app.input.text.len() as int) =~= app.input.text);
}

/// A command that there is not stays in the input, and an error is shown at the end of the
/// conversation.
pub proof fn law_unknown_command_keeps_text(app: AppView, name: Seq<char>, args: Seq<char>, now: int)
    requires
        without_returns(app.input.text),
        !input::is_blank(app.input.text),
        crate::command::input::intent(app.input.text) == Some(IntentView::Slash { name, args }),
        slash::find_command(app.commands, name, app.commands.len() as int) is None,
    ensures
        commands::submitted(app, now).app.input.text == app.input.text,
        commands::submitted(app, now).app.state == app.state.pushed(
            KindView::Command { text: "unknown command: /"@ + name, is_error: true },
            false,
        ),
        commands::submitted(app, now).effects.len() == 0,
{
    law_typed_text_stands(app.input.text, app.input.text.len() as int);
    assert(app.input.text.take(app.input.text.len() as int) =~= app.input.text);
}

/// Text that is submitted while no turn is on its way leaves the input empty, shows the end of the
/// conversation and starts a turn.
pub proof fn law_accepted_submission_starts_turn(app: AppView, now: int)
    requires
        app.runtime.turn is Ready,
        !input::is_blank(app.input.text),
        crate::command::input::intent(app.input.text) matches Some(IntentView::UserText(_)),
    ensures
        commands::submitted(app, now).app.input == input::empty_editor(),
        commands::submitted(app, now).app.scroll == 0,
        commands::submitted(app, now).app.runtime.busy(),
        commands::submitted(app, now).effects.len() == 1,
        commands::submitted(app, now).app.state.blocks.len() == app.state.blocks.len() + 1,
{
}

/// Ctrl+C quits, whatever else is going on, and changes nothing else.
pub proof fn law_ctrl_c_quits(app: AppView, key: KeyPress, width: usize, now: int)
    requires
        key.control,
        !key.released,
        key.code == KeyCode::Char('c') || key.code == KeyCode::Char('C'),
    ensures
        keys::pressed(app, key, width, now).outcome.app == (AppView { quit: true, ..app }),
        keys::pressed(app, key, width, now).outcome.effects.len() == 0,
{
}

/// The release of a key does nothing.
pub proof fn law_release_does_nothing(app: AppView, key: KeyPress, width: usize, now: int)
    requires
        key.released,
    ensures
        keys::pressed(app, key, width, now).outcome.app == app,
        keys::pressed(app, key, width, now).outcome.effects.len() == 0,
{
}

/// A character that is typed and removed again leaves the text and the cursor as they were.
pub proof fn law_typed_then_removed(editor: EditorView, ch: char)
    requires
        0 <= editor.cursor <= editor.text.len(),
    ensures
        editor.typed(ch).backspaced().text == editor.text,
        editor.typed(ch).backspaced().cursor == editor.cursor,
{
    assert(editor.typed(ch).text.remove(editor.cursor) =~= editor.text);
}

/// The conversation is never scrolled past what is known to be its beginning.
pub proof fn law_scroll_is_bounded(app: AppView, wanted: u32)
    ensures
        app.scrolled_to(wanted).scroll <= app.max_scroll(),
        app.scrolled_to(wanted).scroll <= wanted,
        app.scrolled_to(0).scroll == 0,
        app.scrolled_to(0).frozen_start is None,
{
}

/// An application that has been drawn is not drawn again as long as nothing happens: no turn tells
/// anything, no image is made ready, and nothing has been shown long enough.
pub proof fn law_idle_frame_is_not_redrawn(app: AppView, now: int, after: AppView)
    requires
        !crate::notifications::expired(app.notification, now),
        cycle::brought_up_to_date(
            AppView { render_dirty: false, ..app },
            Seq::empty(),
            false,
            now,
            after,
        ),
    ensures
        after == (AppView { render_dirty: false, ..app }),
{
}

/// An image that was made ready has the conversation drawn again.
pub proof fn law_ready_image_is_drawn(app: AppView, now: int, after: AppView)
    requires
        cycle::brought_up_to_date(app, Seq::empty(), true, now, after),
    ensures
        after.render_dirty,
        after.conversation_dirty,
{
}

/// Drawing into a part of the screen that is not too wide, keeping in place what is shown and
/// scrolling a selection on never leave anything shown that is too wide.
pub proof fn law_shown_stays_in_width(
    before: AppView,
    area: Rect,
    frame: ConversationFrame,
    now: int,
    after: AppView,
)
    requires
        view::shown_fits(before),
        area.width <= conversation::MAX_VIEW_WIDTH,
        ({
            ||| frame::conversation_drawn(before, area, after, frame)
            ||| frame::kept_in_place(before, after)
            ||| frame::autoscrolled(before, now, after)
        }),
    ensures
        view::shown_fits(after),
{
}

/// The mouse never leaves anything shown that is too wide.
pub proof fn law_mouse_leaves_width(
    before: AppView,
    event: MouseEvent,
    now: int,
    after: AppView,
    dirty: DirtyState,
    copy: Option<Seq<char>>,
)
    requires
        view::shown_fits(before),
        mouse::moused(before, event, now, after, dirty, copy),
    ensures
        view::shown_fits(after),
{
}

/// What the user typed is what the turn is given: it goes behind the history that there was, is shown at
/// the end of the conversation, and the turn can go back to the history without it. Blank input
/// changes nothing.
pub proof fn law_turn_is_given_what_was_typed(app: AppView, history: Seq<EntryView>, now: int, at: int)
    requires
        app.runtime.turn == TurnView::Ready(history),
        0 <= at < app.input.text.len(),
        !chars::is_white_space(app.input.text[at]),
        app.input.text[0] != '/',
    ensures
        ({
            let typed = MessageView::User(seq![ContentView::Text(app.input.text)]);
            let done = commands::submitted(app, now);
            &&& done.effects.len() == 1
            &&& done.effects[0] == (EffectView::StartTurn {
                history: history.push(EntryView::Input(typed)),
                rollback: history,
            })
            &&& done.app.state.blocks.drop_last() == app.state.blocks
            &&& done.app.state.blocks.last().kind == (KindView::User {
                content: seq![ContentView::Text(app.input.text)],
            })
            &&& done.app.runtime.turn is Running
            &&& done.app.runtime.queue == app.runtime.queue
            &&& done.app.input.text.len() == 0
            &&& done.app.notification == app.notification
            &&& done.app.quit == app.quit
            &&& done.app.model_id == app.model_id
        }),
{
    let done = commands::submitted(app, now);
    assert(done.app.state.blocks.drop_last() =~= app.state.blocks);
}

/// Blank input asks for nothing and stays as it is.
pub proof fn law_blank_input_stays(app: AppView, now: int)
    requires
        forall|i: int|
            0 <= i < app.input.text.len() ==> chars::is_white_space(#[trigger] app.input.text[i]),
    ensures
        commands::submitted(app, now).app == app,
        commands::submitted(app, now).effects.len() == 0,
{
}

/// A single command does what it asks for, and then the end of the conversation is shown.
pub proof fn law_commands_do_what_they_ask(app: AppView, text: Seq<char>, now: int)
    ensures
        ({
            let quit = commands::run(app, seq![CommandView::Quit], now);
            &&& quit.app == (AppView { quit: true, scroll: 0, ..app })
            &&& quit.effects.len() == 0
        }),
        ({
            let clear = commands::run(app, seq![CommandView::ClearConversation], now);
            &&& clear.app.state.blocks.len() == 0
            &&& clear.app.runtime == app.runtime
            &&& clear.effects.len() == 0
        }),
        ({
            let output = commands::run(app, seq![CommandView::PushCommandOutput(text)], now);
            &&& output.app.state.blocks.drop_last() == app.state.blocks
            &&& output.app.state.blocks.last().kind == (KindView::Command { text, is_error: false })
            &&& output.effects.len() == 0
        }),
        ({
            let help = commands::run(app, seq![CommandView::ShowHelp], now);
            &&& help.app.state.blocks.drop_last() == app.state.blocks
            &&& help.app.state.blocks.last().kind == (KindView::Command {
                text: commands::help_text(app.commands),
                is_error: false,
            })
            &&& help.effects.len() == 0
        }),
{
    lemma_single_command(app, CommandView::Quit, now);
    lemma_single_command(app, CommandView::ClearConversation, now);
    lemma_single_command(app, CommandView::PushCommandOutput(text), now);
    lemma_single_command(app, CommandView::ShowHelp, now);
    assert(app.told(text, false).state.blocks.drop_last() =~= app.state.blocks);
    assert(app.told(commands::help_text(app.commands), false).state.blocks.drop_last()
        =~= app.state.blocks);
}

proof fn lemma_single_command(app: AppView, command: CommandView, now: int)
    requires
        !(command is SwitchModel),
    ensures
        commands::carried_out(app, command) matches Ok(first) ==> commands::run(
            app,
            seq![command],
            now,
        ) == (commands::Outcome { app: AppView { scroll: 0, ..first.app }, effects: first.effects }),
        commands::carried_out(app, command) matches Err(message) ==> commands::run(
            app,
            seq![command],
            now,
        ) == commands::quietly(commands::command_failed(app, message, now)),
{
    reveal_with_fuel(commands::run, 2);
    assert(seq![command].drop_first() =~= Seq::<CommandView>::empty());
    if let Ok(first) = commands::carried_out(app, command) {
        assert(first.effects + Seq::<EffectView>::empty() =~= first.effects);
    }
}

/// The history is forgotten with the conversation, but only while no turn is on its way: otherwise
/// both stay, and the reason is shown and told.
pub proof fn law_clearing_waits_for_the_turn(app: AppView, now: int)
    ensures
        ({
            let cleared = commands::run(
                app,
                seq![CommandView::ClearSessionHistory, CommandView::ClearConversation],
                now,
            );
            &&& cleared.effects.len() == 0
            &&& !app.runtime.busy() ==> {
                &&& cleared.app.runtime.turn == TurnView::Ready(Seq::empty())
                &&& cleared.app.runtime.queue.len() == 0
                &&& cleared.app.state.blocks.len() == 0
            }
            &&& app.runtime.busy() ==> {
                &&& cleared.app.runtime == app.runtime
                &&& cleared.app.state.blocks.drop_last() == app.state.blocks
                &&& cleared.app.state.blocks.last().kind == (KindView::Command {
                    text: "runtime is busy"@,
                    is_error: true,
                })
                &&& cleared.app.notification == Some(
                    NotificationView {
                        kind: NotificationKind::Error,
                        message: "runtime is busy"@,
                        expires_at: now + 1800,
                    },
                )
            }
        }),
{
    let both = seq![CommandView::ClearSessionHistory, CommandView::ClearConversation];
    reveal_with_fuel(commands::run, 3);
    assert(both.drop_first() =~= seq![CommandView::ClearConversation]);
    assert(seq![CommandView::ClearConversation].drop_first() =~= Seq::<CommandView>::empty());
    if app.runtime.busy() {
        let failed = commands::command_failed(app, "runtime is busy"@, now);
        assert(failed.state.blocks.drop_last() =~= app.state.blocks);
    }
}

/// A turn that runs can be stopped, paused and resumed: just that is asked for and nothing changes.
/// Where none runs the command fails and nothing is asked for.
pub proof fn law_turns_are_controlled_while_they_run(app: AppView, now: int)
    ensures
        app.runtime.turn is Running ==> {
            &&& commands::run(app, seq![CommandView::StopTurn], now).effects == seq![
                EffectView::AbortTurn,
            ]
            &&& commands::run(app, seq![CommandView::PauseTurn], now).effects == seq![
                EffectView::PauseTurn,
            ]
            &&& commands::run(app, seq![CommandView::ResumeTurn], now).effects == seq![
                EffectView::ResumeTurn,
            ]
            &&& commands::run(app, seq![CommandView::StopTurn], now).app.state == app.state
            &&& commands::run(app, seq![CommandView::PauseTurn], now).app.state == app.state
            &&& commands::run(app, seq![CommandView::ResumeTurn], now).app.state == app.state
        },
        !(app.runtime.turn is Running) ==> {
            let stopped = commands::run(app, seq![CommandView::StopTurn], now);
            &&& stopped.effects.len() == 0
            &&& commands::run(app, seq![CommandView::PauseTurn], now) == stopped
            &&& commands::run(app, seq![CommandView::ResumeTurn], now) == stopped
            &&& stopped.app.state.blocks.drop_last() == app.state.blocks
            &&& stopped.app.state.blocks.last().kind == (KindView::Command {
                text: "no active turn"@,
                is_error: true,
            })
            &&& stopped.app.notification is Some
            &&& stopped.app.notification->Some_0.kind == NotificationKind::Error
        },
{
    lemma_single_command(app, CommandView::StopTurn, now);
    lemma_single_command(app, CommandView::PauseTurn, now);
    lemma_single_command(app, CommandView::ResumeTurn, now);
    let failed = commands::command_failed(app, "no active turn"@, now);
    assert(failed.state.blocks.drop_last() =~= app.state.blocks);
}

/// Commands are carried out one after the other; after one that fails the rest is not.
pub proof fn law_commands_run_in_order(
    app: AppView,
    first: CommandView,
    rest: Seq<CommandView>,
    now: int,
)
    requires
        !(first is SwitchModel),
    ensures
        ({
            let alone = commands::run(app, seq![first], now);
            let all = commands::run(app, seq![first] + rest, now);
            match commands::carried_out(app, first) {
                Err(_) => all == alone,
                Ok(done) => all.app == commands::run(done.app, rest, now).app && all.effects
                    == done.effects + commands::run(done.app, rest, now).effects,
            }
        }),
{
    lemma_single_command(app, first, now);
    assert((seq![first] + rest).drop_first() =~= rest);
}

/// A model is switched to once it is ready: until then nothing changes and the commands behind it
/// wait. Then it is the model that is used and the one that is shown. Where it cannot be made ready
/// the old one stays, and the reason is shown.
pub proof fn law_models_are_switched_when_ready(
    app: AppView,
    model_id: Seq<char>,
    rest: Seq<CommandView>,
    message: Seq<char>,
    now: int,
)
    ensures
        ({
            let asked = commands::run(app, seq![CommandView::SwitchModel(model_id)] + rest, now);
            &&& asked.app == app
            &&& asked.effects == seq![EffectView::BuildModel { model_id, rest }]
        }),
        ({
            let ready = commands::model_built(app, model_id, None, Seq::empty(), now);
            &&& ready.app == (AppView { model_id, model: model_id, scroll: 0, ..app })
            &&& ready.effects.len() == 0
        }),
        ({
            let failed = commands::model_built(app, model_id, Some(message), rest, now);
            &&& failed.app.model_id == app.model_id
            &&& failed.app.model == app.model
            &&& failed.effects.len() == 0
            &&& failed.app.state.blocks.drop_last() == app.state.blocks
            &&& failed.app.state.blocks.last().kind == (KindView::Command {
                text: message,
                is_error: true,
            })
            &&& failed.app.notification is Some
            &&& failed.app.notification->Some_0.message == message
            &&& failed.app.notification->Some_0.kind == NotificationKind::Error
        }),
{
    assert((seq![CommandView::SwitchModel(model_id)] + rest).drop_first() =~= rest);
    let failed = commands::command_failed(app, message, now);
    assert(failed.state.blocks.drop_last() =~= app.state.blocks);
}

/// The help has a line for each command, with how it is written and what it does.
pub proof fn law_help_tells_of_each_command(commands: Seq<SlashCommand>, i: int)
    requires
        0 <= i < commands.len(),
    ensures
        exists|lines: Seq<Seq<char>>|
            {
                &&& lines.len() == commands.len() + 1
                &&& commands::help_text(commands) == #[trigger] chars::join(lines, "\n"@)
                &&& lines[0] == "local commands:"@
                &&& exists|gap: Seq<char>|
                    {
                        &&& lines[i + 1] == #[trigger] ("  "@ + commands[i].spec.usage@ + gap
                            + " "@ + commands[i].spec.summary@)
                        &&& forall|j: int| 0 <= j < gap.len() ==> #[trigger] gap[j] == ' '
                    }
            },
{
    let lines = seq!["local commands:"@] + Seq::new(
        commands.len(),
        |k: int| commands::help_line(commands[k]),
    );
    let usage = commands[i].spec.usage@;
    let gap = Seq::new(
        if usage.len() < 28 {
            (28 - usage.len()) as nat
        } else {
            0
        },
        |k: int| ' ',
    );
    assert(command_menu::padded(usage, 28) =~= usage + gap);
    assert(lines[i + 1] =~= "  "@ + usage + gap + " "@ + commands[i].spec.summary@);
    assert(commands::help_text(commands) == chars::join(lines, "\n"@));
}

/// A key with nothing held with it.
pub open spec fn bare(code: KeyCode) -> KeyPress {
    KeyPress { code, control: false, alt: false, other_modifier: false, released: false }
}

/// Whether the menu is closed.
pub open spec fn menu_is_closed(app: AppView) -> bool {
    app.menu.dismissed || !command_menu::opens(app.input.text)
}

/// Keys edit the input at its cursor: a character is put there, backspace takes away the one before it,
/// the arrows move it, and nothing but the input and the dismissal of the menu changes.
pub proof fn law_keys_edit_the_input(app: AppView, c: char, width: usize, now: int)
    requires
        0 <= app.input.cursor <= app.input.text.len(),
        menu_is_closed(app),
        c != '\r',
    ensures
        ({
            let cursor = app.input.cursor;
            let text = app.input.text;
            let typed = keys::pressed(app, bare(KeyCode::Char(c)), width, now);
            let removed = keys::pressed(app, bare(KeyCode::Backspace), width, now);
            let left = keys::pressed(app, bare(KeyCode::Left), width, now);
            let right = keys::pressed(app, bare(KeyCode::Right), width, now);
            &&& typed.outcome.app.input.text == text.take(cursor) + seq![c] + text.skip(cursor)
            &&& typed.outcome.app.input.cursor == cursor + 1
            &&& !typed.outcome.app.menu.dismissed
            &&& typed.outcome.app.state == app.state && typed.outcome.app.scroll == app.scroll
            &&& typed.outcome.effects.len() == 0 && typed.dirty.frame && !typed.dirty.conversation
            &&& cursor > 0 ==> removed.outcome.app.input.text == text.take(cursor - 1) + text.skip(
                cursor,
            ) && removed.outcome.app.input.cursor == cursor - 1
            &&& cursor == 0 ==> removed.outcome.app.input == app.input
            &&& !removed.outcome.app.menu.dismissed
            &&& removed.outcome.app.state == app.state && removed.dirty.frame
            &&& left.outcome.app.input.text == text && right.outcome.app.input.text == text
            &&& cursor > 0 ==> left.outcome.app.input.cursor == cursor - 1
            &&& cursor < text.len() ==> right.outcome.app.input.cursor == cursor + 1
            &&& left.outcome.app == (AppView { input: left.outcome.app.input, ..app })
            &&& right.outcome.app == (AppView { input: right.outcome.app.input, ..app })
        }),
{
    input::law_typing_inserts_at_the_cursor(app.input, c);
    input::law_backspace_removes_one_character(app.input);
    input::law_moves_go_by_one_character(app.input);
}

/// A line break is typed with Ctrl+J or with Alt+Enter and submits nothing; a plain Enter submits.
pub proof fn law_line_breaks_are_typed_apart_from_submitting(app: AppView, width: usize, now: int)
    requires
        0 <= app.input.cursor <= app.input.text.len(),
        menu_is_closed(app),
    ensures
        ({
            let cursor = app.input.cursor;
            let text = app.input.text;
            let ctrl_j = KeyPress { control: true, ..bare(KeyCode::Char('j')) };
            let alt_enter = KeyPress { alt: true, ..bare(KeyCode::Enter) };
            let broken = keys::pressed(app, ctrl_j, width, now);
            &&& broken.outcome.app.input.text == text.take(cursor) + seq!['\n'] + text.skip(cursor)
            &&& broken.outcome.app == (AppView { input: broken.outcome.app.input, ..app })
            &&& broken.outcome.effects.len() == 0
            &&& keys::pressed(app, alt_enter, width, now) == broken
            &&& keys::pressed(app, bare(KeyCode::Enter), width, now).outcome == commands::submitted(
                app,
                now,
            )
        }),
{
    input::law_typing_inserts_at_the_cursor(app.input, '\n');
}

/// Page keys scroll the conversation by six rows, and Home and End with Ctrl to its ends; the folds are
/// toggled with Ctrl+O. None of them touches the input.
pub proof fn law_keys_scroll_and_fold_the_conversation(app: AppView, width: usize, now: int)
    requires
        menu_is_closed(app),
        app.scroll <= app.max_scroll(),
    ensures
        ({
            let up = keys::pressed(app, bare(KeyCode::PageUp), width, now).outcome.app;
            let down = keys::pressed(app, bare(KeyCode::PageDown), width, now).outcome.app;
            let home = KeyPress { control: true, ..bare(KeyCode::Home) };
            let end = KeyPress { control: true, ..bare(KeyCode::End) };
            let fold = KeyPress { control: true, ..bare(KeyCode::Char('o')) };
            &&& app.scroll + 6 <= app.max_scroll() ==> up.scroll == app.scroll + 6
            &&& app.scroll + 6 > app.max_scroll() ==> up.scroll == app.max_scroll()
            &&& app.scroll >= 6 ==> down.scroll == app.scroll - 6
            &&& app.scroll < 6 ==> down.scroll == 0
            &&& up.input == app.input && down.input == app.input
            &&& keys::pressed(app, home, width, now).outcome.app.scroll == app.max_scroll()
            &&& keys::pressed(app, end, width, now).outcome.app.scroll == 0
            &&& keys::pressed(app, fold, width, now).outcome.app == (AppView {
                state: app.state.with_folds_toggled(),
                ..app
            })
            &&& keys::pressed(app, fold, width, now).dirty.conversation
        }),
{
}

/// What a key changes is drawn again: the conversation where it was scrolled or its blocks have
/// changed, and else the frame where the input or the menu has.
pub proof fn law_what_keys_change_is_drawn_again(app: AppView, key: KeyPress, width: usize, now: int)
    ensures
        ({
            let handled = keys::pressed(app, key, width, now);
            let after = handled.outcome.app;
            &&& after.state != app.state || after.scroll != app.scroll
                ==> handled.dirty.conversation && handled.dirty.frame
            &&& after.input != app.input && key.code != KeyCode::Enter ==> handled.dirty.frame
        }),
{
}

/// Keys that the menu takes stay with it: the arrows select, Esc closes it, Tab puts the selected
/// command and a space into the input, and Enter submits that command.
pub proof fn law_menu_takes_its_keys(app: AppView, width: usize, now: int, at: usize)
    requires
        command_menu::opens(app.input.text),
        !app.menu.dismissed,
        app.menu.selected == Some(at),
        at < command_menu::matches(app.commands, app.input.text).len() <= usize::MAX,
        without_returns(
            command_menu::matches(app.commands, app.input.text)[at as int].spec.name@,
        ),
    ensures
        ({
            let listed = command_menu::matches(app.commands, app.input.text);
            let name = listed[at as int].spec.name@;
            let up = keys::pressed(app, bare(KeyCode::Up), width, now).outcome;
            let down = keys::pressed(app, bare(KeyCode::Down), width, now).outcome;
            let esc = keys::pressed(app, bare(KeyCode::Esc), width, now).outcome;
            let tab = keys::pressed(app, bare(KeyCode::Tab), width, now).outcome;
            let enter = keys::pressed(app, bare(KeyCode::Enter), width, now).outcome;
            &&& up.app.input == app.input && down.app.input == app.input
            &&& at > 0 ==> up.app.menu.selected == Some((at - 1) as usize)
            &&& at + 1 < listed.len() ==> down.app.menu.selected == Some((at + 1) as usize)
            &&& esc.app.menu.dismissed && esc.app.input == app.input
            &&& tab.app.input.text == "/"@ + name + " "@
            &&& tab.app.input.cursor == name.len() + 2
            &&& tab.effects.len() == 0 && tab.app.state == app.state
            &&& exists|filled: AppView|
                {
                    &&& enter == #[trigger] commands::submitted(filled, now)
                    &&& filled.input.text == "/"@ + name
                    &&& filled.state == app.state
                    &&& filled.runtime == app.runtime
                }
        }),
{
    let listed = command_menu::matches(app.commands, app.input.text);
    let name = listed[at as int].spec.name@;
    command_menu::law_selection_goes_round(at, listed.len());
    reveal_strlit("/");
    reveal_strlit(" ");
    assert(!chars::is_white_space('/'));
    assert(!chars::is_white_space(app.input.text[0]));
    let tabbed = "/"@ + name + " "@;
    let submitted = "/"@ + name;
    law_typed_text_stands(tabbed, tabbed.len() as int);
    law_typed_text_stands(submitted, submitted.len() as int);
    assert(tabbed.take(tabbed.len() as int) =~= tabbed);
    assert(submitted.take(submitted.len() as int) =~= submitted);
    let filled = keys::with_menu_command(app, true);
    assert(keys::pressed(app, bare(KeyCode::Enter), width, now).outcome == commands::submitted(
        filled,
        now,
    ));
}

/// The wheel scrolls the conversation by three rows under the mouse, and what was selected is not
/// selected any more.
pub proof fn law_wheel_scrolls_three_rows(
    before: AppView,
    event: MouseEvent,
    now: int,
    after: AppView,
    dirty: DirtyState,
    copy: Option<Seq<char>>,
)
    requires
        mouse::moused(before, event, now, after, dirty, copy),
        menu_is_closed(before),
        mouse::in_conversation(before, event),
        before.scroll <= before.max_scroll(),
    ensures
        event.kind is ScrollUp ==> {
            &&& before.scroll + 3 <= before.max_scroll() ==> after.scroll == before.scroll + 3
            &&& before.scroll + 3 > before.max_scroll() ==> after.scroll == before.max_scroll()
        },
        event.kind is ScrollDown ==> {
            &&& before.scroll >= 3 ==> after.scroll == before.scroll - 3
            &&& before.scroll < 3 ==> after.scroll == 0
        },
        event.kind is ScrollUp || event.kind is ScrollDown ==> {
            &&& after.selection.active is None && !after.selection.dragging
            &&& after.autoscroll is None
            &&& after.input == before.input && after.state == before.state
            &&& copy is None
            &&& after.scroll != before.scroll ==> dirty.conversation
        },
{
}

/// The end of a drag copies just what was selected, and nothing is selected then. Where nothing was
/// selected nothing is copied, and that is told.
pub proof fn law_release_copies_the_selection(
    before: AppView,
    event: MouseEvent,
    now: int,
    after: AppView,
    dirty: DirtyState,
    copy: Option<Seq<char>>,
)
    requires
        mouse::moused(before, event, now, after, dirty, copy),
        menu_is_closed(before),
        event.kind is LeftUp,
        before.selection.dragging,
    ensures
        after.selection.active is None,
        !after.selection.dragging,
        after.autoscroll is None,
        after.frozen_start is None,
        dirty.conversation,
        before.selection.active matches Some((key, active)) ==> crate::selection::map_of(
            before.selection.surfaces,
            key,
        ) matches Some(map) ==> {
            &&& map.selected_text(active).len() > 0 ==> copy == Some(map.selected_text(active))
                && after.notification == before.notification
            &&& map.selected_text(active).len() == 0 ==> copy is None && after.notification == Some(
                NotificationView {
                    kind: NotificationKind::Info,
                    message: "no selection"@,
                    expires_at: now + 1800,
                },
            )
        },
{
}

/// The mouse does nothing where it is not meant to: on the menu, outside of the conversation and
/// without a drag to go on with.
pub proof fn law_mouse_elsewhere_does_nothing(
    before: AppView,
    event: MouseEvent,
    now: int,
    after: AppView,
    dirty: DirtyState,
    copy: Option<Seq<char>>,
)
    requires
        mouse::moused(before, event, now, after, dirty, copy),
        ({
            ||| before.menu.spec_is_open(before.input.text) && before.menu.covers(
                event.column,
                event.row,
            )
            ||| event.kind is Other
            ||| (event.kind is LeftDrag || event.kind is LeftUp) && !before.selection.dragging
            ||| (event.kind is ScrollUp || event.kind is ScrollDown || event.kind is LeftDown)
                && !mouse::in_conversation(before, event)
        }),
    ensures
        after == before,
        copy is None,
        dirty == (DirtyState { frame: false, conversation: false }),
{
}

/// A selection that is dragged past an edge scrolls on from then: upwards past the top and downwards
/// past the bottom, in the column of the conversation that is nearest. Beside the conversation it does
/// not scroll.
pub proof fn law_drag_past_an_edge_scrolls_on(
    before: AppView,
    event: MouseEvent,
    now: u64,
    after: AppView,
    dirty: DirtyState,
    copy: Option<Seq<char>>,
    area: Rect,
)
    requires
        mouse::moused(before, event, now as int, after, dirty, copy),
        menu_is_closed(before),
        event.kind is LeftDrag,
        before.selection.dragging,
        mouse::active_area(before.selection) == Some(area),
        area.width > 0,
        area.height > 0,
        area.x + area.width <= u16::MAX,
        area.y + area.height <= u16::MAX,
    ensures
        event.row < area.y ==> after.autoscroll is Some && after.autoscroll->Some_0.scroll_delta
            == 1,
        event.row >= area.y + area.height ==> after.autoscroll is Some
            && after.autoscroll->Some_0.scroll_delta == -1,
        area.y <= event.row < area.y + area.height ==> after.autoscroll is None,
        after.autoscroll matches Some(autoscroll) ==> {
            &&& area.x <= autoscroll.column < area.x + area.width
            &&& area.x <= event.column < area.x + area.width ==> autoscroll.column == event.column
            &&& autoscroll.next_tick == now
            &&& after.selection == before.selection
        },
        after.state == before.state,
        after.scroll == before.scroll,
        copy is None,
{
}

/// A selection that scrolls on reaches to the edge that it is held past, moves by a row and rests for
/// thirty milliseconds.
pub proof fn law_autoscroll_moves_a_row(before: AppView, now: int, after: AppView, delta: i32)
    requires
        frame::autoscrolled(before, now, after),
        before.autoscroll is Some,
        before.autoscroll->Some_0.scroll_delta == delta,
        delta == 1 || delta == -1,
        before.scroll <= before.max_scroll(),
        view::conversation_map(before.selection) is Some,
        0 <= now <= u64::MAX - 30,
    ensures
        delta == 1 && before.scroll < before.max_scroll() ==> after.scroll == before.scroll + 1,
        delta == 1 && before.scroll == before.max_scroll() ==> after.scroll == before.scroll,
        delta == -1 && before.scroll > 0 ==> after.scroll == before.scroll - 1,
        delta == -1 && before.scroll == 0 ==> after.scroll == 0,
        after.autoscroll is Some,
        after.autoscroll->Some_0.next_tick == now + 30,
        after.autoscroll->Some_0.scroll_delta == delta,
        after.autoscroll->Some_0.column == before.autoscroll->Some_0.column,
        after.state == before.state,
        after.input == before.input,
{
}

/// The edge that a selection scrolls on past is the first row of the area upwards and the last one
/// downwards.
pub proof fn law_edges_are_the_outer_rows(area: Rect)
    requires
        area.height > 0,
        area.y + area.height <= u16::MAX,
    ensures
        frame::edge_row(area, 1) == area.y,
        frame::edge_row(area, -1i32 as i32) == area.y + area.height - 1,
{
}

/// To keep a row in place is to scroll so that the window starts with it, as far as the conversation is
/// long enough for that.
pub proof fn law_kept_row_stays_first(layout: ConversationLayout, area: Rect, start: u32)
    ensures
        ({
            let first = layout.first_row(area, frame::scroll_to_row(layout, area, start));
            &&& start + area.height <= layout.spec_total_height() ==> first == start
            &&& start + area.height > layout.spec_total_height() && layout.spec_total_height()
                >= area.height ==> first + area.height == layout.spec_total_height()
        }),
{
}

/// The parts of the screen stand one below the other and fill it: the conversation, an empty row, the
/// input and the status line.
pub proof fn law_parts_fill_the_screen(
    x: u16,
    y: u16,
    width: u16,
    height: u16,
    input_height: u16,
)
    requires
        y + height <= u16::MAX,
        1 + input_height + 1 <= height,
    ensures
        ({
            let areas = frame::areas_of(
                frame::stacked_rows(x, y, width, height, 1, input_height, 1),
            );
            &&& areas.conversation.y == y
            &&& areas.conversation.y + areas.conversation.height + 1 == areas.input.y
            &&& areas.input.height == input_height
            &&& areas.input.y + areas.input.height == areas.status.y
            &&& areas.status.height == 1
            &&& areas.status.y + areas.status.height == y + height
            &&& areas.conversation.x == x && areas.input.x == x && areas.status.x == x
            &&& areas.conversation.width == width && areas.input.width == width
                && areas.status.width == width
        }),
{
}

/// Scrolling goes where it is asked to within the conversation; what is shown then stays in place,
/// unless it is the end of the conversation.
pub proof fn law_scrolled_view_stays_in_place(app: AppView, wanted: u32)
    requires
        view::conversation_map(app.selection) is Some,
    ensures
        ({
            let map = view::conversation_map(app.selection)->Some_0;
            let after = app.scrolled_to(wanted);
            let rows = map.spec_total_height();
            let shown = map.spec_area().height;
            &&& shown + wanted <= rows ==> after.scroll == wanted
            &&& shown <= rows && shown + wanted > rows ==> after.scroll == rows - shown
            &&& shown > rows ==> after.scroll == 0
            &&& after.scroll > 0 ==> after.frozen_start is Some && after.frozen_start->Some_0
                + shown + after.scroll == rows
            &&& after.scroll == 0 ==> after.frozen_start is None
            &&& after == (AppView {
                scroll: after.scroll,
                frozen_start: after.frozen_start,
                ..app
            })
        }),
{
}

/// What has to be drawn again stays to be drawn, and a notification is shown for 1800 milliseconds.
pub proof fn law_marks_are_kept(
    app: AppView,
    dirty: DirtyState,
    kind: NotificationKind,
    message: Seq<char>,
    now: int,
)
    ensures
        app.dirtied(dirty).render_dirty == (app.render_dirty || dirty.frame),
        app.dirtied(dirty).conversation_dirty == (app.conversation_dirty || dirty.conversation),
        app.dirtied(dirty).state == app.state,
        app.notified(kind, message, now).notification == Some(
            NotificationView { kind, message, expires_at: now + 1800 },
        ),
        app.notified(kind, message, now).render_dirty,
        app.notified(kind, message, now).state == app.state,
        app.unselected().selection.active is None,
        !app.unselected().selection.dragging,
        app.unselected().selection.surfaces == app.selection.surfaces,
        app.unselected().autoscroll is None,
        app.unselected().frozen_start is None,
        app.unselected().scroll == app.scroll,
{
}

/// The end of a turn frees the session or starts the turn that waits longest, from the history that the
/// turn ended with.
pub proof fn law_finished_turns_make_room(app: AppView, history: Seq<EntryView>, now: int)
    ensures
        ({
            let done = turns::told(app, RuntimeEventView::TurnFinished { history }, now);
            &&& done.app.state == app.state
            &&& app.runtime.queue.len() == 0 ==> done.starts.len() == 0
                && done.app.runtime.turn == TurnView::Ready(history)
            &&& app.runtime.queue.len() > 0 ==> {
                let batch = app.runtime.queue[0];
                &&& done.starts.len() == 1
                &&& done.starts[0].rollback == history
                &&& done.starts[0].batch == batch
                &&& done.starts[0].history.len() == history.len() + batch.inputs.len()
                &&& history.is_prefix_of(done.starts[0].history)
                &&& forall|i: int|
                    0 <= i < batch.inputs.len() ==> #[trigger] done.starts[0].history[history.len()
                        + i] == EntryView::Input(batch.inputs[i])
                &&& done.app.runtime.turn is Running
                &&& done.app.runtime.queue == app.runtime.queue.drop_first()
            }
        }),
{
    if app.runtime.queue.len() > 0 {
        let start = turns::told(app, RuntimeEventView::TurnFinished { history }, now).starts[0];
        assert(history =~= start.history.subrange(0, history.len() as int));
    }
}

/// A turn that fails leaves the session with the history that it gives back, starts no other one, and
/// its reason is shown and told.
pub proof fn law_failed_turns_are_shown(
    app: AppView,
    history: Seq<EntryView>,
    message: Seq<char>,
    now: int,
)
    ensures
        ({
            let done = turns::told(app, RuntimeEventView::TurnFailed { history, message }, now);
            &&& done.starts.len() == 0
            &&& done.app.runtime.turn == TurnView::Ready(history)
            &&& done.app.runtime.queue == app.runtime.queue
            &&& done.app.state.blocks.drop_last() == app.state.blocks
            &&& done.app.state.blocks.last().kind == (KindView::Error { text: message })
            &&& done.app.notification == Some(
                NotificationView {
                    kind: NotificationKind::Error,
                    message,
                    expires_at: now + 1800,
                },
            )
        }),
        ({
            let done = turns::told(app, RuntimeEventView::ControlFailed { message }, now);
            &&& done.starts.len() == 0
            &&& done.app.runtime == app.runtime
            &&& done.app.state.blocks.drop_last() == app.state.blocks
            &&& done.app.state.blocks.last().kind == (KindView::Command {
                text: message,
                is_error: true,
            })
            &&& done.app.notification is Some
            &&& done.app.notification->Some_0.kind == NotificationKind::Error
            &&& done.app.notification->Some_0.message == message
        }),
{
    let failed = turns::told(app, RuntimeEventView::TurnFailed { history, message }, now);
    assert(failed.app.state.blocks.drop_last() =~= app.state.blocks);
    let refused = turns::told(app, RuntimeEventView::ControlFailed { message }, now);
    assert(refused.app.state.blocks.drop_last() =~= app.state.blocks);
}

/// What a turn tells of its progress is put into the conversation and changes nothing else, but that
/// an abort is told.
pub proof fn law_progress_is_shown(app: AppView, event: AgentEvent, now: int)
    ensures
        ({
            let done = turns::told(app, RuntimeEventView::Agent(event), now);
            &&& done.starts.len() == 0
            &&& done.app.runtime == app.runtime
            &&& done.app.input == app.input
            &&& done.app.scroll == app.scroll
            &&& match event {
                AgentEvent::InputCommitted { input } => done.app.state == app.state.with_input(
                    input@,
                ),
                AgentEvent::ModelDelta { content_index, delta } => done.app.state
                    == app.state.with_delta(content_index, delta@),
                AgentEvent::ToolResultCommitted { result } => done.app.state
                    == app.state.with_tool_result(result@),
                _ => done.app.state == app.state,
            }
            &&& event is TurnAborted ==> done.app.notification == Some(
                NotificationView {
                    kind: NotificationKind::Warning,
                    message: "aborted"@,
                    expires_at: now + 1800,
                },
            )
            &&& !(event is TurnAborted) ==> done.app.notification == app.notification
        }),
{
}

proof fn lemma_told_prefix(
    app: AppView,
    events: Seq<RuntimeEventView>,
    event: RuntimeEventView,
    count: int,
    now: int,
)
    requires
        0 <= count <= events.len(),
    ensures
        turns::all_told(app, events.push(event), count, now) == turns::all_told(
            app,
            events,
            count,
            now,
        ),
    decreases count,
{
    if count > 0 {
        lemma_told_prefix(app, events, event, count - 1, now);
        assert(events.push(event)[count - 1] == events[count - 1]);
    }
}

/// All that turns tell is taken in, in the order in which they told it.
pub proof fn law_all_that_is_told_is_taken_in(
    app: AppView,
    events: Seq<RuntimeEventView>,
    event: RuntimeEventView,
    now: int,
)
    ensures
        ({
            let n = events.len() as int;
            let before = turns::all_told(app, events, n, now);
            let after = turns::all_told(app, events.push(event), n + 1, now);
            let last = turns::told(before.app, event, now);
            &&& after.app == last.app
            &&& after.starts == before.starts + last.starts
        }),
        turns::all_told(app, Seq::empty(), 0, now).app == app,
        turns::all_told(app, Seq::empty(), 0, now).starts.len() == 0,
{
    let n = events.len() as int;
    lemma_told_prefix(app, events, event, n, now);
    assert(events.push(event)[n] == event);
}

/// A notification is gone once its time is over, which is drawn; until then it stays and nothing is
/// drawn for it.
pub proof fn law_notifications_go_when_their_time_is_over(
    app: AppView,
    notification: NotificationView,
    now: int,
)
    requires
        app.notification == Some(notification),
    ensures
        now < notification.expires_at ==> cycle::ticked(app, now) == app,
        now >= notification.expires_at ==> cycle::ticked(app, now).notification is None
            && cycle::ticked(app, now).render_dirty && cycle::ticked(app, now).state == app.state,
{
}

/// Nothing is drawn of the conversation anew where it was drawn in the same place and has not changed
/// since.
pub proof fn law_unchanged_conversation_is_not_drawn_again(
    before: AppView,
    area: Rect,
    after: AppView,
    frame: ConversationFrame,
)
    requires
        frame::conversation_drawn(before, area, after, frame),
    ensures
        !before.conversation_dirty && before.cached_area == Some(area) ==> frame is Cached
            && after == before,
        before.conversation_dirty || before.cached_area != Some(area) ==> frame is Drawn
            && !after.conversation_dirty && after.cached_area == Some(area),
        after.state == before.state,
        after.scroll == before.scroll,
        after.input == before.input,
{
}

/// A selection that is held past an edge scrolls on when its time has come, and only while it is held.
pub proof fn law_autoscroll_waits_for_its_time(app: AppView, now: int)
    ensures
        frame::tick_due(app, now) <==> app.selection.dragging && app.autoscroll is Some
            && app.autoscroll->Some_0.next_tick <= now,
{
}

/// The menu is drawn where it is open and lists a command, with a line for each command that it lists
/// and the selected one among them.
pub proof fn law_open_menu_is_drawn(
    before: AppView,
    area: Rect,
    after: command_menu::CommandMenu,
    drawing: Option<command_menu::MenuDrawing>,
)
    requires
        frame::menu_drawn(before, area, after, drawing),
        command_menu::matches(before.commands, before.input.text).len() <= usize::MAX,
    ensures
        ({
            let listed = command_menu::matches(before.commands, before.input.text);
            &&& drawing is Some <==> !before.menu.dismissed && command_menu::opens(
                before.input.text,
            ) && listed.len() > 0 && area.width > 0 && area.height > 0
            &&& drawing matches Some(menu) ==> {
                &&& menu.lines@.len() == listed.len()
                &&& menu.selected < listed.len()
                &&& after.selected == Some(menu.selected)
                &&& before.menu.selected matches Some(at) ==> at < listed.len() ==> menu.selected
                    == at
            }
            &&& after.dismissed == before.menu.dismissed
        }),
{
    let listed = command_menu::matches(before.commands, before.input.text);
    if let Some(menu) = drawing {
        assert(crate::style::line_views(menu.lines@).len() == menu.lines@.len());
    }
}

/// A notification is drawn as long as there is one, within the area.
pub proof fn law_notification_is_drawn(
    current: Option<NotificationView>,
    area: Rect,
    drawing: Option<crate::notifications::NotificationDrawing>,
)
    requires
        frame::notification_drawn(current, area, drawing),
    ensures
        drawing is Some <==> current is Some && area.width > 0 && area.height > 0,
        drawing matches Some(shown) ==> {
            &&& shown.size.width <= area.width
            &&& shown.size.height <= area.height
            &&& crate::style::plain_text(shown.line@) == crate::notifications::kind_label(
                current->Some_0.kind,
            ) + " "@ + current->Some_0.message
        },
{
    if let Some(shown) = drawing {
        crate::notifications::law_notification_reads_label_and_message(
            current->Some_0.kind,
            current->Some_0.message,
        );
    }
}

/// To draw changes nothing of the conversation, of how far it is scrolled, of the text of the input and
/// of what waits to be done.
pub proof fn law_drawing_changes_nothing_else(
    before: crate::app::view::App,
    width: u16,
    after: crate::app::view::App,
    plan: frame::FramePlan,
)
    requires
        frame::frame_drawn(before, width, after, plan),
    ensures
        after@.state == before@.state,
        after@.scroll == before@.scroll,
        after@.runtime == before@.runtime,
        after@.input.text == before@.input.text,
        after@.input.cursor == before@.input.cursor,
        after@.notification == before@.notification,
        after@.quit == before@.quit,
        crate::style::plain_text(plan.status@) == before@.model + " · "@ + before@.context + " · "@
            + before@.workspace,
{
    crate::status::law_status_reads_model_context_workspace(
        before@.model,
        before@.context,
        before@.workspace,
    );
}

} // verus!
