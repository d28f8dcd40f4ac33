//! The commands that come with the application.

use crate::chars;
use crate::command::app_command;
use crate::command::app_command::{AppCommand, CommandView, RuntimeCommand, UiCommand};
use crate::command::slash::{
    ErrorView, SessionSnapshot, SlashCommand, SlashCommandBuild, SlashCommandRegistry,
    SlashCommandSpec, SlashError,
};
use crate::input;
use vstd::prelude::*;

verus! {

/// The name, summary and usage of each command, in the order in which they are listed.
pub open spec fn builtin_table() -> Seq<(SlashCommandBuild, Seq<char>, Seq<char>, Seq<char>)> {
    seq![
        (SlashCommandBuild::Help, "help"@, "Show local slash commands"@, "/help"@),
        (SlashCommandBuild::Clear, "clear"@, "Clear session history"@, "/clear"@),
        (SlashCommandBuild::Quit, "quit"@, "Quit coox-cli"@, "/quit"@),
        (SlashCommandBuild::Model, "model"@, "Show or switch model"@, "/model [id]"@),
        (SlashCommandBuild::Stop, "stop"@, "Abort the active turn"@, "/stop"@),
        (SlashCommandBuild::Pause, "pause"@, "Pause the active turn"@, "/pause"@),
        (SlashCommandBuild::Resume, "resume"@, "Resume the active turn"@, "/resume"@),
    ]
}

fn command(
    build: SlashCommandBuild,
    name: &'static str,
    summary: &'static str,
    usage: &'static str,
) -> (command: SlashCommand)
    ensures
        command.build == build,
        command.spec.name == name,
        command.spec.summary == summary,
        command.spec.usage == usage,
{
    SlashCommand { spec: SlashCommandSpec { name, summary, usage }, build }
}

pub fn builtins() -> (registry: SlashCommandRegistry)
    ensures
        registry.commands@.len() == builtin_table().len(),
        forall|i: int|
            0 <= i < registry.commands@.len() ==> {
                let command = #[trigger] registry.commands@[i];
                (command.build, command.spec.name@, command.spec.summary@, command.spec.usage@)
                    == builtin_table()[i]
            },
{
    let mut commands: Vec<SlashCommand> = Vec::new();
    commands.push(command(SlashCommandBuild::Help, "help", "Show local slash commands", "/help"));
    commands.push(command(SlashCommandBuild::Clear, "clear", "Clear session history", "/clear"));
    commands.push(command(SlashCommandBuild::Quit, "quit", "Quit coox-cli", "/quit"));
    commands.push(
        command(SlashCommandBuild::Model, "model", "Show or switch model", "/model [id]"),
    );
    commands.push(command(SlashCommandBuild::Stop, "stop", "Abort the active turn", "/stop"));
    commands.push(command(SlashCommandBuild::Pause, "pause", "Pause the active turn", "/pause"));
    commands.push(command(SlashCommandBuild::Resume, "resume", "Resume the active turn", "/resume"));
    SlashCommandRegistry::new(commands)
}

/// How a command that takes no arguments is written.
pub open spec fn usage_of(build: SlashCommandBuild) -> Seq<char> {
    match build {
        SlashCommandBuild::Help => "/help"@,
        SlashCommandBuild::Clear => "/clear"@,
        SlashCommandBuild::Quit => "/quit"@,
        SlashCommandBuild::Model => "/model [id]"@,
        SlashCommandBuild::Stop => "/stop"@,
        SlashCommandBuild::Pause => "/pause"@,
        SlashCommandBuild::Resume => "/resume"@,
    }
}

/// What a command that takes no arguments asks for.
pub open spec fn plain_commands(build: SlashCommandBuild) -> Seq<CommandView> {
    match build {
        SlashCommandBuild::Help => seq![CommandView::ShowHelp],
        SlashCommandBuild::Clear => seq![
            CommandView::ClearSessionHistory,
            CommandView::ClearConversation,
        ],
        SlashCommandBuild::Quit => seq![CommandView::Quit],
        SlashCommandBuild::Model => Seq::empty(),
        SlashCommandBuild::Stop => seq![CommandView::StopTurn],
        SlashCommandBuild::Pause => seq![CommandView::PauseTurn],
        SlashCommandBuild::Resume => seq![CommandView::ResumeTurn],
    }
}

/// Whether a text has white space in it.
pub open spec fn has_white_space(text: Seq<char>) -> bool {
    exists|i: int| 0 <= i < text.len() && chars::is_white_space(#[trigger] text[i])
}

/// What a command asks for. Without arguments `model` tells the model, with one it switches to it;
/// the other commands take no arguments.
pub open spec fn built(build: SlashCommandBuild, args: Seq<char>, model_id: Seq<char>) -> Result<
    Seq<CommandView>,
    ErrorView,
> {
    let text = chars::trimmed(args);
    if build == SlashCommandBuild::Model {
        if text.len() == 0 {
            Ok(seq![CommandView::PushCommandOutput("model: "@ + model_id)])
        } else if has_white_space(text) {
            Err(ErrorView::Usage { message: "too many arguments"@, usage: usage_of(build) })
        } else {
            Ok(seq![CommandView::SwitchModel(text)])
        }
    } else if input::is_blank(args) {
        Ok(plain_commands(build))
    } else {
        Err(ErrorView::Usage { message: "unexpected arguments"@, usage: usage_of(build) })
    }
}

/// No command asks for more than two things.
pub proof fn lemma_built_len(build: SlashCommandBuild, args: Seq<char>, model_id: Seq<char>)
    ensures
        built(build, args, model_id) matches Ok(commands) ==> commands.len() <= 2,
{
}

fn ui(command: UiCommand) -> (commands: Vec<AppCommand>)
    ensures
        commands@ == seq![AppCommand::Ui(command)],
{
    let mut commands: Vec<AppCommand> = Vec::new();
    commands.push(AppCommand::Ui(command));
    assert(commands@ =~= seq![AppCommand::Ui(command)]);
    commands
}

fn runtime(command: RuntimeCommand) -> (commands: Vec<AppCommand>)
    ensures
        commands@ == seq![AppCommand::Runtime(command)],
{
    let mut commands: Vec<AppCommand> = Vec::new();
    commands.push(AppCommand::Runtime(command));
    assert(commands@ =~= seq![AppCommand::Runtime(command)]);
    commands
}

fn usage_text(build: SlashCommandBuild) -> (usage: &'static str)
    ensures
        usage@ == usage_of(build),
{
    match build {
        SlashCommandBuild::Help => "/help",
        SlashCommandBuild::Clear => "/clear",
        SlashCommandBuild::Quit => "/quit",
        SlashCommandBuild::Model => "/model [id]",
        SlashCommandBuild::Stop => "/stop",
        SlashCommandBuild::Pause => "/pause",
        SlashCommandBuild::Resume => "/resume",
    }
}

fn contains_white_space(text: &Vec<char>) -> (found: bool)
    ensures
        found == has_white_space(text@),
{
    let mut i: usize = 0;
    while i < text.len()
        invariant
            i <= text@.len(),
            forall|j: int| 0 <= j < i ==> !chars::is_white_space(#[trigger] text@[j]),
        decreases text@.len() - i,
    {
        if text[i].is_whitespace() {
            return true;
        }
        i = i + 1;
    }
    false
}

fn build_model(args: &str, snapshot: &SessionSnapshot) -> (commands: Result<
    Vec<AppCommand>,
    SlashError,
>)
    ensures
        match commands {
            Ok(commands) => built(SlashCommandBuild::Model, args@, snapshot.model_id@) == Ok::<
                Seq<CommandView>,
                ErrorView,
            >(app_command::command_views(commands@)),
            Err(error) => built(SlashCommandBuild::Model, args@, snapshot.model_id@) == Err::<
                Seq<CommandView>,
                ErrorView,
            >(error@),
        },
{
    let argument = chars::trim_chars(&chars::chars_of(args));
    if argument.len() == 0 {
        let mut text: String = "model: ".to_owned();
        text.append(snapshot.model_id);
        let commands = ui(UiCommand::PushCommandOutput(text));
        assert(app_command::command_views(commands@) =~= seq![
            CommandView::PushCommandOutput(text@),
        ]);
        return Ok(commands);
    }
    if contains_white_space(&argument) {
        return Err(
            SlashError::Usage {
                message: "too many arguments".to_owned(),
                usage: usage_text(SlashCommandBuild::Model),
            },
        );
    }
    let model = chars::text_of(argument.as_slice(), 0, argument.len());
    assert(model@ =~= argument@);
    let commands = runtime(RuntimeCommand::SwitchModel(model));
    assert(app_command::command_views(commands@) =~= seq![CommandView::SwitchModel(model@)]);
    Ok(commands)
}

/// What a command asks for.
pub fn build_commands(build: SlashCommandBuild, args: &str, snapshot: &SessionSnapshot) -> (commands: Result<
    Vec<AppCommand>,
    SlashError,
>)
    ensures
        match commands {
            Ok(commands) => built(build, args@, snapshot.model_id@) == Ok::<
                Seq<CommandView>,
                ErrorView,
            >(app_command::command_views(commands@)),
            Err(error) => built(build, args@, snapshot.model_id@) == Err::<
                Seq<CommandView>,
                ErrorView,
            >(error@),
        },
{
    if build == SlashCommandBuild::Model {
        return build_model(args, snapshot);
    }
    if !input::blank(args) {
        return Err(
            SlashError::Usage {
                message: "unexpected arguments".to_owned(),
                usage: usage_text(build),
            },
        );
    }
    let commands = match build {
        SlashCommandBuild::Help => ui(UiCommand::ShowHelp),
        SlashCommandBuild::Clear => {
            let mut commands = runtime(RuntimeCommand::ClearSessionHistory);
            commands.push(AppCommand::Ui(UiCommand::ClearConversation));
            commands
        },
        SlashCommandBuild::Quit => ui(UiCommand::Quit),
        SlashCommandBuild::Model => Vec::new(),
        SlashCommandBuild::Stop => runtime(RuntimeCommand::StopTurn),
        SlashCommandBuild::Pause => runtime(RuntimeCommand::PauseTurn),
        SlashCommandBuild::Resume => runtime(RuntimeCommand::ResumeTurn),
    };
    assert(app_command::command_views(commands@) =~= plain_commands(build));
    Ok(commands)
}

/// A command that takes no arguments does what it is named for, and is refused with its usage where
/// anything but white space follows its name.
pub proof fn law_commands_do_what_they_are_named_for(args: Seq<char>, model_id: Seq<char>, at: int)
    ensures
        (forall|i: int| 0 <= i < args.len() ==> chars::is_white_space(#[trigger] args[i])) ==> {
            &&& built(SlashCommandBuild::Help, args, model_id) == Ok::<Seq<CommandView>, ErrorView>(
                seq![CommandView::ShowHelp],
            )
            &&& built(SlashCommandBuild::Clear, args, model_id) == Ok::<
                Seq<CommandView>,
                ErrorView,
            >(seq![CommandView::ClearSessionHistory, CommandView::ClearConversation])
            &&& built(SlashCommandBuild::Quit, args, model_id) == Ok::<Seq<CommandView>, ErrorView>(
                seq![CommandView::Quit],
            )
            &&& built(SlashCommandBuild::Stop, args, model_id) == Ok::<Seq<CommandView>, ErrorView>(
                seq![CommandView::StopTurn],
            )
            &&& built(SlashCommandBuild::Pause, args, model_id) == Ok::<
                Seq<CommandView>,
                ErrorView,
            >(seq![CommandView::PauseTurn])
            &&& built(SlashCommandBuild::Resume, args, model_id) == Ok::<
                Seq<CommandView>,
                ErrorView,
            >(seq![CommandView::ResumeTurn])
        },
        0 <= at < args.len() && !chars::is_white_space(args[at]) ==> forall|k: int|
            0 <= k < builtin_table().len() && (#[trigger] builtin_table()[k]).0
                != SlashCommandBuild::Model ==> built(builtin_table()[k].0, args, model_id) == Err::<
                Seq<CommandView>,
                ErrorView,
            >(
                ErrorView::Usage {
                    message: "unexpected arguments"@,
                    usage: builtin_table()[k].3,
                },
            ),
{
}

/// Without an argument the model is told; with one it is switched to, whatever white space stands
/// round it; more than one is refused.
pub proof fn law_models_are_told_or_switched(
    before: Seq<char>,
    model: Seq<char>,
    after: Seq<char>,
    model_id: Seq<char>,
)
    requires
        forall|i: int| 0 <= i < before.len() ==> chars::is_white_space(#[trigger] before[i]),
        forall|i: int| 0 <= i < after.len() ==> chars::is_white_space(#[trigger] after[i]),
        model.len() > 0 ==> !chars::is_white_space(model[0]) && !chars::is_white_space(
            model.last(),
        ),
    ensures
        ({
            let asked = built(SlashCommandBuild::Model, before + model + after, model_id);
            &&& model.len() == 0 ==> asked == Ok::<Seq<CommandView>, ErrorView>(
                seq![CommandView::PushCommandOutput("model: "@ + model_id)],
            )
            &&& model.len() > 0 && (forall|i: int|
                0 <= i < model.len() ==> !chars::is_white_space(#[trigger] model[i])) ==> asked
                == Ok::<Seq<CommandView>, ErrorView>(seq![CommandView::SwitchModel(model)])
            &&& (exists|i: int|
                0 <= i < model.len() && chars::is_white_space(#[trigger] model[i])) ==> asked
                == Err::<Seq<CommandView>, ErrorView>(
                ErrorView::Usage { message: "too many arguments"@, usage: "/model [id]"@ },
            )
        }),
{
    chars::law_trimming_gives_the_middle(before, model, after);
}

} // verus!
