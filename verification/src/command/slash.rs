//! The slash commands that there are, and how one is looked up.

use crate::chars;
use crate::command::app_command;
use crate::command::app_command::{AppCommand, CommandView};
use crate::command::builtins;
use vstd::prelude::*;

verus! {

/// The name of a command, what it does, and how it is written.
#[derive(Debug, Clone, Copy)]
pub struct SlashCommandSpec {
    pub name: &'static str,
    pub summary: &'static str,
    pub usage: &'static str,
}

/// What a command does with its arguments.
#[derive(Debug, Clone, Copy, PartialEq, Eq, Structural)]
pub enum SlashCommandBuild {
    Help,
    Clear,
    Quit,
    Model,
    Stop,
    Pause,
    Resume,
}

#[derive(Debug, Clone, Copy)]
pub struct SlashCommand {
    pub spec: SlashCommandSpec,
    pub build: SlashCommandBuild,
}

impl SlashCommand {
    /// What the command asks of the application, or why it cannot.
    pub fn build(&self, args: &str, snapshot: &SessionSnapshot) -> (commands: Result<
        Vec<AppCommand>,
        SlashError,
    >)
        ensures
            match commands {
                Ok(commands) => builtins::built(self.build, args@, snapshot.model_id@) == Ok::<
                    Seq<CommandView>,
                    ErrorView,
                >(app_command::command_views(commands@)),
                Err(error) => builtins::built(self.build, args@, snapshot.model_id@) == Err::<
                    Seq<CommandView>,
                    ErrorView,
                >(error@),
            },
    {
        builtins::build_commands(self.build, args, snapshot)
    }
}

#[derive(Debug, PartialEq, Eq)]
pub enum SlashError {
    Usage { message: String, usage: &'static str },
    Message(String),
}

/// An error, with its texts.
pub enum ErrorView {
    Usage { message: Seq<char>, usage: Seq<char> },
    Message(Seq<char>),
}

impl View for SlashError {
    type V = ErrorView;

    open spec fn view(&self) -> ErrorView {
        match self {
            SlashError::Usage { message, usage } => ErrorView::Usage {
                message: message@,
                usage: usage@,
            },
            SlashError::Message(message) => ErrorView::Message(message@),
        }
    }
}

/// An error as it is shown.
pub open spec fn error_text(error: ErrorView) -> Seq<char> {
    match error {
        ErrorView::Usage { message, usage } => message + "\nusage: "@ + usage,
        ErrorView::Message(message) => message,
    }
}

impl SlashError {
    pub fn render(&self) -> (text: String)
        ensures
            text@ == error_text(self@),
    {
        match self {
            SlashError::Usage { message, usage } => {
                let mut text = message.clone();
                text.append("\nusage: ");
                text.append(usage);
                text
            },
            SlashError::Message(message) => message.clone(),
        }
    }
}

/// The commands that there are, in the order in which they are listed.
#[derive(Debug)]
pub struct SlashCommandRegistry {
    pub commands: Vec<SlashCommand>,
}

/// The place of the first command with a name among the first `count` commands.
pub open spec fn find_command(commands: Seq<SlashCommand>, name: Seq<char>, count: int) -> Option<
    int,
>
    decreases count,
{
    if count <= 0 {
        None
    } else {
        match find_command(commands, name, count - 1) {
            Some(i) => Some(i),
            None => if commands[count - 1].spec.name@ == name {
                Some(count - 1)
            } else {
                None
            },
        }
    }
}

impl SlashCommandRegistry {
    pub fn new(commands: Vec<SlashCommand>) -> (registry: SlashCommandRegistry)
        ensures
            registry.commands == commands,
    {
        SlashCommandRegistry { commands }
    }

    /// The first command with a name.
    pub fn find(&self, name: &str) -> (command: Option<&SlashCommand>)
        ensures
            match command {
                Some(command) => match find_command(
                    self.commands@,
                    name@,
                    self.commands@.len() as int,
                ) {
                    Some(i) => *command == self.commands@[i] && command.spec.name@ == name@,
                    None => false,
                },
                None => find_command(self.commands@, name@, self.commands@.len() as int) is None,
            },
    {
        let ghost total = self.commands@.len() as int;
        let mut i: usize = 0;
        while i < self.commands.len()
            invariant
                i <= self.commands@.len(),
                total == self.commands@.len(),
                find_command(self.commands@, name@, i as int) is None,
            decreases self.commands@.len() - i,
        {
            if chars::same_text(self.commands[i].spec.name, name) {
                proof {
                    lemma_find_command_stays(self.commands@, name@, i as int, total);
                }
                return Some(&self.commands[i]);
            }
            i = i + 1;
        }
        None
    }

    /// The commands, in the order in which they are listed.
    pub fn iter(&self) -> (commands: core::slice::Iter<'_, SlashCommand>)
        ensures
            vstd::std_specs::iter::IteratorSpec::remaining(&commands).unref() == self.commands@,
    {
        self.commands.as_slice().iter()
    }
}

proof fn lemma_find_command_stays(
    commands: Seq<SlashCommand>,
    name: Seq<char>,
    i: int,
    count: int,
)
    requires
        0 <= i < count <= commands.len(),
        find_command(commands, name, i) is None,
        commands[i].spec.name@ == name,
    ensures
        find_command(commands, name, count) == Some(i),
    decreases count,
{
    if count > i + 1 {
        lemma_find_command_stays(commands, name, i, count - 1);
    }
}

/// What a command can see of the session.
#[derive(Debug, Clone, Copy)]
pub struct SessionSnapshot<'a> {
    pub model_id: &'a str,
    pub turn_state: TurnSnapshot,
}

#[derive(Debug, Clone, Copy, PartialEq, Eq, Structural)]
pub enum TurnSnapshot {
    Idle,
    Running,
    Paused,
    PendingAck,
    Failed,
}

proof fn lemma_find_command(commands: Seq<SlashCommand>, name: Seq<char>, count: int)
    requires
        0 <= count <= commands.len(),
    ensures
        match find_command(commands, name, count) {
            Some(i) => 0 <= i < count && commands[i].spec.name@ == name && forall|j: int|
                0 <= j < i ==> (#[trigger] commands[j]).spec.name@ != name,
            None => forall|j: int|
                0 <= j < count ==> (#[trigger] commands[j]).spec.name@ != name,
        },
    decreases count,
{
    if count > 0 {
        lemma_find_command(commands, name, count - 1);
    }
}

/// A command is found by its whole name, the first one where several have it; a name that none has
/// is not found.
pub proof fn law_commands_are_found_by_name(
    commands: Seq<SlashCommand>,
    name: Seq<char>,
    at: int,
)
    ensures
        0 <= at < commands.len() && commands[at].spec.name@ == name && (forall|j: int|
            0 <= j < at ==> (#[trigger] commands[j]).spec.name@ != name) ==> find_command(
            commands,
            name,
            commands.len() as int,
        ) == Some(at),
        (forall|j: int| 0 <= j < commands.len() ==> (#[trigger] commands[j]).spec.name@ != name)
            ==> find_command(commands, name, commands.len() as int) is None,
{
    lemma_find_command(commands, name, commands.len() as int);
}

/// An error is shown with its message first, and with the usage where it is one of usage.
pub proof fn law_errors_are_shown_with_their_message(message: Seq<char>, usage: Seq<char>)
    ensures
        error_text(ErrorView::Message(message)) == message,
        error_text(ErrorView::Usage { message, usage }) == message + "\nusage: "@ + usage,
{
}

} // verus!
