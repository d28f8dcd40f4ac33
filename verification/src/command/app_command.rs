//! What commands can ask of the application.

use vstd::prelude::*;

verus! {

#[derive(Debug, PartialEq, Eq)]
pub enum AppCommand {
    Ui(UiCommand),
    Runtime(RuntimeCommand),
}

#[derive(Debug, PartialEq, Eq)]
pub enum UiCommand {
    ShowHelp,
    ClearConversation,
    PushCommandOutput(String),
    Scroll { rows: i32 },
    ScrollToBottom,
    Quit,
}

#[derive(Debug, PartialEq, Eq)]
pub enum RuntimeCommand {
    ClearSessionHistory,
    SwitchModel(String),
    StopTurn,
    PauseTurn,
    ResumeTurn,
}

/// A command, with its text.
pub enum CommandView {
    ShowHelp,
    ClearConversation,
    PushCommandOutput(Seq<char>),
    Scroll(i32),
    ScrollToBottom,
    Quit,
    ClearSessionHistory,
    SwitchModel(Seq<char>),
    StopTurn,
    PauseTurn,
    ResumeTurn,
}

impl View for AppCommand {
    type V = CommandView;

    open spec fn view(&self) -> CommandView {
        match self {
            AppCommand::Ui(command) => match command {
                UiCommand::ShowHelp => CommandView::ShowHelp,
                UiCommand::ClearConversation => CommandView::ClearConversation,
                UiCommand::PushCommandOutput(text) => CommandView::PushCommandOutput(text@),
                UiCommand::Scroll { rows } => CommandView::Scroll(*rows),
                UiCommand::ScrollToBottom => CommandView::ScrollToBottom,
                UiCommand::Quit => CommandView::Quit,
            },
            AppCommand::Runtime(command) => match command {
                RuntimeCommand::ClearSessionHistory => CommandView::ClearSessionHistory,
                RuntimeCommand::SwitchModel(model) => CommandView::SwitchModel(model@),
                RuntimeCommand::StopTurn => CommandView::StopTurn,
                RuntimeCommand::PauseTurn => CommandView::PauseTurn,
                RuntimeCommand::ResumeTurn => CommandView::ResumeTurn,
            },
        }
    }
}

pub open spec fn command_views(commands: Seq<AppCommand>) -> Seq<CommandView> {
    Seq::new(commands.len(), |i: int| commands[i]@)
}

} // verus!
