//! The editing commands that the preprocessor hands to its host.

use vstd::prelude::*;

verus! {

/// An edit that the host applies to its text surface.
#[derive(Clone, Debug, PartialEq, Eq)]
pub enum Command {
    /// Insert the text.
    CommitText(String),
    /// Stop listening to the keyboard: what follows is the engine's own typing.
    Pause,
    /// Listen to the keyboard again.
    Resume,
    /// Take back the last insertion, which was the text.
    Delete(String),
}

/// The mathematical value of a [`Command`].
pub enum CommandView {
    CommitText(Seq<char>),
    Pause,
    Resume,
    Delete(Seq<char>),
}

impl View for Command {
    type V = CommandView;

    open spec fn view(&self) -> CommandView {
        match self {
            Command::CommitText(text) => CommandView::CommitText(text@),
            Command::Pause => CommandView::Pause,
            Command::Resume => CommandView::Resume,
            Command::Delete(text) => CommandView::Delete(text@),
        }
    }
}

impl DeepView for Command {
    type V = CommandView;

    open spec fn deep_view(&self) -> CommandView {
        self@
    }
}

/// The value of a command that may be missing.
pub open spec fn option_command_view(command: Option<Command>) -> Option<CommandView> {
    match command {
        Some(c) => Some(c@),
        None => None,
    }
}

} // verus!
