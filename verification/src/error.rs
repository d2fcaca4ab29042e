//! The errors of command dispatch.

use vstd::prelude::*;
use crate::value::ParamKind;

verus! {

/// Why an invocation did not run, or what the handler reported.
#[derive(Debug, PartialEq, Eq)]
pub enum CommandError {
    /// No command is registered under this name.
    UnknownCommand(String),
    /// A token names a parameter that the schema does not have, or is a value for which
    /// no parameter is left.
    UnknownArgument(String),
    /// The required parameter of this name was given no value.
    MissingRequiredArgument(String),
    /// The parameter of this name has the given kind, and the given text is no literal of
    /// that kind.
    TypeMismatch(String, ParamKind, String),
    /// The handler failed, with this message.
    HandlerError(String),
}

/// What a [`CommandError`] stands for.
pub enum CommandErrorView {
    UnknownCommand(Seq<char>),
    UnknownArgument(Seq<char>),
    MissingRequiredArgument(Seq<char>),
    TypeMismatch(Seq<char>, ParamKind, Seq<char>),
    HandlerError(Seq<char>),
}

impl View for CommandError {
    type V = CommandErrorView;

    open spec fn view(&self) -> CommandErrorView {
        match self {
            CommandError::UnknownCommand(name) => CommandErrorView::UnknownCommand(name@),
            CommandError::UnknownArgument(name) => CommandErrorView::UnknownArgument(name@),
            CommandError::MissingRequiredArgument(name) => CommandErrorView::MissingRequiredArgument(
                name@,
            ),
            CommandError::TypeMismatch(name, kind, raw) => CommandErrorView::TypeMismatch(
                name@,
                *kind,
                raw@,
            ),
            CommandError::HandlerError(message) => CommandErrorView::HandlerError(message@),
        }
    }
}

impl Clone for CommandError {
    fn clone(&self) -> (copy: Self)
        ensures
            copy@ == self@,
    {
        match self {
            CommandError::UnknownCommand(name) => CommandError::UnknownCommand(name.clone()),
            CommandError::UnknownArgument(name) => CommandError::UnknownArgument(name.clone()),
            CommandError::MissingRequiredArgument(name) => CommandError::MissingRequiredArgument(
                name.clone(),
            ),
            CommandError::TypeMismatch(name, kind, raw) => CommandError::TypeMismatch(
                name.clone(),
                *kind,
                raw.clone(),
            ),
            CommandError::HandlerError(message) => CommandError::HandlerError(message.clone()),
        }
    }
}

} // verus!
