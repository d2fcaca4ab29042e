//! A developer console: commands with typed parameters that are invoked by a line of text,
//! and debug windows that commands can open and close.
//!
//! Code that offers a command registers it in a [`CommandRegistry`], under a name, with a
//! [`ParamSchema`] that declares its parameters and a handler. The host hands each line that
//! the operator types to [`CommandRegistry::invoke`], which parses the line against the
//! schema and calls the handler with the [`TypedArgs`]. Through the
//! [`ConsoleExecutionContext`] that it is given, a handler can open and close the windows
//! of a [`DebugWindowRegistry`].

pub mod args;
pub mod command;
pub mod context;
pub mod error;
pub mod literal;
pub mod naming;
pub mod parser;
pub mod schema;
pub mod search;
pub mod table;
pub mod text;
pub mod token;
pub mod value;
pub mod window;

pub use crate::args::TypedArgs;
pub use crate::command::{CommandEntry, CommandRegistry, Handler};
pub use crate::context::{ConsoleExecutionContext, WindowRequest};
pub use crate::error::CommandError;
pub use crate::parser::parse_args;
pub use crate::schema::{Param, ParamSchema};
pub use crate::token::{command_name, tokenize};
pub use crate::value::{FloatLiteral, ParamKind, Value};
pub use crate::window::{DebugWindowRegistry, WindowEntry};
