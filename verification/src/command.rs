//! The command line: `search [pattern]` and `add <key> <password>`.

use crate::text::texts_of;
use vstd::prelude::*;
use vstd::string::StringExecFns;

verus! {

/// The status with which the program ends after it has done what was asked.
pub const SUCCESS: i32 = 0;

/// The status with which the program ends after a refused command line, a
/// refused pattern or a declined retrieval.
pub const FAILURE: i32 = 1;

/// What a command is in contracts.
pub enum CommandView {
    Search { pattern: Seq<char> },
    Add { key: Seq<char>, password: Seq<char> },
}

/// What the user asks for.
#[derive(Clone, Debug, PartialEq, Eq)]
pub enum Command {
    /// Look up the entries whose key `pattern` matches.
    Search { pattern: String },
    /// Record `password` under `key`.
    Add { key: String, password: String },
}

impl View for Command {
    type V = CommandView;

    open spec fn view(&self) -> CommandView {
        match self {
            Command::Search { pattern } => CommandView::Search { pattern: pattern@ },
            Command::Add { key, password } => CommandView::Add { key: key@, password: password@ },
        }
    }
}

/// Why a command line was refused.
#[derive(Clone, Copy, Debug, PartialEq, Eq, Structural)]
pub enum UsageError {
    /// `add` without a key, or with an empty one.
    EmptyKey,
    /// `add` without a password, or with an empty one.
    EmptyPassword,
}

/// The argument at position `i`, or nothing where the command line is
/// shorter.
pub open spec fn argument(args: Seq<Seq<char>>, i: int) -> Seq<char> {
    if 0 <= i < args.len() {
        args[i]
    } else {
        Seq::empty()
    }
}

/// What the arguments that follow the program's name ask for. `search`
/// takes the next argument as its pattern, and an empty pattern where there
/// is none. `add` takes a key and a password, neither of them empty. Any
/// other first argument is itself the pattern of a search, and a command
/// line without arguments is a search with an empty pattern.
pub open spec fn command_of(args: Seq<Seq<char>>) -> Result<CommandView, UsageError> {
    if args.len() == 0 || args[0] == "search"@ {
        Ok(CommandView::Search { pattern: argument(args, 1) })
    } else if args[0] == "add"@ {
        if argument(args, 1).len() == 0 {
            Err(UsageError::EmptyKey)
        } else if argument(args, 2).len() == 0 {
            Err(UsageError::EmptyPassword)
        } else {
            Ok(CommandView::Add { key: args[1], password: args[2] })
        }
    } else {
        Ok(CommandView::Search { pattern: args[0] })
    }
}

/// What a parsed command line is in contracts.
pub open spec fn parsed_view(r: Result<Command, UsageError>) -> Result<CommandView, UsageError> {
    match r {
        Ok(c) => Ok(c@),
        Err(e) => Err(e),
    }
}

/// The argument at position `i`, or an empty one.
fn argument_at(args: &Vec<String>, i: usize) -> (a: String)
    ensures
        a@ == argument(texts_of(args@), i as int),
{
    if i < args.len() {
        args[i].clone()
    } else {
        String::new()
    }
}

/// Reads the arguments that follow the program's name.
pub fn parse_command(args: &Vec<String>) -> (r: Result<Command, UsageError>)
    ensures
        parsed_view(r) == command_of(texts_of(args@)),
{
    if args.len() == 0 {
        return Ok(Command::Search { pattern: String::new() });
    }
    let first = args[0].clone();
    assert(first@ == texts_of(args@)[0]);
    if first == String::from_str("search") {
        Ok(Command::Search { pattern: argument_at(args, 1) })
    } else if first == String::from_str("add") {
        let key = argument_at(args, 1);
        let password = argument_at(args, 2);
        if key.as_str().is_empty() {
            Err(UsageError::EmptyKey)
        } else if password.as_str().is_empty() {
            Err(UsageError::EmptyPassword)
        } else {
            Ok(Command::Add { key, password })
        }
    } else {
        Ok(Command::Search { pattern: first })
    }
}

} // verus!
