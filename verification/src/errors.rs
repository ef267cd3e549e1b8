//! The fatal conditions of a reconstruction run. Every one of them aborts
//! the run as a whole: there is no partial output.
use vstd::prelude::*;

verus! {

/// A fatal condition, by cause.
#[derive(Debug, Clone, PartialEq, Eq)]
pub enum Error {
    /// A directive's quoted file path could not be resolved to a real
    /// filesystem path.
    PathNotFound { filename: String },
    /// A replaceable header's absolute path is not under any indexed
    /// search directory.
    NotInSearchPaths { path: String },
    /// A compilation-database record for the target file carries neither
    /// a command string nor an argument list.
    MissingCommandEntry,
    /// A compilation-database command string could not be split into
    /// arguments.
    CommandParseFailed { command: String },
    /// A configured inline-override path does not exist on the filesystem.
    InlinePathInvalid { path: String },
    /// A search directory reported by the preprocessor does not exist on
    /// the filesystem.
    SearchPathInvalid { path: String },
}

/// The mathematical image of an [`Error`]: the same cases over character
/// sequences.
pub ghost enum ErrorSpec {
    PathNotFound { filename: Seq<char> },
    NotInSearchPaths { path: Seq<char> },
    MissingCommandEntry,
    CommandParseFailed { command: Seq<char> },
    InlinePathInvalid { path: Seq<char> },
    SearchPathInvalid { path: Seq<char> },
}

impl View for Error {
    type V = ErrorSpec;

    open spec fn view(&self) -> ErrorSpec {
        match self {
            Error::PathNotFound { filename } => ErrorSpec::PathNotFound { filename: filename@ },
            Error::NotInSearchPaths { path } => ErrorSpec::NotInSearchPaths { path: path@ },
            Error::MissingCommandEntry => ErrorSpec::MissingCommandEntry,
            Error::CommandParseFailed { command } => ErrorSpec::CommandParseFailed {
                command: command@,
            },
            Error::InlinePathInvalid { path } => ErrorSpec::InlinePathInvalid { path: path@ },
            Error::SearchPathInvalid { path } => ErrorSpec::SearchPathInvalid { path: path@ },
        }
    }
}

impl Error {
    /// A short, stable description of the cause, for reporting.
    pub fn describe(&self) -> (r: String)
        ensures
            r@ == self.describe_spec(),
    {
        match self {
            Error::PathNotFound { filename } => String::from_str(
                "include file in preprocessor output does not exist: ",
            ).concat(filename.as_str()),
            Error::NotInSearchPaths { path } => String::from_str(
                "path is not in search paths: ",
            ).concat(path.as_str()),
            Error::MissingCommandEntry => String::from_str(
                "compile_commands.json: no command or arguments",
            ),
            Error::CommandParseFailed { command } => String::from_str(
                "compile_commands.json: failed to parse command: ",
            ).concat(command.as_str()),
            Error::InlinePathInvalid { path } => String::from_str(
                "invalid inline path: ",
            ).concat(path.as_str()),
            Error::SearchPathInvalid { path } => String::from_str(
                "preprocessor search path does not exist: ",
            ).concat(path.as_str()),
        }
    }

    /// What [`Error::describe`] returns for each cause.
    pub open spec fn describe_spec(&self) -> Seq<char> {
        match self {
            Error::PathNotFound { filename } => "include file in preprocessor output does not exist: "@
                + filename@,
            Error::NotInSearchPaths { path } => "path is not in search paths: "@ + path@,
            Error::MissingCommandEntry => "compile_commands.json: no command or arguments"@,
            Error::CommandParseFailed { command } => "compile_commands.json: failed to parse command: "@
                + command@,
            Error::InlinePathInvalid { path } => "invalid inline path: "@ + path@,
            Error::SearchPathInvalid { path } => "preprocessor search path does not exist: "@
                + path@,
        }
    }
}

} // verus!
