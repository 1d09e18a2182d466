//! The errors of a search in a single path.

use vstd::prelude::*;
use vstd::string::StringExecFns;

verus! {

/// What is wrong with the arguments of a search in a single path.
#[derive(Debug)]
pub enum MinigrepArgsError {
    /// No query was given.
    QueryMissing,
    /// No path was given.
    PathMissing,
    /// The query is more than one word.
    QueryWhitespace,
    /// Nothing is there under the path.
    PathNotFound(String),
}

/// The same, with its text as a plain sequence of characters.
pub enum ArgsErrorView {
    QueryMissing,
    PathMissing,
    QueryWhitespace,
    PathNotFound(Seq<char>),
}

impl View for MinigrepArgsError {
    type V = ArgsErrorView;

    open spec fn view(&self) -> ArgsErrorView {
        match *self {
            MinigrepArgsError::QueryMissing => ArgsErrorView::QueryMissing,
            MinigrepArgsError::PathMissing => ArgsErrorView::PathMissing,
            MinigrepArgsError::QueryWhitespace => ArgsErrorView::QueryWhitespace,
            MinigrepArgsError::PathNotFound(path) => ArgsErrorView::PathNotFound(path@),
        }
    }
}

/// The message for each of these errors.
pub open spec fn args_message(e: ArgsErrorView) -> Seq<char> {
    match e {
        ArgsErrorView::QueryMissing => "Provide a search query."@,
        ArgsErrorView::PathMissing => "Provide a file path."@,
        ArgsErrorView::QueryWhitespace => "Search query cannot include whitespace."@,
        ArgsErrorView::PathNotFound(path) => "Could not find path '"@ + path + "'."@,
    }
}

impl MinigrepArgsError {
    /// The text shown to the user for this error.
    pub fn message(&self) -> (text: String)
        ensures
            text@ == args_message(self@),
    {
        match self {
            MinigrepArgsError::QueryMissing => String::from_str("Provide a search query."),
            MinigrepArgsError::PathMissing => String::from_str("Provide a file path."),
            MinigrepArgsError::QueryWhitespace => String::from_str(
                "Search query cannot include whitespace.",
            ),
            MinigrepArgsError::PathNotFound(path) => {
                let mut text = String::from_str("Could not find path '");
                text.append(path.as_str());
                text.append("'.");
                text
            },
        }
    }
}

/// Why a search in a single path did not produce a report.
#[derive(Debug)]
pub enum MinigrepError {
    /// The arguments were not in order.
    BadArgs(MinigrepArgsError),
    /// The file could not be read.
    IoError(std::io::Error),
    /// Nothing was found.
    NoResults,
}

impl MinigrepError {
    /// The message for every variant that carries no error of the standard
    /// library.
    pub open spec fn fixed_message(self) -> Option<Seq<char>> {
        match self {
            MinigrepError::BadArgs(e) => Some(args_message(e@)),
            MinigrepError::IoError(_) => None,
            MinigrepError::NoResults => Some("No results found."@),
        }
    }

    /// The text shown to the user for this error. For a read failure it is
    /// the standard library's own description of it.
    pub fn message(&self) -> (text: String)
        ensures
            self.fixed_message() matches Some(expected) ==> text@ == expected,
    {
        match self {
            MinigrepError::BadArgs(e) => e.message(),
            MinigrepError::IoError(error) => crate::error::describe_io_error(error),
            MinigrepError::NoResults => String::from_str("No results found."),
        }
    }
}

impl From<std::io::Error> for MinigrepError {
    fn from(error: std::io::Error) -> (r: MinigrepError) {
        MinigrepError::IoError(error)
    }
}

impl vstd::std_specs::convert::FromSpecImpl<std::io::Error> for MinigrepError {
    open spec fn obeys_from_spec() -> bool {
        true
    }

    open spec fn from_spec(error: std::io::Error) -> MinigrepError {
        MinigrepError::IoError(error)
    }
}

impl From<MinigrepArgsError> for MinigrepError {
    fn from(error: MinigrepArgsError) -> (r: MinigrepError) {
        MinigrepError::BadArgs(error)
    }
}

impl vstd::std_specs::convert::FromSpecImpl<MinigrepArgsError> for MinigrepError {
    open spec fn obeys_from_spec() -> bool {
        true
    }

    open spec fn from_spec(error: MinigrepArgsError) -> MinigrepError {
        MinigrepError::BadArgs(error)
    }
}

} // verus!
