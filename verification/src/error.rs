//! What can go wrong between reading the arguments and reporting the matches.

use vstd::prelude::*;
use vstd::string::StringExecFns;

verus! {

/// `core::str::Utf8Error`, carried through as it comes; nothing is known of
/// what it holds.
#[verifier::external_type_specification]
#[verifier::external_body]
pub struct ExUtf8Error(core::str::Utf8Error);

/// `std::io::Error`, carried through as it comes; nothing is known of what it
/// holds.
#[verifier::external_type_specification]
#[verifier::external_body]
pub struct ExIoError(std::io::Error);

/// Why a search did not produce a report.
#[derive(Debug)]
pub enum MinigrepError {
    /// No search phrase was given, or an empty one.
    QueryMissing,
    /// An option that is not known, as it was written.
    UnknownArgument(String),
    /// A path that names neither a file nor a directory.
    PathInaccessible(String),
    /// A source could not be read.
    IoError(std::io::Error),
    /// A line that was to be reported is not UTF-8.
    Utf8Error(core::str::Utf8Error),
    /// Nothing was found.
    NoResults,
    /// The usage text was asked for; not a failure, but it ends the run.
    Help,
}

/// An error with its texts as plain sequences of characters.
pub enum ErrorView {
    QueryMissing,
    UnknownArgument(Seq<char>),
    PathInaccessible(Seq<char>),
    IoError(std::io::Error),
    Utf8Error(core::str::Utf8Error),
    NoResults,
    Help,
}

impl View for MinigrepError {
    type V = ErrorView;

    open spec fn view(&self) -> ErrorView {
        match *self {
            MinigrepError::QueryMissing => ErrorView::QueryMissing,
            MinigrepError::UnknownArgument(arg) => ErrorView::UnknownArgument(arg@),
            MinigrepError::PathInaccessible(path) => ErrorView::PathInaccessible(path@),
            MinigrepError::IoError(error) => ErrorView::IoError(error),
            MinigrepError::Utf8Error(error) => ErrorView::Utf8Error(error),
            MinigrepError::NoResults => ErrorView::NoResults,
            MinigrepError::Help => ErrorView::Help,
        }
    }
}

impl MinigrepError {
    /// The message for every variant that carries no error of the standard library.
    pub open spec fn fixed_message(self) -> Option<Seq<char>> {
        match self {
            MinigrepError::QueryMissing => Some("Provide a search phrase. Use --help."@),
            MinigrepError::UnknownArgument(arg) => Some("Unknown argument '"@ + arg@ + "'"@),
            MinigrepError::PathInaccessible(path) => Some(
                "Could not access path '"@ + path@ + "'."@,
            ),
            MinigrepError::IoError(_) => None,
            MinigrepError::Utf8Error(_) => None,
            MinigrepError::NoResults => Some("No results found."@),
            MinigrepError::Help => Some(Seq::empty()),
        }
    }

    /// The text shown to the user for this error. For a read or a decoding
    /// failure it is the standard library's own description of it.
    pub fn message(&self) -> (text: String)
        ensures
            self.fixed_message() matches Some(expected) ==> text@ == expected,
    {
        match self {
            MinigrepError::QueryMissing => String::from_str("Provide a search phrase. Use --help."),
            MinigrepError::UnknownArgument(arg) => {
                let mut text = String::from_str("Unknown argument '");
                text.append(arg.as_str());
                text.append("'");
                text
            },
            MinigrepError::PathInaccessible(path) => {
                let mut text = String::from_str("Could not access path '");
                text.append(path.as_str());
                text.append("'.");
                text
            },
            MinigrepError::IoError(error) => describe_io_error(error),
            MinigrepError::Utf8Error(error) => describe_utf8_error(error),
            MinigrepError::NoResults => String::from_str("No results found."),
            MinigrepError::Help => String::new(),
        }
    }
}

/// `Display` of `std::io::Error`. The text comes from the operating system or
/// from whoever made the error, so nothing is claimed of it.
#[verifier::external_body]
pub(crate) fn describe_io_error(error: &std::io::Error) -> String {
    format!("{error}")
}

/// `Display` of `core::str::Utf8Error`. Nothing is claimed of the text.
#[verifier::external_body]
fn describe_utf8_error(error: &core::str::Utf8Error) -> String {
    format!("{error}")
}

impl From<std::io::Error> for MinigrepError {
    fn from(error: std::io::Error) -> (r: MinigrepError) {
        MinigrepError::IoError(error)
    }
}

impl vstd::std_specs::convert::FromSpecImpl<std::io::Error> for MinigrepError {
    open spec fn obeys_from_spec() -> bool {
        true
    }

    open spec fn from_spec(error: std::io::Error) -> MinigrepError {
        MinigrepError::IoError(error)
    }
}

impl From<core::str::Utf8Error> for MinigrepError {
    fn from(error: core::str::Utf8Error) -> (r: MinigrepError) {
        MinigrepError::Utf8Error(error)
    }
}

impl vstd::std_specs::convert::FromSpecImpl<core::str::Utf8Error> for MinigrepError {
    open spec fn obeys_from_spec() -> bool {
        true
    }

    open spec fn from_spec(error: core::str::Utf8Error) -> MinigrepError {
        MinigrepError::Utf8Error(error)
    }
}

} // verus!
