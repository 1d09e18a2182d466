//! The request for a search in a single path: a query of one word and a
//! path under which something is there.

use vstd::prelude::*;
use vstd::string::{StrSliceExecFns, StringExecFns};
use crate::minigrep_error::{ArgsErrorView, MinigrepArgsError};

verus! {

/// Whether a character is white space, as Unicode defines it.
pub open spec fn is_white_space(c: char) -> bool {
    let code = c as u32;
    ||| 0x9 <= code <= 0xd
    ||| code == 0x20
    ||| code == 0x85
    ||| code == 0xa0
    ||| code == 0x1680
    ||| 0x2000 <= code <= 0x200a
    ||| code == 0x2028
    ||| code == 0x2029
    ||| code == 0x202f
    ||| code == 0x205f
    ||| code == 0x3000
}

/// Whether a word begins at position `i`.
pub open spec fn word_starts_at(text: Seq<char>, i: int) -> bool {
    &&& 0 <= i < text.len()
    &&& !is_white_space(text[i])
    &&& i == 0 || is_white_space(text[i - 1])
}

/// Whether a text holds two words or more.
pub open spec fn several_words(text: Seq<char>) -> bool {
    exists|i: int, j: int|
        i < j && #[trigger] word_starts_at(text, i) && #[trigger] word_starts_at(text, j)
}

/// A request for a search in one path, as plain values.
pub struct ArgsView {
    pub query: Seq<char>,
    pub path: Seq<char>,
}

/// A request is good when its query is one word at most and something is
/// there under its path; the query is looked at first.
pub open spec fn validated(v: ArgsView, path_exists: bool) -> Result<ArgsView, ArgsErrorView> {
    if several_words(v.query) {
        Err(ArgsErrorView::QueryWhitespace)
    } else if !path_exists {
        Err(ArgsErrorView::PathNotFound(v.path))
    } else {
        Ok(v)
    }
}

/// What a command line asks for: its first argument is the query, its second
/// the path, and what follows is not looked at.
pub open spec fn parsed(args: Seq<Seq<char>>, path_exists: bool) -> Result<
    ArgsView,
    ArgsErrorView,
> {
    if args.len() == 0 {
        Err(ArgsErrorView::QueryMissing)
    } else if args.len() == 1 {
        Err(ArgsErrorView::PathMissing)
    } else {
        validated(ArgsView { query: args[0], path: args[1] }, path_exists)
    }
}

/// The outcome of making a request, as plain values.
pub open spec fn outcome_view(r: Result<MinigrepArgs, MinigrepArgsError>) -> Result<
    ArgsView,
    ArgsErrorView,
> {
    match r {
        Ok(args) => Ok(args@),
        Err(e) => Err(e@),
    }
}

/// Tells white space.
fn white_space(c: char) -> (r: bool)
    ensures
        r == is_white_space(c),
{
    let code = c as u32;
    (0x9 <= code && code <= 0xd) || code == 0x20 || code == 0x85 || code == 0xa0 || code == 0x1680
        || (0x2000 <= code && code <= 0x200a) || code == 0x2028 || code == 0x2029 || code
        == 0x202f || code == 0x205f || code == 0x3000
}

/// Tells a text of two words or more.
fn has_several_words(text: &str) -> (r: bool)
    ensures
        r == several_words(text@),
{
    let n = text.unicode_len();
    let mut seen: bool = false;
    let mut after_space: bool = true;
    let ghost mut first: int = 0;
    let mut i: usize = 0;
    while i < n
        invariant
            i <= n,
            n == text@.len(),
            after_space == (i == 0 || is_white_space(text@[i - 1])),
            seen ==> first < i && word_starts_at(text@, first),
            forall|j: int| 0 <= j < i && word_starts_at(text@, j) ==> seen && j == first,
        decreases n - i,
    {
        let space = white_space(text.get_char(i));
        if !space && after_space {
            if seen {
                assert(word_starts_at(text@, i as int));
                return true;
            }
            seen = true;
            proof {
                first = i as int;
            }
        }
        after_space = space;
        i = i + 1;
    }
    false
}

/// A validated request for a search in one path.
#[derive(Debug)]
pub struct MinigrepArgs {
    query: String,
    path: String,
}

impl View for MinigrepArgs {
    type V = ArgsView;

    closed spec fn view(&self) -> ArgsView {
        ArgsView { query: self.query@, path: self.path@ }
    }
}

impl MinigrepArgs {
    /// A request for `query` in `path`; `path_exists` says whether anything is
    /// there under the path.
    pub fn new(query: &str, path: &str, path_exists: bool) -> (r: Result<
        MinigrepArgs,
        MinigrepArgsError,
    >)
        ensures
            outcome_view(r) == validated(ArgsView { query: query@, path: path@ }, path_exists),
    {
        let minigrep_args = MinigrepArgs {
            query: String::from_str(query),
            path: String::from_str(path),
        };
        match minigrep_args.validate(path_exists) {
            Ok(()) => Ok(minigrep_args),
            Err(e) => Err(e),
        }
    }

    /// Reads a command line, without the name of the program; `path_exists`
    /// says whether anything is there under its second argument.
    pub fn from_env_args(args: &Vec<String>, path_exists: bool) -> (r: Result<
        MinigrepArgs,
        MinigrepArgsError,
    >)
        ensures
            outcome_view(r) == parsed(args.deep_view(), path_exists),
    {
        if args.len() == 0 {
            return Err(MinigrepArgsError::QueryMissing);
        }
        if args.len() == 1 {
            return Err(MinigrepArgsError::PathMissing);
        }
        let minigrep_args = MinigrepArgs { query: args[0].clone(), path: args[1].clone() };
        match minigrep_args.validate(path_exists) {
            Ok(()) => Ok(minigrep_args),
            Err(e) => Err(e),
        }
    }

    /// Says what is wrong with the request, if anything.
    fn validate(&self, path_exists: bool) -> (r: Result<(), MinigrepArgsError>)
        ensures
            match validated(self@, path_exists) {
                Ok(_) => r is Ok,
                Err(e) => r matches Err(found) && found@ == e,
            },
    {
        if has_several_words(self.query.as_str()) {
            return Err(MinigrepArgsError::QueryWhitespace);
        }
        if !path_exists {
            return Err(MinigrepArgsError::PathNotFound(self.path.clone()));
        }
        Ok(())
    }

    /// What is searched for.
    pub fn query(&self) -> (query: &str)
        ensures
            query@ == self@.query,
    {
        self.query.as_str()
    }

    /// Where it is searched for.
    pub fn path(&self) -> (path: &str)
        ensures
            path@ == self@.path,
    {
        self.path.as_str()
    }
}

} // verus!
