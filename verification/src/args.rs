//! The request for a search: what to look for, where, and how.
//!
//! The arguments come as they were given on the command line, each with what
//! it names on disk. Options stand first and begin with a dash; the first
//! argument that is no option is the query, and all that follow are paths.

use vstd::prelude::*;
use vstd::string::{StrSliceExecFns, StringExecFns};
use crate::error::{ErrorView, MinigrepError};
use crate::source::PathKind;
use crate::text::same_text;

verus! {

/// A request as plain values.
pub struct ArgsView {
    pub query: Seq<char>,
    pub paths: Seq<Seq<char>>,
    pub quiet: bool,
    pub recursive: bool,
    pub ignore_case: bool,
}

/// An option in its long and in its short form.
pub struct OptionName {
    pub long: Seq<char>,
    pub letter: char,
}

/// The option that leaves all but the lines found out of the report.
pub open spec fn quiet_option() -> OptionName {
    OptionName { long: "--quiet"@, letter: 'q' }
}

/// The option that sends the search into directories.
pub open spec fn recursive_option() -> OptionName {
    OptionName { long: "--recursive"@, letter: 'r' }
}

/// The option that lets ASCII letters match in either case.
pub open spec fn ignore_case_option() -> OptionName {
    OptionName { long: "--ignore-case"@, letter: 'i' }
}

/// Whether an argument is written as an option.
pub open spec fn is_option(arg: Seq<char>) -> bool {
    arg.len() > 0 && arg[0] == '-'
}

/// Whether an argument asks for the usage text.
pub open spec fn is_help(arg: Seq<char>) -> bool {
    arg == "-h"@ || arg == "--help"@
}

/// Whether an option is written with two dashes.
pub open spec fn is_long(option: Seq<char>) -> bool {
    option.len() >= 2 && option[0] == '-' && option[1] == '-'
}

/// Whether a letter names an option.
pub open spec fn known_letter(c: char) -> bool {
    c == 'q' || c == 'r' || c == 'i'
}

/// Whether a long option is one that exists.
pub open spec fn known_long(option: Seq<char>) -> bool {
    option == quiet_option().long || option == recursive_option().long || option
        == ignore_case_option().long
}

/// Whether the letter at `i` of a group of short options is the first that
/// names no option.
pub open spec fn is_first_unknown_letter(option: Seq<char>, i: int) -> bool {
    &&& 1 <= i < option.len()
    &&& !known_letter(option[i])
    &&& forall|j: int| 1 <= j < i ==> known_letter(#[trigger] option[j])
}

/// What is not known in an option: the whole of a long option, or the first
/// letter of a group of short ones that names none.
pub open spec fn unknown_in(option: Seq<char>) -> Option<Seq<char>> {
    if is_long(option) {
        if known_long(option) {
            None
        } else {
            Some(option)
        }
    } else if exists|i: int| is_first_unknown_letter(option, i) {
        Some(seq![option[choose|i: int| is_first_unknown_letter(option, i)]])
    } else {
        None
    }
}

/// Whether an argument switches an option on.
pub open spec fn sets(arg: Seq<char>, option: OptionName) -> bool {
    if is_long(arg) {
        arg == option.long
    } else {
        exists|j: int| 1 <= j < arg.len() && #[trigger] arg[j] == option.letter
    }
}

/// Whether one of the arguments switches an option on.
pub open spec fn any_sets(args: Seq<Seq<char>>, option: OptionName) -> bool {
    exists|i: int| 0 <= i < args.len() && sets(#[trigger] args[i], option)
}

/// Whether the argument at `at` is the first that is no option; `at` is the
/// number of arguments where all of them are options.
pub open spec fn is_query_position(args: Seq<Seq<char>>, at: int) -> bool {
    &&& 0 <= at <= args.len()
    &&& forall|j: int| 0 <= j < at ==> is_option(#[trigger] args[j])
    &&& at < args.len() ==> !is_option(args[at])
}

/// Where the query stands among the arguments.
pub open spec fn query_position(args: Seq<Seq<char>>) -> int {
    choose|at: int| is_query_position(args, at)
}

/// Whether one of the options asks for the usage text.
pub open spec fn asks_for_help(options: Seq<Seq<char>>) -> bool {
    exists|i: int| 0 <= i < options.len() && is_help(#[trigger] options[i])
}

/// Whether the option at `i` is the first with something unknown in it.
pub open spec fn is_first_bad_option(options: Seq<Seq<char>>, i: int) -> bool {
    &&& 0 <= i < options.len()
    &&& unknown_in(options[i]) is Some
    &&& forall|j: int| 0 <= j < i ==> unknown_in(#[trigger] options[j]) is None
}

/// Whether a path of this kind can be searched.
pub open spec fn accessible(kind: PathKind) -> bool {
    kind is File || kind is Directory
}

/// Whether the path at `i` is the first that cannot be searched.
pub open spec fn is_first_inaccessible(kinds: Seq<PathKind>, i: int) -> bool {
    &&& 0 <= i < kinds.len()
    &&& !accessible(kinds[i])
    &&& forall|j: int| 0 <= j < i ==> accessible(#[trigger] kinds[j])
}

/// A request is good when each of its paths names a file or a directory;
/// otherwise the first path that names neither is reported.
pub open spec fn validated(v: ArgsView, kinds: Seq<PathKind>) -> Result<ArgsView, ErrorView> {
    if exists|i: int| is_first_inaccessible(kinds, i) {
        Err(ErrorView::PathInaccessible(v.paths[choose|i: int| is_first_inaccessible(kinds, i)]))
    } else {
        Ok(v)
    }
}

/// The texts of the arguments.
pub open spec fn texts_of(args: Seq<(Seq<char>, PathKind)>) -> Seq<Seq<char>> {
    Seq::new(args.len(), |i: int| args[i].0)
}

/// What the arguments name on disk.
pub open spec fn kinds_of(args: Seq<(Seq<char>, PathKind)>) -> Seq<PathKind> {
    Seq::new(args.len(), |i: int| args[i].1)
}

/// What a command line asks for. In this order: a request for the usage text
/// among the options ends the reading; the query must be there and not be
/// empty; every option must be known; every path must be accessible.
pub open spec fn parsed(args: Seq<(Seq<char>, PathKind)>, env_ignore_case: bool) -> Result<
    ArgsView,
    ErrorView,
> {
    let texts = texts_of(args);
    let at = query_position(texts);
    let options = texts.take(at);
    if asks_for_help(options) {
        Err(ErrorView::Help)
    } else if at == texts.len() || texts[at].len() == 0 {
        Err(ErrorView::QueryMissing)
    } else if exists|i: int| is_first_bad_option(options, i) {
        Err(
            ErrorView::UnknownArgument(
                unknown_in(options[choose|i: int| is_first_bad_option(options, i)])->Some_0,
            ),
        )
    } else {
        validated(
            ArgsView {
                query: texts[at],
                paths: texts.skip(at + 1),
                quiet: any_sets(options, quiet_option()),
                recursive: any_sets(options, recursive_option()),
                ignore_case: any_sets(options, ignore_case_option()) || env_ignore_case,
            },
            kinds_of(args).skip(at + 1),
        )
    }
}

/// The outcome of making a request, as plain values.
pub open spec fn outcome_view(r: Result<MinigrepArgs, MinigrepError>) -> Result<
    ArgsView,
    ErrorView,
> {
    match r {
        Ok(args) => Ok(args@),
        Err(e) => Err(e@),
    }
}

/// The arguments as plain values.
pub open spec fn arguments(args: Seq<(String, PathKind)>) -> Seq<(Seq<char>, PathKind)> {
    Seq::new(args.len(), |i: int| (args[i].0@, args[i].1))
}

/// The options that are on.
struct Flags {
    quiet: bool,
    recursive: bool,
    ignore_case: bool,
}

/// Tells an option from a query or a path.
fn starts_option(arg: &str) -> (r: bool)
    ensures
        r == is_option(arg@),
{
    if arg.is_empty() {
        false
    } else {
        arg.get_char(0) == '-'
    }
}

/// Tells a request for the usage text.
fn asks_help(arg: &str) -> (r: bool)
    ensures
        r == is_help(arg@),
{
    same_text(arg, "-h") || same_text(arg, "--help")
}

/// Takes one option, or one group of short options, and switches on what it
/// names; hands back what it does not know.
fn read_option(option: &str, flags: Flags) -> (r: Result<Flags, String>)
    ensures
        match unknown_in(option@) {
            Some(unknown) => r matches Err(text) && text@ == unknown,
            None => r matches Ok(now) && now.quiet == (flags.quiet || sets(
                option@,
                quiet_option(),
            )) && now.recursive == (flags.recursive || sets(option@, recursive_option()))
                && now.ignore_case == (flags.ignore_case || sets(option@, ignore_case_option())),
        },
{
    proof {
        reveal_strlit("--quiet");
        reveal_strlit("--recursive");
        reveal_strlit("--ignore-case");
    }
    let n = option.unicode_len();
    if n >= 2 && option.get_char(0) == '-' && option.get_char(1) == '-' {
        if same_text(option, "--quiet") {
            Ok(Flags { quiet: true, ..flags })
        } else if same_text(option, "--recursive") {
            Ok(Flags { recursive: true, ..flags })
        } else if same_text(option, "--ignore-case") {
            Ok(Flags { ignore_case: true, ..flags })
        } else {
            Err(String::from_str(option))
        }
    } else {
        let mut now = Flags { ..flags };
        let mut i: usize = 1;
        while i < n
            invariant
                1 <= i,
                i <= n || i == 1,
                n == option@.len(),
                !is_long(option@),
                forall|j: int| 1 <= j < i ==> known_letter(#[trigger] option@[j]),
                now.quiet == (flags.quiet || exists|j: int|
                    1 <= j < i && #[trigger] option@[j] == 'q'),
                now.recursive == (flags.recursive || exists|j: int|
                    1 <= j < i && #[trigger] option@[j] == 'r'),
                now.ignore_case == (flags.ignore_case || exists|j: int|
                    1 <= j < i && #[trigger] option@[j] == 'i'),
            decreases n - i,
        {
            let c = option.get_char(i);
            if c == 'q' {
                now.quiet = true;
            } else if c == 'r' {
                now.recursive = true;
            } else if c == 'i' {
                now.ignore_case = true;
            } else {
                assert(is_first_unknown_letter(option@, i as int));
                let letter = String::from_str(option.substring_char(i, i + 1));
                assert(letter@ =~= seq![option@[i as int]]);
                return Err(letter);
            }
            i = i + 1;
        }
        Ok(now)
    }
}

/// Some argument is the first that is no option, unless all are options.
proof fn lemma_query_position_exists(texts: Seq<Seq<char>>, from: int)
    requires
        0 <= from <= texts.len(),
        forall|j: int| 0 <= j < from ==> is_option(#[trigger] texts[j]),
    ensures
        is_query_position(texts, query_position(texts)),
        from <= query_position(texts),
    decreases texts.len() - from,
{
    if from < texts.len() && is_option(texts[from]) {
        lemma_query_position_exists(texts, from + 1);
    } else {
        assert(is_query_position(texts, from));
    }
}

/// A validated request.
pub struct MinigrepArgs {
    query: String,
    paths: Vec<String>,
    quiet: bool,
    recursive: bool,
    ignore_case: bool,
}

impl View for MinigrepArgs {
    type V = ArgsView;

    closed spec fn view(&self) -> ArgsView {
        ArgsView {
            query: self.query@,
            paths: self.paths.deep_view(),
            quiet: self.quiet,
            recursive: self.recursive,
            ignore_case: self.ignore_case,
        }
    }
}

impl MinigrepArgs {
    /// A request for `query` in `paths`, with every option off. Each path
    /// comes with what it names on disk.
    pub fn build(query: &str, paths: &[(&str, PathKind)]) -> (r: Result<
        MinigrepArgs,
        MinigrepError,
    >)
        ensures
            outcome_view(r) == validated(
                ArgsView {
                    query: query@,
                    paths: Seq::new(paths@.len(), |i: int| paths@[i].0@),
                    quiet: false,
                    recursive: false,
                    ignore_case: false,
                },
                Seq::new(paths@.len(), |i: int| paths@[i].1),
            ),
    {
        let mut names: Vec<String> = Vec::new();
        let mut kinds: Vec<PathKind> = Vec::new();
        let mut i: usize = 0;
        while i < paths.len()
            invariant
                i <= paths.len(),
                names.len() == i,
                kinds.len() == i,
                forall|j: int| 0 <= j < i ==> (#[trigger] names[j])@ == paths@[j].0@,
                forall|j: int| 0 <= j < i ==> #[trigger] kinds[j] == paths@[j].1,
            decreases paths.len() - i,
        {
            names.push(String::from_str(paths[i].0));
            kinds.push(paths[i].1);
            i = i + 1;
        }
        let args = MinigrepArgs {
            query: String::from_str(query),
            paths: names,
            quiet: false,
            recursive: false,
            ignore_case: false,
        };
        assert(args@.paths =~= Seq::new(paths@.len(), |i: int| paths@[i].0@));
        assert(kinds@ =~= Seq::new(paths@.len(), |i: int| paths@[i].1));
        args.validate(&kinds)
    }

    /// Reads a command line, without the name of the program. Each argument
    /// comes with what it names on disk; `env_ignore_case` says whether the
    /// environment asks for matching in either case.
    pub fn from_env_args(args: Vec<(String, PathKind)>, env_ignore_case: bool) -> (r: Result<
        MinigrepArgs,
        MinigrepError,
    >)
        ensures
            outcome_view(r) == parsed(arguments(args@), env_ignore_case),
    {
        let ghost given = arguments(args@);
        let ghost texts = texts_of(given);
        let mut at: usize = 0;
        while at < args.len()
            invariant_except_break
                forall|j: int| 0 <= j < at ==> !is_help(#[trigger] texts[j]),
            invariant
                at <= args.len(),
                given == arguments(args@),
                texts == texts_of(given),
                forall|j: int| 0 <= j < at ==> is_option(#[trigger] texts[j]),
            ensures
                at < args.len() ==> !is_option(texts[at as int]),
                forall|j: int| 0 <= j < at ==> !is_help(#[trigger] texts[j]),
            decreases args.len() - at,
        {
            let arg = args[at].0.as_str();
            assert(arg@ == texts[at as int]);
            if asks_help(arg) {
                proof {
                    reveal_strlit("-h");
                    reveal_strlit("--help");
                    assert(is_option(texts[at as int]));
                    lemma_query_position_exists(texts, at as int + 1);
                    let options = texts.take(query_position(texts));
                    assert(is_help(options[at as int]));
                }
                return Err(MinigrepError::Help);
            }
            if !starts_option(arg) {
                break ;
            }
            at = at + 1;
        }
        proof {
            assert(is_query_position(texts, at as int));
            lemma_query_position_exists(texts, 0);
        }
        let ghost options = texts.take(at as int);
        assert(!asks_for_help(options));
        if at == args.len() {
            return Err(MinigrepError::QueryMissing);
        }
        let query = args[at].0.clone();
        if query.as_str().is_empty() {
            return Err(MinigrepError::QueryMissing);
        }
        let mut flags = Flags { quiet: false, recursive: false, ignore_case: false };
        let mut i: usize = 0;
        while i < at
            invariant
                i <= at < args.len(),
                given == arguments(args@),
                texts == texts_of(given),
                options == texts.take(at as int),
                query_position(texts) == at,
                !asks_for_help(options),
                texts[at as int].len() > 0,
                forall|j: int| 0 <= j < i ==> unknown_in(#[trigger] options[j]) is None,
                flags.quiet == (exists|j: int|
                    0 <= j < i && sets(#[trigger] options[j], quiet_option())),
                flags.recursive == (exists|j: int|
                    0 <= j < i && sets(#[trigger] options[j], recursive_option())),
                flags.ignore_case == (exists|j: int|
                    0 <= j < i && sets(#[trigger] options[j], ignore_case_option())),
            decreases at - i,
        {
            assert(args[i as int].0@ == options[i as int]);
            match read_option(args[i].0.as_str(), flags) {
                Ok(now) => {
                    flags = now;
                },
                Err(unknown) => {
                    assert(is_first_bad_option(options, i as int));
                    return Err(MinigrepError::UnknownArgument(unknown));
                },
            }
            i = i + 1;
        }
        assert(!(exists|i: int| is_first_bad_option(options, i)));
        let mut names: Vec<String> = Vec::new();
        let mut kinds: Vec<PathKind> = Vec::new();
        let mut k: usize = at + 1;
        while k < args.len()
            invariant
                at < k <= args.len(),
                names.len() == k - at - 1,
                kinds.len() == k - at - 1,
                forall|j: int| 0 <= j < names.len() ==> (#[trigger] names[j])@ == args[at + 1 + j].0@,
                forall|j: int| 0 <= j < kinds.len() ==> #[trigger] kinds[j] == args[at + 1 + j].1,
            decreases args.len() - k,
        {
            names.push(args[k].0.clone());
            kinds.push(args[k].1);
            k = k + 1;
        }
        let request = MinigrepArgs {
            query,
            paths: names,
            quiet: flags.quiet,
            recursive: flags.recursive,
            ignore_case: flags.ignore_case || env_ignore_case,
        };
        assert(request@.paths =~= texts.skip(at as int + 1));
        assert(kinds@ =~= kinds_of(given).skip(at as int + 1));
        request.validate(&kinds)
    }

    /// Lets the request through if every path names a file or a directory.
    fn validate(self, kinds: &Vec<PathKind>) -> (r: Result<MinigrepArgs, MinigrepError>)
        requires
            kinds.len() == self@.paths.len(),
        ensures
            outcome_view(r) == validated(self@, kinds@),
    {
        let mut i: usize = 0;
        while i < kinds.len()
            invariant
                i <= kinds.len(),
                kinds.len() == self@.paths.len(),
                forall|j: int| 0 <= j < i ==> accessible(#[trigger] kinds@[j]),
            decreases kinds.len() - i,
        {
            match kinds[i] {
                PathKind::Other => {
                    assert(is_first_inaccessible(kinds@, i as int));
                    return Err(MinigrepError::PathInaccessible(self.paths[i].clone()));
                },
                _ => {},
            }
            i = i + 1;
        }
        Ok(self)
    }

    /// Switches the search of directories and the matching in either case on
    /// or off.
    pub fn set_flags(&mut self, recursive: bool, ignore_case: bool)
        ensures
            final(self)@ == (ArgsView { recursive, ignore_case, ..old(self)@ }),
    {
        self.recursive = recursive;
        self.ignore_case = ignore_case;
    }

    /// What is searched for.
    pub fn query(&self) -> (query: &str)
        ensures
            query@ == self@.query,
    {
        self.query.as_str()
    }

    /// Where it is searched for; standard input is searched where this is
    /// empty.
    pub fn paths(&self) -> (paths: &Vec<String>)
        ensures
            paths.deep_view() == self@.paths,
    {
        &self.paths
    }

    /// Whether the report holds the lines found and nothing else.
    pub fn quiet(&self) -> (quiet: bool)
        ensures
            quiet == self@.quiet,
    {
        self.quiet
    }

    /// Whether directories are searched.
    pub fn recursive(&self) -> (recursive: bool)
        ensures
            recursive == self@.recursive,
    {
        self.recursive
    }

    /// Whether ASCII letters match in either case.
    pub fn ignore_case(&self) -> (ignore_case: bool)
        ensures
            ignore_case == self@.ignore_case,
    {
        self.ignore_case
    }
}

} // verus!
