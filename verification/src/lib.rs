//! Line-oriented search for a literal pattern in byte streams.
//!
//! A run takes a request and what was read for it, searches every stream in
//! one pass, and gathers the lines found, source by source.

use vstd::prelude::*;
use vstd::utf8::*;

pub mod args;
pub mod error;
pub mod matcher;
pub mod minigrep_args;
pub mod minigrep_error;
pub mod occurrence;
pub mod results;
pub mod source;
pub mod text;

use crate::args::{ArgsView, MinigrepArgs};
use crate::error::{ErrorView, MinigrepError};
use crate::matcher::{
    all_text, fed_pieces, finished, joined, lemma_chunking_is_unobservable, matched_lines, scan,
    start, texts, StreamMatcher,
};
use crate::results::{distinct_sources, with_findings, MinigrepResults, ResultsView};
use crate::source::{lemma_views_of, views_of, ByteStream, Source, SourceView, StreamView};

verus! {

/// The usage text.
pub const HELP: &'static str = "\
Usage: minigrep [OPTION]... PATTERN [FILE]...
Search for PATTERNS in each file or directory provided.
Example: minigrep 'hello world' main.rs tests/

Miscellaneous:
  -h, --help          print this message
  -q, --quiet         only output search results
  -r, --recursive     recursively read directories
";

/// How a search can fail, as plain values.
pub enum Failure {
    /// The query is empty.
    QueryMissing,
    /// A line that was to be reported is not UTF-8.
    NotText,
    /// A stream or a directory could not be read to its end.
    Read(std::io::Error),
    /// Something in a directory is neither a file nor a directory.
    Inaccessible(Seq<char>),
}

/// Whether an error is the one that stands for a failure.
pub open spec fn fails_as(e: MinigrepError, f: Failure) -> bool {
    match f {
        Failure::QueryMissing => e is QueryMissing,
        Failure::NotText => e is Utf8Error,
        Failure::Read(error) => e == MinigrepError::IoError(error),
        Failure::Inaccessible(path) => e@ == ErrorView::PathInaccessible(path),
    }
}

/// What a search of a stream gives. An empty query is refused. A line that
/// has to be reported and is not UTF-8 fails the search where the scan meets
/// it; an error that ended the reading fails it after all that was read has
/// been scanned. Otherwise the lines on which the scan completed the query
/// are given as text, in the order of the stream.
pub open spec fn searched(stream: StreamView, query: Seq<char>, ignore_case: bool) -> Result<
    Seq<Seq<char>>,
    Failure,
> {
    let closed = scan(encode_utf8(query), ignore_case, start(), stream.content).findings;
    let lines = matched_lines(stream.content, encode_utf8(query), ignore_case);
    if query.len() == 0 {
        Err(Failure::QueryMissing)
    } else if !all_text(closed) {
        Err(Failure::NotText)
    } else if stream.failure is Some {
        Err(Failure::Read(stream.failure->Some_0))
    } else if !all_text(lines) {
        Err(Failure::NotText)
    } else {
        Ok(texts(lines))
    }
}

/// Whether a result of a search is the expected one.
pub open spec fn found_as(
    r: Result<Vec<String>, MinigrepError>,
    expected: Result<Seq<Seq<char>>, Failure>,
) -> bool {
    match expected {
        Ok(lines) => r matches Ok(found) && found.deep_view() == lines,
        Err(f) => r matches Err(e) && fails_as(e, f),
    }
}

/// How far a run has come: the results it has gathered, and what stopped it
/// if anything did.
pub struct Walk {
    pub results: ResultsView,
    pub stopped: Option<Failure>,
}

/// A run that goes on with these results.
pub open spec fn going(results: ResultsView) -> Walk {
    Walk { results, stopped: None }
}

/// A run that has stopped with these results.
pub open spec fn stopped(results: ResultsView, failure: Failure) -> Walk {
    Walk { results, stopped: Some(failure) }
}

/// The run after one stream has been searched under the name `path`: what
/// was found is recorded, and a search that fails stops the run with the
/// results as they were.
pub open spec fn file_searched(
    results: ResultsView,
    path: Seq<char>,
    stream: StreamView,
    args: ArgsView,
) -> Walk {
    match searched(stream, args.query, args.ignore_case) {
        Ok(lines) => going(
            ResultsView { findings: with_findings(results.findings, path, lines), ..results },
        ),
        Err(f) => stopped(results, f),
    }
}

/// The run after the entries of a directory have been gone through in order:
/// files are searched, directories are gone into, and anything else stops the
/// run, as does the first failure. What was found before stays recorded.
pub open spec fn walked(results: ResultsView, entries: Seq<SourceView>, args: ArgsView) -> Walk
    decreases entries,
{
    if entries.len() == 0 {
        going(results)
    } else {
        let before = walked(results, entries.drop_last(), args);
        if before.stopped is Some {
            before
        } else {
            match entries.last() {
                SourceView::File { path, stream } => file_searched(
                    before.results,
                    path,
                    stream,
                    args,
                ),
                SourceView::Directory { path, entries: inner, failure } => listed(
                    walked(before.results, inner, args),
                    failure,
                ),
                SourceView::Other { path } => stopped(before.results, Failure::Inaccessible(path)),
            }
        }
    }
}

/// A walk of a directory whose listing ended in an error stops with that
/// error, after what could be listed has been gone through.
pub open spec fn listed(walk: Walk, failure: Option<std::io::Error>) -> Walk {
    if walk.stopped is None && failure is Some {
        stopped(walk.results, Failure::Read(failure->Some_0))
    } else {
        walk
    }
}

/// The run after the sources that the request names have been visited in
/// order. A directory is gone into only in a recursive search and is noted as
/// passed over otherwise; what is neither file nor directory is skipped.
pub open spec fn visited(results: ResultsView, sources: Seq<SourceView>, args: ArgsView) -> Walk
    decreases sources.len(),
{
    if sources.len() == 0 {
        going(results)
    } else {
        let before = visited(results, sources.drop_last(), args);
        if before.stopped is Some {
            before
        } else {
            match sources.last() {
                SourceView::File { path, stream } => file_searched(
                    before.results,
                    path,
                    stream,
                    args,
                ),
                SourceView::Directory { path, entries, failure } => if args.recursive {
                    listed(walked(before.results, entries, args), failure)
                } else {
                    going(
                        ResultsView {
                            ignored_dirs: before.results.ignored_dirs.push(path),
                            ..before.results
                        },
                    )
                },
                SourceView::Other { path } => before,
            }
        }
    }
}

/// A whole run: standard input is searched, under the name `stdin`, if the
/// request names no path; then the sources are visited.
pub open spec fn ran(args: ArgsView, stdin: StreamView, sources: Seq<SourceView>) -> Walk {
    let fresh = ResultsView {
        quiet: args.quiet,
        findings: Seq::empty(),
        ignored_dirs: Seq::empty(),
    };
    let begun = if args.paths.len() == 0 {
        file_searched(fresh, "stdin"@, stdin, args)
    } else {
        going(fresh)
    };
    if begun.stopped is Some {
        begun
    } else {
        visited(begun.results, sources, args)
    }
}

/// Whether a step of a run ended as expected: it leaves the results of the
/// walk, and fails exactly where the walk has stopped.
pub open spec fn walk_outcome(r: Result<(), MinigrepError>, after: ResultsView, walk: Walk) -> bool {
    &&& after == walk.results
    &&& match walk.stopped {
        None => r is Ok,
        Some(f) => r matches Err(e) && fails_as(e, f),
    }
}

/// Searches a stream that has been read.
pub fn search(stream: ByteStream, query: &str, ignore_case: bool) -> (r: Result<
    Vec<String>,
    MinigrepError,
>)
    ensures
        found_as(r, searched(stream@, query@, ignore_case)),
{
    let ByteStream { content, failure } = stream;
    let matcher = match StreamMatcher::new(query, ignore_case) {
        Ok(matcher) => matcher,
        Err(e) => {
            return Err(e);
        },
    };
    let matcher = match matcher.feed(content.as_slice()) {
        Ok(matcher) => matcher,
        Err(e) => {
            return Err(e);
        },
    };
    if let Some(error) = failure {
        return Err(MinigrepError::IoError(error));
    }
    matcher.finish()
}

/// Searches one file and records what was found in it.
pub fn search_file(
    file_path: &str,
    stream: ByteStream,
    args: &MinigrepArgs,
    results: &mut MinigrepResults,
) -> (r: Result<(), MinigrepError>)
    ensures
        walk_outcome(r, final(results)@, file_searched(old(results)@, file_path@, stream@, args@)),
        distinct_sources(old(results)@.findings) ==> distinct_sources(final(results)@.findings),
{
    match search(stream, args.query(), args.ignore_case()) {
        Ok(found) => {
            results.add_findings(file_path, found);
            Ok(())
        },
        Err(e) => Err(e),
    }
}

/// Searches standard input and records what was found under the name
/// `stdin`.
pub fn search_stdin(stdin: ByteStream, args: &MinigrepArgs, results: &mut MinigrepResults) -> (r:
    Result<(), MinigrepError>)
    ensures
        walk_outcome(r, final(results)@, file_searched(old(results)@, "stdin"@, stdin@, args@)),
        distinct_sources(old(results)@.findings) ==> distinct_sources(final(results)@.findings),
{
    search_file("stdin", stdin, args, results)
}

/// A walk that has failed stays failed, whatever follows.
proof fn lemma_walk_stops_at_failure(
    results: ResultsView,
    entries: Seq<SourceView>,
    upto: int,
    args: ArgsView,
)
    requires
        0 <= upto <= entries.len(),
        walked(results, entries.take(upto), args).stopped is Some,
    ensures
        walked(results, entries, args) == walked(results, entries.take(upto), args),
    decreases entries.len() - upto,
{
    if upto < entries.len() {
        assert(entries.take(upto + 1).drop_last() =~= entries.take(upto));
        lemma_walk_stops_at_failure(results, entries, upto + 1, args);
    } else {
        assert(entries.take(upto) =~= entries);
    }
}

/// A visit that has failed stays failed, whatever follows.
proof fn lemma_visit_stops_at_failure(
    results: ResultsView,
    sources: Seq<SourceView>,
    upto: int,
    args: ArgsView,
)
    requires
        0 <= upto <= sources.len(),
        visited(results, sources.take(upto), args).stopped is Some,
    ensures
        visited(results, sources, args) == visited(results, sources.take(upto), args),
    decreases sources.len() - upto,
{
    if upto < sources.len() {
        assert(sources.take(upto + 1).drop_last() =~= sources.take(upto));
        lemma_visit_stops_at_failure(results, sources, upto + 1, args);
    } else {
        assert(sources.take(upto) =~= sources);
    }
}

/// Searches what a directory holds, going into the directories in it. The
/// first failure ends the walk; what was found before it stays recorded.
/// `failure` is the error that ended the listing of the directory, if one did.
pub fn search_dir(
    entries: Vec<Source>,
    failure: Option<std::io::Error>,
    args: &MinigrepArgs,
    results: &mut MinigrepResults,
) -> (r: Result<(), MinigrepError>)
    ensures
        walk_outcome(
            r,
            final(results)@,
            listed(walked(old(results)@, views_of(entries@), args@), failure),
        ),
        distinct_sources(old(results)@.findings) ==> distinct_sources(final(results)@.findings),
    decreases entries@,
{
    let ghost before = results@;
    let ghost all = views_of(entries@);
    proof {
        lemma_views_of(entries@);
    }
    assert(all.take(0) =~= Seq::empty());
    for source in it: entries
        invariant
            all == views_of(entries@),
            all.len() == entries@.len(),
            forall|i: int| 0 <= i < all.len() ==> #[trigger] all[i] == entries@[i]@,
            before == old(results)@,
            distinct_sources(before.findings) ==> distinct_sources(results@.findings),
            walked(before, all.take(it.index() as int), args@) == going(results@),
    {
        let ghost i = it.index() as int;
        assert(all.take(i + 1).drop_last() =~= all.take(i));
        assert(all.take(i + 1).last() == source@);
        let step = match source {
            Source::File { path, stream } => search_file(path.as_str(), stream, args, results),
            Source::Directory { path, entries: inner, failure: inner_failure } => search_dir(
                inner,
                inner_failure,
                args,
                results,
            ),
            Source::Other { path } => Err(MinigrepError::PathInaccessible(path)),
        };
        match step {
            Ok(()) => {},
            Err(e) => {
                proof {
                    lemma_walk_stops_at_failure(before, all, i + 1, args@);
                }
                return Err(e);
            },
        }
    }
    assert(all.take(all.len() as int) =~= all);
    match failure {
        Some(error) => Err(MinigrepError::IoError(error)),
        None => Ok(()),
    }
}

/// Carries out a request on what was read for it.
pub fn run(args: MinigrepArgs, stdin: ByteStream, sources: Vec<Source>) -> (r: Result<
    MinigrepResults,
    MinigrepError,
>)
    ensures
        match ran(args@, stdin@, views_of(sources@)).stopped {
            None => r matches Ok(results) && results@ == ran(
                args@,
                stdin@,
                views_of(sources@),
            ).results,
            Some(f) => r matches Err(e) && fails_as(e, f),
        },
        r matches Ok(results) ==> distinct_sources(results@.findings),
{
    let mut results = MinigrepResults::new(args.quiet());
    if args.paths().is_empty() {
        match search_stdin(stdin, &args, &mut results) {
            Ok(()) => {},
            Err(e) => {
                return Err(e);
            },
        }
    }
    let ghost begun = results@;
    let ghost all = views_of(sources@);
    proof {
        lemma_views_of(sources@);
    }
    assert(all.take(0) =~= Seq::empty());
    for source in it: sources
        invariant
            all == views_of(sources@),
            all.len() == sources@.len(),
            forall|i: int| 0 <= i < all.len() ==> #[trigger] all[i] == sources@[i]@,
            ran(args@, stdin@, all) == visited(begun, all, args@),
            distinct_sources(results@.findings),
            visited(begun, all.take(it.index() as int), args@) == going(results@),
    {
        let ghost i = it.index() as int;
        assert(all.take(i + 1).drop_last() =~= all.take(i));
        assert(all.take(i + 1).last() == source@);
        let step = match source {
            Source::Directory { path, entries, failure } => {
                if !args.recursive() {
                    results.add_ignored_dir(path.as_str());
                    Ok(())
                } else {
                    search_dir(entries, failure, &args, &mut results)
                }
            },
            Source::File { path, stream } => search_file(path.as_str(), stream, &args, &mut results),
            Source::Other { path } => Ok(()),
        };
        match step {
            Ok(()) => {},
            Err(e) => {
                proof {
                    lemma_visit_stops_at_failure(begun, all, i + 1, args@);
                }
                return Err(e);
            },
        }
    }
    assert(all.take(all.len() as int) =~= all);
    Ok(results)
}

/// A stream that is fed to a matcher piece by piece, in pieces of any sizes,
/// and then finished gives what a search of the whole stream gives: the same
/// lines, or the same failure to report a line as text.
pub proof fn lemma_search_in_pieces_is_search(
    query: Seq<char>,
    ignore_case: bool,
    pieces: Seq<Seq<u8>>,
)
    requires
        query.len() > 0,
    ensures
        searched(StreamView { content: joined(pieces), failure: None }, query, ignore_case)
            == match fed_pieces(encode_utf8(query), ignore_case, start(), pieces) {
            Some(read) => if all_text(finished(read)) {
                Ok(texts(finished(read)))
            } else {
                Err(Failure::NotText)
            },
            None => Err(Failure::NotText),
        },
{
    lemma_chunking_is_unobservable(encode_utf8(query), ignore_case, start(), pieces);
}

/// A stream without a byte holds no line: whatever is searched for, nothing
/// is found and nothing fails.
pub proof fn lemma_empty_stream_has_no_findings(
    stream: StreamView,
    query: Seq<char>,
    ignore_case: bool,
)
    requires
        stream.content.len() == 0,
        stream.failure is None,
        query.len() > 0,
    ensures
        searched(stream, query, ignore_case) == Ok::<Seq<Seq<char>>, Failure>(Seq::empty()),
{
    assert(texts(matched_lines(stream.content, encode_utf8(query), ignore_case)) =~= Seq::empty());
}

/// Searching two copies of a stream for the same query gives the same
/// answer: the same lines in the same order, or a failure of the same kind.
pub proof fn lemma_search_is_repeatable(
    one: StreamView,
    other: StreamView,
    query: Seq<char>,
    ignore_case: bool,
    first: Result<Vec<String>, MinigrepError>,
    second: Result<Vec<String>, MinigrepError>,
)
    requires
        one.content == other.content,
        one.failure is Some <==> other.failure is Some,
        found_as(first, searched(one, query, ignore_case)),
        found_as(second, searched(other, query, ignore_case)),
    ensures
        first matches Ok(a) ==> second matches Ok(b) && a.deep_view() == b.deep_view(),
        first matches Err(e) ==> second matches Err(f) && (e is QueryMissing <==> f is QueryMissing)
            && (e is Utf8Error <==> f is Utf8Error) && (e is IoError <==> f is IoError),
{
}

} // verus!
