use minigrep::args::MinigrepArgs;
use minigrep::error::MinigrepError;
use minigrep::matcher::StreamMatcher;
use minigrep::results::MinigrepResults;
use minigrep::source::{ByteStream, PathKind, Source};
use minigrep::{run, search, search_dir, search_file, search_stdin};

fn file(path: &str, content: &str) -> Source {
    Source::File { path: path.to_string(), stream: ByteStream::from_bytes(content.as_bytes()) }
}

fn directory(path: &str, entries: Vec<Source>) -> Source {
    Source::Directory { path: path.to_string(), entries, failure: None }
}

fn test_dir() -> Vec<Source> {
    vec![
        file("test_dir/test.txt", "I'm nobody! Who are you?\nHow dreary to be somebody!\n"),
        directory(
            "test_dir/inner_dir",
            vec![file(
                "test_dir/inner_dir/test.txt",
                "dreary me\nnot this one\nso dreary\na dreary day\nthe close\ndreary",
            )],
        ),
        file("test_dir/test2.txt", "Nothing to see here\nat all\n"),
    ]
}

fn feed_in_chunks(data: &[u8], size: usize, query: &str, ignore_case: bool) -> Vec<String> {
    let mut matcher = StreamMatcher::new(query, ignore_case).unwrap();
    for chunk in data.chunks(size) {
        matcher = matcher.feed(chunk).unwrap();
    }
    matcher.finish().unwrap()
}

#[test]
fn search_succeeds() -> Result<(), MinigrepError> {
    let data = "The quick brown fox\njumps over\nthe lazy dog";
    let findings = search(ByteStream::from_bytes(data.as_bytes()), "\njumps", false)?;
    assert_eq!(findings, vec!["jumps over"]);

    Ok(())
}

#[test]
fn search_ignore_case_succeeds() -> Result<(), MinigrepError> {
    let data = "The quick brown fox\njumps over\nthe lazy dog";
    let findings = search(ByteStream::from_bytes(data.as_bytes()), "BROWN FOX", true)?;
    assert_eq!(findings, vec!["The quick brown fox"]);

    let data = "The quick brown fox\njumps over\nthe Lazy Dog";
    let findings = search(ByteStream::from_bytes(data.as_bytes()), "lazy dog", true)?;
    assert_eq!(findings, vec!["the Lazy Dog"]);

    Ok(())
}

#[test]
fn search_file_succeeds() -> Result<(), MinigrepError> {
    let file_path = "test.txt";
    let mut args = MinigrepArgs::build("dreary", &[(file_path, PathKind::File)])?;
    args.set_flags(true, false);
    let mut results = MinigrepResults::new(false);
    search_file(
        args.paths()[0].as_str(),
        ByteStream::from_bytes(b"How dreary to be somebody!"),
        &args,
        &mut results,
    )?;

    assert_eq!(results.lines_for(file_path).unwrap().len(), 1);
    assert_eq!(results.lines_for(file_path).unwrap()[0], "How dreary to be somebody!");

    Ok(())
}

#[test]
fn search_dir_succeeds() -> Result<(), MinigrepError> {
    let mut args = MinigrepArgs::build("dreary", &[("test_dir", PathKind::Directory)])?;
    args.set_flags(true, false);
    let mut results = MinigrepResults::new(false);
    search_dir(test_dir(), None, &args, &mut results)?;

    assert_eq!(results.findings().len(), 3);
    assert_eq!(results.lines_for("test_dir/test.txt").unwrap().len(), 1);
    assert_eq!(results.lines_for("test_dir/inner_dir/test.txt").unwrap().len(), 4);
    assert_eq!(results.lines_for("test_dir/test2.txt").unwrap().len(), 0);

    Ok(())
}

#[test]
fn search_dir_keeps_the_order_of_the_walk() {
    let args = MinigrepArgs::build("dreary", &[]).unwrap();
    let mut results = MinigrepResults::new(false);
    search_dir(test_dir(), None, &args, &mut results).unwrap();
    let paths: Vec<&str> = results.findings().iter().map(|f| f.path.as_str()).collect();
    assert_eq!(
        paths,
        vec!["test_dir/test.txt", "test_dir/inner_dir/test.txt", "test_dir/test2.txt"]
    );
    assert_eq!(
        results.findings()[1].lines,
        vec!["dreary me", "so dreary", "a dreary day", "dreary"]
    );
}

#[test]
fn search_dir_fails_on_what_is_neither_file_nor_directory() {
    let args = MinigrepArgs::build("dreary", &[]).unwrap();
    let mut results = MinigrepResults::new(false);
    let entries = vec![
        file("d/a.txt", "dreary"),
        Source::Other { path: "d/socket".to_string() },
        file("d/b.txt", "dreary"),
    ];
    match search_dir(entries, None, &args, &mut results) {
        Err(MinigrepError::PathInaccessible(path)) => assert_eq!(path, "d/socket"),
        other => panic!("unexpected outcome: {:?}", other),
    }
}

#[test]
fn search_dir_reports_a_listing_that_broke_off() {
    let args = MinigrepArgs::build("dreary", &[]).unwrap();
    let mut results = MinigrepResults::new(false);
    let failure = std::io::Error::new(std::io::ErrorKind::PermissionDenied, "listing denied");
    match search_dir(vec![file("d/a.txt", "dreary")], Some(failure), &args, &mut results) {
        Err(MinigrepError::IoError(error)) => {
            assert_eq!(error.kind(), std::io::ErrorKind::PermissionDenied)
        },
        other => panic!("unexpected outcome: {:?}", other),
    }
    assert_eq!(results.lines_for("d/a.txt").unwrap().len(), 1);
}

#[test]
fn search_of_a_file_holding_the_query_once() {
    let findings =
        search(ByteStream::from_bytes(b"How dreary to be somebody!"), "dreary", false).unwrap();
    assert_eq!(findings, vec!["How dreary to be somebody!"]);
}

#[test]
fn search_of_an_empty_stream_finds_nothing() {
    let findings = search(ByteStream::from_bytes(b""), "dreary", false).unwrap();
    assert!(findings.is_empty());
    let findings = search(ByteStream::from_bytes(b""), "x", true).unwrap();
    assert!(findings.is_empty());
}

#[test]
fn search_refuses_an_empty_query() {
    assert!(matches!(
        search(ByteStream::from_bytes(b"some text\n"), "", false),
        Err(MinigrepError::QueryMissing)
    ));
    assert!(matches!(
        search(ByteStream::from_bytes(b""), "", true),
        Err(MinigrepError::QueryMissing)
    ));
    assert!(matches!(StreamMatcher::new("", false), Err(MinigrepError::QueryMissing)));
}

#[test]
fn search_is_case_sensitive_unless_told_otherwise() {
    let data = b"The quick brown fox\n";
    assert!(search(ByteStream::from_bytes(data), "BROWN", false).unwrap().is_empty());
    assert_eq!(
        search(ByteStream::from_bytes(data), "BROWN", true).unwrap(),
        vec!["The quick brown fox"]
    );
    assert_eq!(
        search(ByteStream::from_bytes(b"THE QUICK BROWN FOX"), "brown", true).unwrap(),
        vec!["THE QUICK BROWN FOX"]
    );
}

#[test]
fn search_folds_ascii_letters_only() {
    // '[' is 32 below '{', as 'A' is below 'a', but is no letter
    assert!(search(ByteStream::from_bytes(b"a{b"), "[", true).unwrap().is_empty());
    assert!(search(ByteStream::from_bytes(b"a@b"), "`", true).unwrap().is_empty());
    // E-acute in upper and lower case differ in their second byte
    assert!(search(ByteStream::from_bytes("\u{c9}t\u{e9}".as_bytes()), "\u{e9}T", true)
        .unwrap()
        .is_empty());
    assert_eq!(
        search(ByteStream::from_bytes("\u{c9}t\u{e9}".as_bytes()), "T\u{e9}", true).unwrap(),
        vec!["\u{c9}t\u{e9}"]
    );
}

#[test]
fn search_reports_a_line_once_however_often_it_matches() {
    let findings =
        search(ByteStream::from_bytes(b"dreary dreary dreary\nnone\ndreary"), "dreary", false)
            .unwrap();
    assert_eq!(findings, vec!["dreary dreary dreary", "dreary"]);
    let findings = search(ByteStream::from_bytes(b"aaaa\n"), "aa", false).unwrap();
    assert_eq!(findings, vec!["aaaa"]);
}

#[test]
fn search_reports_lines_in_stream_order() {
    let findings =
        search(ByteStream::from_bytes(b"b x\na\nc x\nd\ne x\n"), "x", false).unwrap();
    assert_eq!(findings, vec!["b x", "c x", "e x"]);
}

#[test]
fn search_writes_carriage_returns_as_escapes() {
    let findings = search(ByteStream::from_bytes(b"one\r\ntwo\r\n"), "two", false).unwrap();
    assert_eq!(findings, vec!["two\\r"]);
    let findings = search(ByteStream::from_bytes(b"a\rb\rc"), "b", false).unwrap();
    assert_eq!(findings, vec!["a\\rb\\rc"]);
}

#[test]
fn search_keeps_a_line_open_across_a_partial_match() {
    // the line feed lies inside the match and is written as an escape
    let findings =
        search(ByteStream::from_bytes(b"The quick brown fox\njumps over\n"), "fox\njumps", false)
            .unwrap();
    assert_eq!(findings, vec!["The quick brown fox\\njumps over"]);
    // a partial match that ends at the line feed keeps the line open too
    let findings = search(ByteStream::from_bytes(b"xa\nab\n"), "ab", false).unwrap();
    assert_eq!(findings, vec!["xa\\nab"]);
    // a completed match closes the line
    let findings = search(ByteStream::from_bytes(b"ab a\nab\n"), "ab", false).unwrap();
    assert_eq!(findings, vec!["ab a", "ab"]);
}

#[test]
fn a_match_that_ends_on_a_line_feed_counts_for_the_line_it_closes() {
    let findings = search(ByteStream::from_bytes(b"a\nb\n"), "\n", false).unwrap();
    assert_eq!(findings, vec!["a", "b"]);
    let findings = search(ByteStream::from_bytes(b"\n\nx"), "\n", false).unwrap();
    assert_eq!(findings, vec!["", ""]);
    let findings = search(ByteStream::from_bytes(b"a\na\nb"), "a\n", false).unwrap();
    assert_eq!(findings, vec!["a", "a"]);
    let findings =
        search(ByteStream::from_bytes(b"The quick brown fox\njumps over\n"), "fox\n", false)
            .unwrap();
    assert_eq!(findings, vec!["The quick brown fox"]);
}

#[test]
fn search_does_not_backtrack() {
    // the second 'a' is spent on the mismatch with 'b'
    assert!(search(ByteStream::from_bytes(b"aab"), "ab", false).unwrap().is_empty());
    assert!(search(ByteStream::from_bytes(b"aaab"), "aab", false).unwrap().is_empty());
    assert_eq!(search(ByteStream::from_bytes(b"xab"), "ab", false).unwrap(), vec!["xab"]);
    assert_eq!(search(ByteStream::from_bytes(b"aabab"), "ab", false).unwrap(), vec!["aabab"]);
}

#[test]
fn search_fails_on_a_reported_line_that_is_not_utf8() {
    assert!(matches!(
        search(ByteStream::from_bytes(b"dreary \xff\n"), "dreary", false),
        Err(MinigrepError::Utf8Error(_))
    ));
    assert!(matches!(
        search(ByteStream::from_bytes(b"\xc3 dreary"), "dreary", false),
        Err(MinigrepError::Utf8Error(_))
    ));
    // a line that is not reported may hold anything
    let findings =
        search(ByteStream::from_bytes(b"\xff\xfe\ndreary\n\xc3"), "dreary", false).unwrap();
    assert_eq!(findings, vec!["dreary"]);
}

#[test]
fn search_takes_for_text_what_is_well_formed_utf8() {
    let reported = |line: &[u8]| {
        let mut data = b"dreary ".to_vec();
        data.extend_from_slice(line);
        search(ByteStream::from_bytes(&data), "dreary", false).map(|found| found.len())
    };
    // one, two, three and four bytes to a character, at the ends of their ranges
    for line in [
        &b"\x00\x7f"[..],
        &b"\xc2\x80\xdf\xbf"[..],
        &b"\xe0\xa0\x80\xef\xbf\xbf"[..],
        &b"\xed\x9f\xbf\xee\x80\x80"[..],
        &b"\xf0\x90\x80\x80\xf4\x8f\xbf\xbf"[..],
    ] {
        assert!(matches!(reported(line), Ok(1)), "{:?}", line);
    }
    for line in [
        &b"\x80"[..],                 // a continuation byte on its own
        &b"\xc2"[..],                 // a character cut short
        &b"\xe0\xa0"[..],
        &b"\xf0\x90\x80"[..],
        &b"\xc0\x80"[..],             // more bytes than the character needs
        &b"\xc1\xbf"[..],
        &b"\xe0\x9f\xbf"[..],
        &b"\xf0\x8f\xbf\xbf"[..],
        &b"\xed\xa0\x80"[..],         // a surrogate
        &b"\xed\xbf\xbf"[..],
        &b"\xf4\x90\x80\x80"[..],     // beyond the last character
        &b"\xf5\x80\x80\x80"[..],
        &b"\xf8\x88\x80\x80\x80"[..],
        &b"\xff"[..],
        &b"\xc2\x41"[..],             // a lead byte without its continuation
    ] {
        assert!(matches!(reported(line), Err(MinigrepError::Utf8Error(_))), "{:?}", line);
    }
}

#[test]
fn search_reports_text_beyond_ascii() {
    let data = "gr\u{fc}\u{df}e\nsch\u{f6}ne gr\u{fc}\u{df}e\n";
    let findings = search(ByteStream::from_bytes(data.as_bytes()), "sch\u{f6}n", false).unwrap();
    assert_eq!(findings, vec!["sch\u{f6}ne gr\u{fc}\u{df}e"]);
}

#[test]
fn search_fails_where_the_reading_failed() {
    let broken = |content: &[u8]| ByteStream {
        content: content.to_vec(),
        failure: Some(std::io::Error::new(std::io::ErrorKind::UnexpectedEof, "cut off")),
    };
    match search(broken(b"dreary\nmore"), "dreary", false) {
        Err(MinigrepError::IoError(error)) => {
            assert_eq!(error.kind(), std::io::ErrorKind::UnexpectedEof)
        },
        other => panic!("unexpected outcome: {:?}", other),
    }
    // a line that cannot be reported was met before the reading failed
    assert!(matches!(
        search(broken(b"dreary \xff\nmore"), "dreary", false),
        Err(MinigrepError::Utf8Error(_))
    ));
    // the last line was never closed, so the read failure comes first
    assert!(matches!(
        search(broken(b"dreary \xff"), "dreary", false),
        Err(MinigrepError::IoError(_))
    ));
    assert!(matches!(search(broken(b"dreary"), "", false), Err(MinigrepError::QueryMissing)));
}

#[test]
fn chunk_size_does_not_change_the_findings() {
    let data = "The quick brown fox\r\njumps over\nthe lazy dog\nfox\njumps\n\nlast fox";
    for query in ["fox", "\njumps", "fox\njumps", "o", "the lazy dog", "x\r"] {
        for ignore_case in [false, true] {
            let whole = search(ByteStream::from_bytes(data.as_bytes()), query, ignore_case).unwrap();
            for size in 1..=data.len() + 1 {
                assert_eq!(feed_in_chunks(data.as_bytes(), size, query, ignore_case), whole);
            }
        }
    }
}

#[test]
fn a_match_across_a_chunk_boundary_is_found() {
    let data = b"The quick brown fox\njumps over\nthe lazy dog";
    assert_eq!(feed_in_chunks(data, 1, "brown fox", false), vec!["The quick brown fox"]);
    assert_eq!(feed_in_chunks(data, 1, "\njumps", false), vec!["jumps over"]);
    // the cut lies between "la" and "zy"
    let matcher = StreamMatcher::new("lazy", false).unwrap();
    let matcher = matcher.feed(&data[..37]).unwrap();
    let matcher = matcher.feed(&data[37..]).unwrap();
    assert_eq!(matcher.finish().unwrap(), vec!["the lazy dog"]);
}

#[test]
fn an_empty_chunk_changes_nothing() {
    let matcher = StreamMatcher::new("dreary", false).unwrap();
    let matcher = matcher.feed(b"").unwrap();
    let matcher = matcher.feed(b"How drea").unwrap();
    let matcher = matcher.feed(b"").unwrap();
    let matcher = matcher.feed(b"ry to be").unwrap();
    assert_eq!(matcher.finish().unwrap(), vec!["How dreary to be"]);
}

#[test]
fn feed_fails_on_a_closed_line_that_is_not_utf8() {
    let matcher = StreamMatcher::new("dreary", false).unwrap();
    let matcher = matcher.feed(b"dreary \xff").unwrap();
    assert!(matches!(matcher.feed(b"\n"), Err(MinigrepError::Utf8Error(_))));
}

#[test]
fn searching_twice_gives_the_same_findings() {
    let data = b"The quick brown fox\njumps over\nthe lazy dog";
    let first = search(ByteStream::from_bytes(data), "o", false).unwrap();
    let second = search(ByteStream::from_bytes(data), "o", false).unwrap();
    assert_eq!(first, second);
    assert_eq!(first, vec!["The quick brown fox", "jumps over", "the lazy dog"]);
}

#[test]
fn run_searches_standard_input_when_no_path_is_named() {
    let args = MinigrepArgs::build("dreary", &[]).unwrap();
    let results = run(args, ByteStream::from_bytes(b"How dreary\nnot here\n"), vec![]).unwrap();
    assert_eq!(results.findings().len(), 1);
    assert_eq!(results.findings()[0].path, "stdin");
    assert_eq!(results.findings()[0].lines, vec!["How dreary"]);
}

#[test]
fn run_leaves_standard_input_alone_when_paths_are_named() {
    let args = MinigrepArgs::build("dreary", &[("a.txt", PathKind::File)]).unwrap();
    let results = run(
        args,
        ByteStream::from_bytes(b"dreary input"),
        vec![file("a.txt", "dreary file\n")],
    )
    .unwrap();
    assert_eq!(results.findings().len(), 1);
    assert_eq!(results.findings()[0].path, "a.txt");
    assert!(results.lines_for("stdin").is_none());
}

#[test]
fn run_passes_over_directories_unless_recursive() {
    let paths = [("test_dir", PathKind::Directory), ("a.txt", PathKind::File)];
    let sources = || vec![directory("test_dir", test_dir()), file("a.txt", "so dreary")];

    let args = MinigrepArgs::build("dreary", &paths).unwrap();
    let results = run(args, ByteStream::from_bytes(b""), sources()).unwrap();
    assert_eq!(results.findings().len(), 1);
    assert_eq!(results.lines_for("a.txt").unwrap().len(), 1);
    assert!(results.report().starts_with(
        "Ignoring 1 dir(s): (use -r to search into directories)\n\t- test_dir\nFiles searched: 1\n"
    ));

    let mut args = MinigrepArgs::build("dreary", &paths).unwrap();
    args.set_flags(true, false);
    let results = run(args, ByteStream::from_bytes(b""), sources()).unwrap();
    assert_eq!(results.findings().len(), 4);
    assert_eq!(results.lines_for("test_dir/inner_dir/test.txt").unwrap().len(), 4);
    assert!(results.report().starts_with("Files searched: 4\nTotal lines matched: 6\n"));
}

#[test]
fn run_skips_what_is_neither_file_nor_directory() {
    let args = MinigrepArgs::build("dreary", &[("a.txt", PathKind::File)]).unwrap();
    let results = run(
        args,
        ByteStream::from_bytes(b""),
        vec![Source::Other { path: "gone".to_string() }, file("a.txt", "dreary")],
    )
    .unwrap();
    assert_eq!(results.findings().len(), 1);
}

#[test]
fn run_records_a_file_without_matches() {
    let args = MinigrepArgs::build("dreary", &[("a.txt", PathKind::File)]).unwrap();
    let results = run(args, ByteStream::from_bytes(b""), vec![file("a.txt", "nothing")]).unwrap();
    assert_eq!(results.lines_for("a.txt").unwrap().len(), 0);
}

#[test]
fn run_stops_at_the_first_failure() {
    let args = MinigrepArgs::build("dreary", &[("a.txt", PathKind::File)]).unwrap();
    let unreadable = Source::File {
        path: "b.txt".to_string(),
        stream: ByteStream {
            content: Vec::new(),
            failure: Some(std::io::Error::new(std::io::ErrorKind::NotFound, "gone")),
        },
    };
    let sources = vec![file("a.txt", "dreary x"), unreadable];
    assert!(matches!(
        run(args, ByteStream::from_bytes(b""), sources),
        Err(MinigrepError::IoError(_))
    ));

    let args = MinigrepArgs::build("dreary", &[]).unwrap();
    assert!(matches!(
        run(args, ByteStream::from_bytes(b"dreary \xff"), vec![file("a.txt", "dreary")]),
        Err(MinigrepError::Utf8Error(_))
    ));
}

#[test]
fn search_stdin_records_under_the_name_stdin() {
    let args = MinigrepArgs::build("lazy", &[]).unwrap();
    let mut results = MinigrepResults::new(true);
    search_stdin(ByteStream::from_bytes(b"the lazy dog\n"), &args, &mut results).unwrap();
    assert_eq!(results.lines_for("stdin").unwrap(), &vec!["the lazy dog".to_string()]);
}
