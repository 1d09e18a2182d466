use minigrep::error::MinigrepError;
use minigrep::results::MinigrepResults;
use minigrep::text::decimal_text;

fn lines(texts: &[&str]) -> Vec<String> {
    texts.iter().map(|t| t.to_string()).collect()
}

#[test]
fn results_add_finding_succeeds() {
    let mut results = MinigrepResults::new(false);
    results.add_findings("test.txt", vec!["finding 1".to_string()]);
    results.add_findings("test.txt", vec!["finding 2".to_string()]);

    assert_eq!(results.findings().len(), 1);
    assert_eq!(results.lines_for("test.txt").unwrap().len(), 2);
}

#[test]
fn findings_of_one_source_are_kept_in_the_order_they_came() {
    let mut results = MinigrepResults::new(false);
    results.add_findings("b", lines(&["b1"]));
    results.add_findings("a", lines(&["a1", "a2"]));
    results.add_findings("c", lines(&[]));
    results.add_findings("b", lines(&["b2", "b3"]));
    results.add_findings("a", lines(&[]));

    let paths: Vec<&str> = results.findings().iter().map(|f| f.path.as_str()).collect();
    assert_eq!(paths, vec!["b", "a", "c"]);
    assert_eq!(results.lines_for("b").unwrap(), &lines(&["b1", "b2", "b3"]));
    assert_eq!(results.lines_for("a").unwrap(), &lines(&["a1", "a2"]));
    assert_eq!(results.lines_for("c").unwrap(), &lines(&[]));
    assert!(results.lines_for("d").is_none());
    assert!(results.lines_for("").is_none());
}

#[test]
fn new_results_are_empty() {
    let results = MinigrepResults::new(false);
    assert!(results.findings().is_empty());
    assert_eq!(results.report(), "Files searched: 0\nTotal lines matched: 0\n");
    assert_eq!(MinigrepResults::new(true).report(), "");
}

#[test]
fn the_report_lists_everything() {
    let mut results = MinigrepResults::new(false);
    results.add_ignored_dir("some/dir");
    results.add_ignored_dir("other");
    results.add_findings("a.txt", lines(&["first line", "second line"]));
    results.add_findings("empty.txt", lines(&[]));
    results.add_findings("b.txt", lines(&["third"]));
    assert_eq!(
        results.report(),
        "Ignoring 2 dir(s): (use -r to search into directories)\n\
         \t- some/dir\n\
         \t- other\n\
         Files searched: 3\n\
         Total lines matched: 3\n\
         \n\
         a.txt:\n\
         first line\n\
         second line\n\
         \n\
         No results in empty.txt\n\
         \n\
         b.txt:\n\
         third\n"
    );
}

#[test]
fn a_quiet_report_holds_the_lines_only() {
    let mut results = MinigrepResults::new(true);
    results.add_ignored_dir("some/dir");
    results.add_findings("a.txt", lines(&["first line", "second line"]));
    results.add_findings("empty.txt", lines(&[]));
    results.add_findings("b.txt", lines(&["third"]));
    assert_eq!(results.report(), "\nfirst line\nsecond line\n\n\nthird\n");
}

#[test]
fn the_report_leaves_out_the_notice_where_no_directory_was_passed_over() {
    let mut results = MinigrepResults::new(false);
    results.add_findings("stdin", lines(&["x"]));
    assert_eq!(
        results.report(),
        "Files searched: 1\nTotal lines matched: 1\n\nstdin:\nx\n"
    );
}

#[test]
fn the_report_counts_in_decimal() {
    let mut results = MinigrepResults::new(false);
    for i in 0..12 {
        results.add_ignored_dir(&format!("d{}", i));
        results.add_findings(&format!("f{}", i), vec!["x".to_string(); 10]);
    }
    let report = results.report();
    assert!(report.starts_with("Ignoring 12 dir(s): (use -r to search into directories)\n\t- d0\n"));
    assert!(report.contains("\t- d11\nFiles searched: 12\nTotal lines matched: 120\n\nf0:\nx\n"));
}

#[test]
fn numbers_are_written_in_decimal() {
    assert_eq!(decimal_text(0), "0");
    assert_eq!(decimal_text(7), "7");
    assert_eq!(decimal_text(10), "10");
    assert_eq!(decimal_text(1234567890), "1234567890");
    assert_eq!(decimal_text(u128::MAX), u128::MAX.to_string());
    for n in 0..2000u128 {
        assert_eq!(decimal_text(n), n.to_string());
    }
}

#[test]
fn errors_have_their_messages() {
    assert_eq!(MinigrepError::QueryMissing.message(), "Provide a search phrase. Use --help.");
    assert_eq!(
        MinigrepError::UnknownArgument("--bogus".to_string()).message(),
        "Unknown argument '--bogus'"
    );
    assert_eq!(
        MinigrepError::PathInaccessible("a/b.txt".to_string()).message(),
        "Could not access path 'a/b.txt'."
    );
    assert_eq!(MinigrepError::NoResults.message(), "No results found.");
    assert_eq!(MinigrepError::Help.message(), "");
    let error = std::io::Error::new(std::io::ErrorKind::Other, "disk on fire");
    assert_eq!(MinigrepError::from(error).message(), "disk on fire");
    let error = std::str::from_utf8(b"ab\xffcd").unwrap_err();
    assert_eq!(MinigrepError::from(error).message(), error.to_string());
    assert_eq!(
        MinigrepError::from(error).message(),
        "invalid utf-8 sequence of 1 bytes from index 2"
    );
}
