//! The findings of a run, source by source, and the report made of them.

use vstd::prelude::*;
use vstd::string::StringExecFns;
use crate::text::{decimal, decimal_text};

verus! {

/// What one source yielded.
pub struct SourceFindings {
    /// The name of the source: a path, or `stdin`.
    pub path: String,
    /// The lines found in it, in the order of the stream.
    pub lines: Vec<String>,
}

/// One source with its lines, as plain text.
pub struct Entry {
    pub path: Seq<char>,
    pub lines: Seq<Seq<char>>,
}

impl View for SourceFindings {
    type V = Entry;

    open spec fn view(&self) -> Entry {
        Entry { path: self.path@, lines: self.lines.deep_view() }
    }
}

/// The entries that a list of findings stands for.
pub open spec fn entries_of(findings: Seq<SourceFindings>) -> Seq<Entry> {
    Seq::new(findings.len(), |i: int| findings[i]@)
}

/// Everything a run has gathered.
pub struct ResultsView {
    /// Whether the report leaves out all but the lines found.
    pub quiet: bool,
    /// The sources searched, each once, in the order in which they first came.
    pub findings: Seq<Entry>,
    /// The directories that were passed over, in order.
    pub ignored_dirs: Seq<Seq<char>>,
}

/// Whether `i` is the first entry for `path`.
pub open spec fn is_entry_for(entries: Seq<Entry>, path: Seq<char>, i: int) -> bool {
    &&& 0 <= i < entries.len()
    &&& entries[i].path == path
    &&& forall|j: int| 0 <= j < i ==> (#[trigger] entries[j]).path != path
}

/// Whether some entry is for `path`.
pub open spec fn has_entry(entries: Seq<Entry>, path: Seq<char>) -> bool {
    exists|i: int| is_entry_for(entries, path, i)
}

/// The place of the entry for `path`, if there is one.
pub open spec fn entry_index(entries: Seq<Entry>, path: Seq<char>) -> int {
    choose|i: int| is_entry_for(entries, path, i)
}

/// The entries once `lines` have been found in `path`: they go behind the
/// lines that the source already has, or the source is entered as the last.
pub open spec fn with_findings(entries: Seq<Entry>, path: Seq<char>, lines: Seq<Seq<char>>) -> Seq<
    Entry,
> {
    if has_entry(entries, path) {
        let i = entry_index(entries, path);
        entries.update(i, Entry { path, lines: entries[i].lines + lines })
    } else {
        entries.push(Entry { path, lines })
    }
}

/// Whether no two entries are for the same source.
pub open spec fn distinct_sources(entries: Seq<Entry>) -> bool {
    forall|i: int, j: int|
        0 <= i < j < entries.len() ==> (#[trigger] entries[i]).path != (#[trigger] entries[j]).path
}

/// The number of lines found in all sources together.
pub open spec fn total_lines(entries: Seq<Entry>) -> nat
    decreases entries.len(),
{
    if entries.len() == 0 {
        0
    } else {
        total_lines(entries.drop_last()) + entries.last().lines.len()
    }
}

/// The directories passed over, one to a line.
pub open spec fn listed_dirs(dirs: Seq<Seq<char>>) -> Seq<char>
    decreases dirs.len(),
{
    if dirs.len() == 0 {
        Seq::empty()
    } else {
        listed_dirs(dirs.drop_last()) + "\t- "@ + dirs.last() + "\n"@
    }
}

/// The notice of the directories passed over; nothing where there are none.
pub open spec fn ignored_notice(dirs: Seq<Seq<char>>) -> Seq<char> {
    if dirs.len() == 0 {
        Seq::empty()
    } else {
        "Ignoring "@ + decimal(dirs.len()) + " dir(s): (use -r to search into directories)\n"@
            + listed_dirs(dirs)
    }
}

/// The head of the report, which a quiet report leaves out.
pub open spec fn summary(v: ResultsView) -> Seq<char> {
    if v.quiet {
        Seq::empty()
    } else {
        ignored_notice(v.ignored_dirs) + "Files searched: "@ + decimal(v.findings.len()) + "\n"@
            + "Total lines matched: "@ + decimal(total_lines(v.findings)) + "\n"@
    }
}

/// The lines found, one to a line.
pub open spec fn listed_lines(lines: Seq<Seq<char>>) -> Seq<char>
    decreases lines.len(),
{
    if lines.len() == 0 {
        Seq::empty()
    } else {
        listed_lines(lines.drop_last()) + lines.last() + "\n"@
    }
}

/// The line above the findings of one source, which a quiet report leaves out.
pub open spec fn heading(quiet: bool, entry: Entry) -> Seq<char> {
    if quiet {
        Seq::empty()
    } else if entry.lines.len() == 0 {
        "No results in "@ + entry.path + "\n"@
    } else {
        entry.path + ":\n"@
    }
}

/// The part of the report on one source: an empty line, the heading, the
/// lines.
pub open spec fn section(quiet: bool, entry: Entry) -> Seq<char> {
    "\n"@ + heading(quiet, entry) + listed_lines(entry.lines)
}

/// The parts of the report on the sources, in their order.
pub open spec fn sections(quiet: bool, entries: Seq<Entry>) -> Seq<char>
    decreases entries.len(),
{
    if entries.len() == 0 {
        Seq::empty()
    } else {
        sections(quiet, entries.drop_last()) + section(quiet, entries.last())
    }
}

/// The whole report.
pub open spec fn report_text(v: ResultsView) -> Seq<char> {
    summary(v) + sections(v.quiet, v.findings)
}

/// Writes the lines found, one to a line.
fn write_lines(out: &mut String, lines: &Vec<String>)
    ensures
        final(out)@ == old(out)@ + listed_lines(lines.deep_view()),
{
    let ghost all = lines.deep_view();
    let mut i: usize = 0;
    assert(all.take(0) =~= Seq::empty());
    while i < lines.len()
        invariant
            i <= lines.len(),
            all == lines.deep_view(),
            out@ == old(out)@ + listed_lines(all.take(i as int)),
        decreases lines.len() - i,
    {
        let ghost upto = all.take(i as int + 1);
        assert(upto.drop_last() =~= all.take(i as int));
        assert(upto.last() == lines[i as int]@);
        out.append(lines[i].as_str());
        out.append("\n");
        assert(out@ =~= old(out)@ + listed_lines(upto));
        i = i + 1;
    }
    assert(all.take(i as int) =~= all);
}

/// Writes the directories passed over, one to a line.
fn write_dirs(out: &mut String, dirs: &Vec<String>)
    ensures
        final(out)@ == old(out)@ + listed_dirs(dirs.deep_view()),
{
    let ghost all = dirs.deep_view();
    let mut i: usize = 0;
    assert(all.take(0) =~= Seq::empty());
    while i < dirs.len()
        invariant
            i <= dirs.len(),
            all == dirs.deep_view(),
            out@ == old(out)@ + listed_dirs(all.take(i as int)),
        decreases dirs.len() - i,
    {
        let ghost upto = all.take(i as int + 1);
        assert(upto.drop_last() =~= all.take(i as int));
        assert(upto.last() == dirs[i as int]@);
        out.append("\t- ");
        out.append(dirs[i].as_str());
        out.append("\n");
        assert(out@ =~= old(out)@ + listed_dirs(upto));
        i = i + 1;
    }
    assert(all.take(i as int) =~= all);
}

/// Counts the lines found in all sources.
fn count_lines(findings: &Vec<SourceFindings>) -> (total: u128)
    ensures
        total == total_lines(entries_of(findings@)),
{
    let ghost all = entries_of(findings@);
    let mut total: u128 = 0;
    let mut i: usize = 0;
    assert(all.take(0) =~= Seq::empty());
    while i < findings.len()
        invariant
            i <= findings.len(),
            all == entries_of(findings@),
            total == total_lines(all.take(i as int)),
            total <= i * 0xffff_ffff_ffff_ffff,
        decreases findings.len() - i,
    {
        let ghost upto = all.take(i as int + 1);
        assert(upto.drop_last() =~= all.take(i as int));
        assert(upto.last() == findings[i as int]@);
        total = total + findings[i].lines.len() as u128;
        i = i + 1;
    }
    assert(all.take(i as int) =~= all);
    total
}

/// The findings of a run.
pub struct MinigrepResults {
    quiet: bool,
    findings: Vec<SourceFindings>,
    ignored_dirs: Vec<String>,
}

impl View for MinigrepResults {
    type V = ResultsView;

    closed spec fn view(&self) -> ResultsView {
        ResultsView {
            quiet: self.quiet,
            findings: entries_of(self.findings@),
            ignored_dirs: self.ignored_dirs.deep_view(),
        }
    }
}

impl MinigrepResults {
    /// Results with nothing in them yet.
    pub fn new(quiet: bool) -> (results: MinigrepResults)
        ensures
            results@ == (ResultsView {
                quiet,
                findings: Seq::empty(),
                ignored_dirs: Seq::empty(),
            }),
            distinct_sources(results@.findings),
    {
        let results = MinigrepResults { quiet, findings: Vec::new(), ignored_dirs: Vec::new() };
        assert(results@.findings =~= Seq::empty());
        assert(results@.ignored_dirs =~= Seq::empty());
        results
    }

    /// Records the lines found in a source. A source that is already there
    /// keeps its place and gets the lines added behind its own.
    pub fn add_findings(&mut self, file_path: &str, file_findings: Vec<String>)
        ensures
            final(self)@ == (ResultsView {
                findings: with_findings(
                    old(self)@.findings,
                    file_path@,
                    file_findings.deep_view(),
                ),
                ..old(self)@
            }),
            distinct_sources(old(self)@.findings) ==> distinct_sources(final(self)@.findings),
    {
        let ghost before = self@.findings;
        let path = String::from_str(file_path);
        let mut incoming = file_findings;
        let ghost added = incoming.deep_view();
        let mut i: usize = 0;
        while i < self.findings.len()
            invariant
                i <= self.findings.len(),
                *self == *old(self),
                path@ == file_path@,
                before == self@.findings,
                added == incoming.deep_view(),
                added == file_findings.deep_view(),
                forall|j: int| 0 <= j < i ==> (#[trigger] before[j]).path != path@,
            decreases self.findings.len() - i,
        {
            if self.findings[i].path == path {
                assert(is_entry_for(before, path@, i as int));
                let ghost had = self.findings[i as int].lines.deep_view();
                self.findings[i].lines.append(&mut incoming);
                assert(self.findings[i as int].lines.deep_view() =~= had + added);
                assert(self@.findings =~= with_findings(before, path@, added));
                return ;
            }
            i = i + 1;
        }
        assert(!has_entry(before, path@));
        self.findings.push(SourceFindings { path, lines: incoming });
        assert(self@.findings =~= with_findings(before, path@, added));
    }

    /// The sources searched so far, with what each yielded.
    pub fn findings(&self) -> (found: &Vec<SourceFindings>)
        ensures
            entries_of(found@) == self@.findings,
    {
        &self.findings
    }

    /// The lines found in one source, if it was searched.
    pub fn lines_for(&self, path: &str) -> (found: Option<&Vec<String>>)
        ensures
            found is Some <==> has_entry(self@.findings, path@),
            found matches Some(lines) ==> lines.deep_view() == self@.findings[entry_index(
                self@.findings,
                path@,
            )].lines,
    {
        let wanted = String::from_str(path);
        let mut i: usize = 0;
        while i < self.findings.len()
            invariant
                i <= self.findings.len(),
                wanted@ == path@,
                forall|j: int| 0 <= j < i ==> (#[trigger] self@.findings[j]).path != path@,
            decreases self.findings.len() - i,
        {
            if self.findings[i].path == wanted {
                assert(is_entry_for(self@.findings, path@, i as int));
                return Some(&self.findings[i].lines);
            }
            i = i + 1;
        }
        None
    }

    /// The report for the user. Unless it is quiet it begins with the
    /// directories passed over, if any, and the counts of sources and lines;
    /// then come the sources in the order in which they were first added, each
    /// after an empty line, with its lines under a heading.
    pub fn report(&self) -> (text: String)
        ensures
            text@ == report_text(self@),
    {
        let ghost entries = self@.findings;
        let mut out = String::new();
        if !self.quiet {
            if !self.ignored_dirs.is_empty() {
                out.append("Ignoring ");
                out.append(decimal_text(self.ignored_dirs.len() as u128).as_str());
                out.append(" dir(s): (use -r to search into directories)\n");
                write_dirs(&mut out, &self.ignored_dirs);
            }
            assert(out@ =~= ignored_notice(self@.ignored_dirs));
            out.append("Files searched: ");
            out.append(decimal_text(self.findings.len() as u128).as_str());
            out.append("\n");
            out.append("Total lines matched: ");
            out.append(decimal_text(count_lines(&self.findings)).as_str());
            out.append("\n");
        }
        assert(out@ =~= summary(self@));
        let mut i: usize = 0;
        assert(entries.take(0) =~= Seq::empty());
        while i < self.findings.len()
            invariant
                i <= self.findings.len(),
                entries == self@.findings,
                out@ == summary(self@) + sections(self.quiet, entries.take(i as int)),
            decreases self.findings.len() - i,
        {
            let ghost upto = entries.take(i as int + 1);
            let ghost entry = self.findings[i as int]@;
            let ghost had = out@;
            assert(upto.drop_last() =~= entries.take(i as int));
            assert(upto.last() == entry);
            let found = &self.findings[i];
            out.append("\n");
            if !self.quiet {
                if found.lines.is_empty() {
                    out.append("No results in ");
                    out.append(found.path.as_str());
                    out.append("\n");
                } else {
                    out.append(found.path.as_str());
                    out.append(":\n");
                }
            }
            assert(out@ =~= had + ("\n"@ + heading(self.quiet, entry)));
            write_lines(&mut out, &found.lines);
            assert(out@ =~= had + section(self.quiet, entry));
            assert(out@ =~= summary(self@) + sections(self.quiet, upto));
            i = i + 1;
        }
        assert(entries.take(i as int) =~= entries);
        out
    }

    /// Records a directory that was passed over because the search does not
    /// go into directories.
    pub fn add_ignored_dir(&mut self, dir_path: &str)
        ensures
            final(self)@ == (ResultsView {
                ignored_dirs: old(self)@.ignored_dirs.push(dir_path@),
                ..old(self)@
            }),
    {
        self.ignored_dirs.push(String::from_str(dir_path));
        assert(self@.ignored_dirs =~= old(self)@.ignored_dirs.push(dir_path@));
    }
}

} // verus!
